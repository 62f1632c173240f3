//! How passwords are kept in the Keychain: the arguments of the `security`
//! tool, and what its answer means. Entries are keyed by the profile, so two
//! profiles may share a user name.

use crate::text;
use vstd::prelude::*;

verus! {

/// The name under which this program keeps its passwords.
pub const SERVICE_NAME: &'static str = "sstp-gui";

/// The arguments that remove a password.
pub open spec fn delete_words(profile_id: Seq<char>) -> Seq<Seq<char>> {
    seq!["delete-generic-password"@, "-a"@, profile_id, "-s"@, SERVICE_NAME@]
}

/// The arguments that keep a password.
pub open spec fn set_words(profile_id: Seq<char>, password: Seq<char>) -> Seq<Seq<char>> {
    seq![
        "add-generic-password"@,
        "-a"@,
        profile_id,
        "-s"@,
        SERVICE_NAME@,
        "-w"@,
        password,
        "-U"@,
    ]
}

/// The arguments that print a password.
pub open spec fn get_words(profile_id: Seq<char>) -> Seq<Seq<char>> {
    seq!["find-generic-password"@, "-a"@, profile_id, "-s"@, SERVICE_NAME@, "-w"@]
}

/// The arguments that remove a password.
pub fn delete_args(profile_id: &str) -> (v: Vec<String>)
    ensures
        text::strs_view(v@) == delete_words(profile_id@),
{
    let mut v: Vec<String> = Vec::new();
    v.push(text::owned("delete-generic-password"));
    v.push(text::owned("-a"));
    v.push(text::owned(profile_id));
    v.push(text::owned("-s"));
    v.push(text::owned(SERVICE_NAME));
    proof {
        assert(text::strs_view(v@) =~= delete_words(profile_id@));
    }
    v
}

/// The arguments that keep a password.
pub fn set_args(profile_id: &str, password: &str) -> (v: Vec<String>)
    ensures
        text::strs_view(v@) == set_words(profile_id@, password@),
{
    let mut v: Vec<String> = Vec::new();
    v.push(text::owned("add-generic-password"));
    v.push(text::owned("-a"));
    v.push(text::owned(profile_id));
    v.push(text::owned("-s"));
    v.push(text::owned(SERVICE_NAME));
    v.push(text::owned("-w"));
    v.push(text::owned(password));
    v.push(text::owned("-U"));
    proof {
        assert(text::strs_view(v@) =~= set_words(profile_id@, password@));
    }
    v
}

/// The arguments that print a password.
pub fn get_args(profile_id: &str) -> (v: Vec<String>)
    ensures
        text::strs_view(v@) == get_words(profile_id@),
{
    let mut v: Vec<String> = Vec::new();
    v.push(text::owned("find-generic-password"));
    v.push(text::owned("-a"));
    v.push(text::owned(profile_id));
    v.push(text::owned("-s"));
    v.push(text::owned(SERVICE_NAME));
    v.push(text::owned("-w"));
    proof {
        assert(text::strs_view(v@) =~= get_words(profile_id@));
    }
    v
}

/// The password in a printed text: what is left of it without the white space
/// around it, unless that is nothing.
pub open spec fn password_in(printed: Seq<char>) -> Option<Seq<char>> {
    let p = text::trimmed(printed);
    if p.len() == 0 {
        None
    } else {
        Some(p)
    }
}

/// The password in a printed text.
pub fn read_password(printed: &str) -> (r: Option<String>)
    ensures
        match r {
            Some(p) => password_in(printed@) == Some(p@),
            None => password_in(printed@) is None,
        },
{
    let chars = text::to_chars(printed);
    let p = text::trim(chars.as_slice());
    if p.len() == 0 {
        return None;
    }
    Some(text::from_chars(p))
}

/// The password that the tool printed, where it succeeded.
pub fn password_from_output(success: bool, stdout: &[u8]) -> (r: Option<String>)
    ensures
        match r {
            Some(p) => success && password_in(text::utf8_lossy(stdout@)) == Some(p@),
            None => !success || password_in(text::utf8_lossy(stdout@)) is None,
        },
{
    if !success {
        return None;
    }
    let printed = text::lossy(stdout);
    read_password(printed.as_str())
}

/// A password is kept, printed and removed under one and the same entry: the
/// profile's identifier as the account, and this program as the service. Keeping
/// one replaces an older one.
pub proof fn law_entries_are_keyed_by_profile(profile_id: Seq<char>, password: Seq<char>)
    ensures
        ({
            let key = seq!["-a"@, profile_id, "-s"@, "sstp-gui"@];
            &&& set_words(profile_id, password) == seq!["add-generic-password"@] + key + seq![
                "-w"@,
                password,
                "-U"@,
            ]
            &&& get_words(profile_id) == seq!["find-generic-password"@] + key + seq!["-w"@]
            &&& delete_words(profile_id) == seq!["delete-generic-password"@] + key
        }),
{
    let key = seq!["-a"@, profile_id, "-s"@, "sstp-gui"@];
    assert(set_words(profile_id, password) =~= seq!["add-generic-password"@] + key + seq![
        "-w"@,
        password,
        "-U"@,
    ]);
    assert(get_words(profile_id) =~= seq!["find-generic-password"@] + key + seq!["-w"@]);
    assert(delete_words(profile_id) =~= seq!["delete-generic-password"@] + key);
}

/// A printed password is read back whole without the white space around it, and
/// white space alone is no password.
pub proof fn law_printed_passwords_are_read(
    before: Seq<char>,
    password: Seq<char>,
    behind: Seq<char>,
)
    requires
        text::all_white(before),
        text::all_white(behind),
        password.len() > 0,
        !text::is_white(password[0]),
        !text::is_white(password.last()),
    ensures
        password_in(before + password + behind) == Some(password),
        password_in(before) is None,
{
    text::law_trimming_is_exact(before, password, behind);
}

} // verus!
