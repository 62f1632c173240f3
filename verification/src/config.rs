//! The servers that the user has set up, and which of them is selected.

use crate::text;
use vstd::prelude::*;

verus! {

/// `n` in hexadecimal, without leading zeros.
pub open spec fn hexadecimal(n: nat) -> Seq<char>
    decreases n,
{
    if n < 16 {
        seq![text::hex_digit(n)]
    } else {
        hexadecimal(n / 16).push(text::hex_digit(n % 16))
    }
}

/// Appends `n` in hexadecimal to `out`.
fn push_hexadecimal(out: &mut String, n: u128)
    ensures
        final(out)@ == old(out)@ + hexadecimal(n as nat),
    decreases n,
{
    if n >= 16 {
        push_hexadecimal(out, n / 16);
    }
    let d: u8 = (n % 16) as u8;
    if d < 10 {
        out.push((48 + d) as char);
    } else {
        out.push((87 + d) as char);
    }
    proof {
        assert(out@ =~= old(out)@ + hexadecimal(n as nat));
    }
}

/// The identifier of a profile made at a moment, given in nanoseconds.
pub fn gen_id(nanos: u128) -> (s: String)
    ensures
        s@ == hexadecimal(nanos as nat),
{
    let mut s = String::new();
    push_hexadecimal(&mut s, nanos);
    proof {
        assert(s@ =~= hexadecimal(nanos as nat));
    }
    s
}

proof fn lemma_hexadecimal_nonempty(n: nat)
    ensures
        hexadecimal(n).len() > 0,
{
}

/// Profiles made at different moments have different identifiers.
pub proof fn law_ids_differ(m: nat, n: nat)
    requires
        hexadecimal(m) == hexadecimal(n),
    ensures
        m == n,
    decreases m,
{
    let s = hexadecimal(m);
    lemma_hexadecimal_nonempty(m / 16);
    lemma_hexadecimal_nonempty(n / 16);
    assert(s.last() == text::hex_digit(m % 16));
    assert(s.last() == text::hex_digit(n % 16));
    assert(m % 16 == n % 16);
    if m >= 16 && n >= 16 {
        assert(s.drop_last() =~= hexadecimal(m / 16));
        assert(s.drop_last() =~= hexadecimal(n / 16));
        law_ids_differ(m / 16, n / 16);
    }
}

/// A server that the user has set up.
#[derive(Debug, Clone)]
pub struct Profile {
    pub id: String,
    pub name: String,
    pub server: String,
    pub username: String,
}

/// What a profile is.
#[verifier::ext_equal]
pub struct ProfileView {
    pub id: Seq<char>,
    pub name: Seq<char>,
    pub server: Seq<char>,
    pub username: Seq<char>,
}

impl View for Profile {
    type V = ProfileView;

    open spec fn view(&self) -> ProfileView {
        ProfileView {
            id: self.id@,
            name: self.name@,
            server: self.server@,
            username: self.username@,
        }
    }
}

/// A profile with nothing filled in but its name.
pub open spec fn blank_profile(n: nat, id: Seq<char>) -> ProfileView {
    ProfileView {
        id,
        name: "Сервер "@ + text::decimal(n),
        server: Seq::empty(),
        username: Seq::empty(),
    }
}

impl Profile {
    /// The `n`th profile, with nothing filled in but its name.
    pub fn blank(n: usize, id: String) -> (p: Profile)
        ensures
            p@ == blank_profile(n as nat, id@),
    {
        let mut name = text::owned("Сервер ");
        text::push_decimal(&mut name, n as u64);
        Profile { id, name, server: String::new(), username: String::new() }
    }
}

/// What a list of profiles is.
pub open spec fn profiles_view(v: Seq<Profile>) -> Seq<ProfileView> {
    v.map_values(|p: Profile| p@)
}

/// All profiles, and the identifier of the selected one.
#[derive(Debug, Clone)]
pub struct Config {
    pub profiles: Vec<Profile>,
    pub selected: Option<String>,
}

/// What a configuration is.
#[verifier::ext_equal]
pub struct ConfigView {
    pub profiles: Seq<ProfileView>,
    pub selected: Option<Seq<char>>,
}

impl View for Config {
    type V = ConfigView;

    open spec fn view(&self) -> ConfigView {
        ConfigView {
            profiles: profiles_view(self.profiles@),
            selected: text::opt_view(self.selected),
        }
    }
}

impl Default for Config {
    fn default() -> (c: Config)
        ensures
            c@ == (ConfigView { profiles: Seq::empty(), selected: None }),
    {
        let c = Config { profiles: Vec::new(), selected: None };
        proof {
            assert(c@.profiles =~= Seq::empty());
        }
        c
    }
}

/// Where the first profile with an identifier stands, if anywhere.
pub open spec fn position(profiles: Seq<ProfileView>, id: Seq<char>) -> Option<int>
    decreases profiles.len(),
{
    if profiles.len() == 0 {
        None
    } else if profiles[0].id == id {
        Some(0)
    } else {
        match position(profiles.drop_first(), id) {
            Some(i) => Some(i + 1),
            None => None,
        }
    }
}

impl ConfigView {
    /// Where the selected profile stands, if there is one.
    pub open spec fn selected_at(self) -> Option<int> {
        match self.selected {
            Some(id) => position(self.profiles, id),
            None => None,
        }
    }

    /// The configuration as a program starts with it: there is a profile, and
    /// one is selected.
    pub open spec fn completed(self, fresh_id: Seq<char>) -> ConfigView {
        if self.profiles.len() == 0 {
            ConfigView {
                profiles: seq![blank_profile(1, fresh_id)],
                selected: Some(fresh_id),
            }
        } else if self.selected is None {
            ConfigView { selected: Some(self.profiles[0].id), ..self }
        } else {
            self
        }
    }

    /// The configuration with a new profile, which is then selected.
    pub open spec fn extended(self, fresh_id: Seq<char>) -> ConfigView {
        ConfigView {
            profiles: self.profiles.push(blank_profile(self.profiles.len() + 1, fresh_id)),
            selected: Some(fresh_id),
        }
    }

    /// The configuration without the profiles of an identifier. Where that was
    /// selected, the first of the others is.
    pub open spec fn reduced(self, id: Seq<char>) -> ConfigView {
        let rest = self.profiles.filter(|p: ProfileView| p.id != id);
        ConfigView {
            profiles: rest,
            selected: if self.selected == Some(id) {
                if rest.len() > 0 {
                    Some(rest[0].id)
                } else {
                    None
                }
            } else {
                self.selected
            },
        }
    }
}

/// What becomes of the password on display when a profile is removed.
#[derive(Debug, Clone, Copy, PartialEq, Eq, Structural)]
pub enum AfterRemoval {
    /// Another profile is selected: load its password.
    LoadPassword,
    /// No profile is left to be selected: clear the password.
    ClearPassword,
    /// Another profile was and stays selected.
    Keep,
}

impl Config {
    /// Where the selected profile stands, if there is one.
    pub fn selected_index(&self) -> (r: Option<usize>)
        ensures
            match r {
                Some(i) => self@.selected_at() == Some(i as int) && i < self.profiles@.len(),
                None => self@.selected_at() is None,
            },
    {
        let id = match &self.selected {
            Some(id) => id,
            None => return None,
        };
        let ghost all = self@.profiles;
        let mut i: usize = 0;
        proof {
            assert(all.skip(0) =~= all);
        }
        while i < self.profiles.len()
            invariant
                i <= self.profiles@.len(),
                self@.selected == Some(id@),
                all == self@.profiles,
                position(all, id@) == (match position(all.skip(i as int), id@) {
                    Some(j) => Some(j + i),
                    None => None::<int>,
                }),
            decreases self.profiles@.len() - i,
        {
            proof {
                assert(all.skip(i as int)[0] == self.profiles@[i as int]@);
                assert(all.skip(i as int).drop_first() =~= all.skip(i + 1));
            }
            if self.profiles[i].id == *id {
                return Some(i);
            }
            i += 1;
        }
        None
    }

    /// The selected profile, if there is one.
    pub fn selected_profile(&self) -> (r: Option<&Profile>)
        ensures
            match r {
                Some(p) => self@.selected_at() matches Some(i) && self@.profiles[i] == p@,
                None => self@.selected_at() is None,
            },
    {
        match self.selected_index() {
            Some(i) => {
                proof {
                    assert(self@.profiles[i as int] == self.profiles@[i as int]@);
                }
                Some(&self.profiles[i])
            },
            None => None,
        }
    }

    /// Makes sure that there is a profile and that one is selected.
    pub fn complete(&mut self, fresh_id: String)
        ensures
            final(self)@ == old(self)@.completed(fresh_id@),
    {
        if self.profiles.len() == 0 {
            self.selected = Some(text::owned(fresh_id.as_str()));
            self.profiles.push(Profile::blank(1, fresh_id));
        } else if self.selected.is_none() {
            self.selected = Some(text::owned(self.profiles[0].id.as_str()));
        }
        proof {
            assert(self@ =~= old(self)@.completed(fresh_id@));
        }
    }

    /// Selects a profile by its identifier.
    pub fn select(&mut self, id: String)
        ensures
            final(self)@ == (ConfigView { selected: Some(id@), ..old(self)@ }),
    {
        self.selected = Some(id);
    }

    /// Adds a profile and selects it.
    pub fn add_profile(&mut self, fresh_id: String)
        requires
            old(self)@.profiles.len() < usize::MAX,
        ensures
            final(self)@ == old(self)@.extended(fresh_id@),
    {
        let n: usize = self.profiles.len() + 1;
        self.selected = Some(text::owned(fresh_id.as_str()));
        self.profiles.push(Profile::blank(n, fresh_id));
        proof {
            assert(self@ =~= old(self)@.extended(fresh_id@));
        }
    }

    /// Removes the profiles of an identifier.
    pub fn remove_profile(&mut self, id: &str) -> (r: AfterRemoval)
        ensures
            final(self)@ == old(self)@.reduced(id@),
            r == (if old(self)@.selected != Some(id@) {
                AfterRemoval::Keep
            } else if final(self)@.selected is Some {
                AfterRemoval::LoadPassword
            } else {
                AfterRemoval::ClearPassword
            }),
    {
        let ghost all = self@.profiles;
        let ghost keep = |p: ProfileView| p.id != id@;
        let mut kept: Vec<Profile> = Vec::new();
        let mut i: usize = 0;
        proof {
            reveal(Seq::filter);
            assert(profiles_view(kept@) =~= all.take(0).filter(keep));
        }
        while i < self.profiles.len()
            invariant
                i <= self.profiles@.len(),
                *self == *old(self),
                all == profiles_view(self.profiles@),
                keep == (|p: ProfileView| p.id != id@),
                profiles_view(kept@) == all.take(i as int).filter(keep),
            decreases self.profiles@.len() - i,
        {
            proof {
                reveal(Seq::filter);
                assert(all.take(i + 1).drop_last() =~= all.take(i as int));
                assert(all.take(i + 1).last() == all[i as int]);
            }
            let ghost before = kept@;
            let p = &self.profiles[i];
            if !text::same_text(p.id.as_str(), id) {
                kept.push(
                    Profile {
                        id: text::owned(p.id.as_str()),
                        name: text::owned(p.name.as_str()),
                        server: text::owned(p.server.as_str()),
                        username: text::owned(p.username.as_str()),
                    },
                );
                proof {
                    assert(kept@.last()@ =~= all[i as int]);
                    assert(profiles_view(kept@) =~= profiles_view(before).push(all[i as int]));
                }
            }
            i += 1;
        }
        proof {
            assert(all.take(i as int) =~= all);
        }
        let was_selected = match &self.selected {
            Some(s) => text::same_text(s.as_str(), id),
            None => false,
        };
        self.profiles = kept;
        let r = if !was_selected {
            AfterRemoval::Keep
        } else if self.profiles.len() > 0 {
            self.selected = Some(text::owned(self.profiles[0].id.as_str()));
            AfterRemoval::LoadPassword
        } else {
            self.selected = None;
            AfterRemoval::ClearPassword
        };
        proof {
            if self.profiles@.len() > 0 {
                assert(self@.profiles[0] == self.profiles@[0]@);
            }
            assert(self@ =~= old(self)@.reduced(id@));
        }
        r
    }
}

proof fn lemma_position(profiles: Seq<ProfileView>, id: Seq<char>, i: int)
    requires
        0 <= i < profiles.len(),
        profiles[i].id == id,
    ensures
        position(profiles, id) is Some,
        0 <= position(profiles, id)->Some_0 <= i,
        profiles[position(profiles, id)->Some_0].id == id,
    decreases profiles.len(),
{
    if profiles[0].id != id {
        lemma_position(profiles.drop_first(), id, i - 1);
        let j = position(profiles.drop_first(), id)->Some_0;
        assert(profiles.drop_first()[j] == profiles[j + 1]);
    }
}

/// Whether the selection names a profile, where there is one.
pub open spec fn selection_is_sound(c: ConfigView) -> bool {
    c.selected is Some ==> c.selected_at() is Some
}

/// A program starts with a profile and a selection; the selection is a profile
/// unless what was loaded already named none.
pub proof fn law_start_is_complete(c: ConfigView, fresh_id: Seq<char>)
    ensures
        c.completed(fresh_id).profiles.len() > 0,
        c.completed(fresh_id).selected is Some,
        selection_is_sound(c) ==> selection_is_sound(c.completed(fresh_id)),
{
    let d = c.completed(fresh_id);
    if c.profiles.len() == 0 || c.selected is None {
        lemma_position(d.profiles, d.selected->Some_0, 0);
    }
}

/// A new profile stands last, and is the selected one unless its identifier was
/// taken.
pub proof fn law_new_profile_is_selected(c: ConfigView, fresh_id: Seq<char>)
    ensures
        selection_is_sound(c.extended(fresh_id)),
        c.extended(fresh_id).profiles.drop_last() == c.profiles,
        c.extended(fresh_id).profiles.last().id == fresh_id,
        position(c.profiles, fresh_id) is None ==> c.extended(fresh_id).selected_at() == Some(
            c.profiles.len() as int,
        ),
{
    let d = c.extended(fresh_id);
    lemma_position(d.profiles, fresh_id, d.profiles.len() - 1);
    let j = position(d.profiles, fresh_id)->Some_0;
    if j < c.profiles.len() {
        lemma_position(c.profiles, fresh_id, j);
    }
    assert(d.profiles.drop_last() =~= c.profiles);
}

/// A removed profile is gone, the others stay, and the selection stays a
/// profile.
pub proof fn law_removed_profile_is_gone(c: ConfigView, id: Seq<char>)
    ensures
        forall|p: ProfileView| #[trigger]
            c.reduced(id).profiles.contains(p) <==> c.profiles.contains(p) && p.id != id,
        c.reduced(id).selected != Some(id),
        selection_is_sound(c) ==> selection_is_sound(c.reduced(id)),
{
    let keep = |p: ProfileView| p.id != id;
    let rest = c.profiles.filter(keep);
    let d = c.reduced(id);
    assert forall|p: ProfileView| #[trigger]
        d.profiles.contains(p) <==> c.profiles.contains(p) && p.id != id by {
        if c.profiles.contains(p) && p.id != id {
            let i = choose|i: int| 0 <= i < c.profiles.len() && c.profiles[i] == p;
            c.profiles.lemma_filter_contains(keep, i);
        }
        if rest.contains(p) {
            let i = choose|i: int| 0 <= i < rest.len() && rest[i] == p;
            c.profiles.lemma_filter_pred(keep, i);
            c.profiles.lemma_filter_contains_rev(keep, p);
        }
    }
    if rest.len() > 0 {
        c.profiles.lemma_filter_pred(keep, 0);
    }
    if selection_is_sound(c) && d.selected is Some {
        if c.selected == Some(id) {
            lemma_position(rest, rest[0].id, 0);
        } else {
            let sel = c.selected->Some_0;
            lemma_position_found(c.profiles, sel);
            let j = position(c.profiles, sel)->Some_0;
            c.profiles.lemma_filter_contains(keep, j);
            let k = choose|k: int| 0 <= k < rest.len() && rest[k] == c.profiles[j];
            lemma_position(rest, sel, k);
        }
    }
}

proof fn lemma_position_found(profiles: Seq<ProfileView>, id: Seq<char>)
    ensures
        position(profiles, id) matches Some(i) ==> 0 <= i < profiles.len() && profiles[i].id == id,
    decreases profiles.len(),
{
    if profiles.len() > 0 && profiles[0].id != id {
        lemma_position_found(profiles.drop_first(), id);
    }
}

/// Identifiers are written digit by digit: the last digit is the remainder by
/// sixteen, 0 to 9 or a to f, and the ones before it are written for the rest.
pub proof fn law_ids_are_positional(n: nat)
    ensures
        n < 16 ==> hexadecimal(n).len() == 1,
        n >= 16 ==> hexadecimal(n).drop_last() == hexadecimal(n / 16),
        n % 16 < 10 ==> hexadecimal(n).last() as int == 48 + n % 16,
        n % 16 >= 10 ==> hexadecimal(n).last() as int == 97 + n % 16 - 10,
{
    if n >= 16 {
        assert(hexadecimal(n).drop_last() =~= hexadecimal(n / 16));
    }
}

/// The first profile with an identifier is the one that is found, and none is
/// found where none has it.
pub proof fn law_first_profile_counts(profiles: Seq<ProfileView>, id: Seq<char>, i: int)
    ensures
        position(profiles, id) == Some(i) <==> 0 <= i < profiles.len() && profiles[i].id == id
            && forall|j: int| 0 <= j < i ==> (#[trigger] profiles[j]).id != id,
        position(profiles, id) is None <==> forall|j: int|
            0 <= j < profiles.len() ==> (#[trigger] profiles[j]).id != id,
    decreases profiles.len(),
{
    lemma_position_found(profiles, id);
    if let Some(k) = position(profiles, id) {
        assert forall|j: int| 0 <= j < k implies (#[trigger] profiles[j]).id != id by {
            if profiles[j].id == id {
                lemma_position(profiles, id, j);
            }
        }
        if 0 <= i < profiles.len() && profiles[i].id == id {
            lemma_position(profiles, id, i);
        }
    } else {
        assert forall|j: int| 0 <= j < profiles.len() implies (#[trigger] profiles[j]).id != id by {
            if profiles[j].id == id {
                lemma_position(profiles, id, j);
            }
        }
    }
}

/// The selected profile is the first with the selected identifier, and none
/// where nothing is selected.
pub proof fn law_selection_is_by_identifier(profiles: Seq<ProfileView>, id: Seq<char>)
    ensures
        (ConfigView { profiles, selected: Some(id) }).selected_at() == position(profiles, id),
        (ConfigView { profiles, selected: None }).selected_at() is None,
{
}

/// A start adds a profile only where there is none, selects one only where none
/// is selected, and leaves everything else as it was loaded.
pub proof fn law_start_keeps_what_was_loaded(c: ConfigView, fresh_id: Seq<char>)
    ensures
        c.profiles.len() > 0 ==> c.completed(fresh_id).profiles == c.profiles,
        c.profiles.len() > 0 && c.selected is Some ==> c.completed(fresh_id) == c,
        c.profiles.len() > 0 && c.selected is None ==> c.completed(fresh_id).selected == Some(
            c.profiles[0].id,
        ),
        c.profiles.len() == 0 ==> ({
            let d = c.completed(fresh_id);
            &&& d.profiles.len() == 1
            &&& d.profiles[0].id == fresh_id
            &&& d.profiles[0].name == "Сервер "@ + text::decimal(1)
            &&& d.profiles[0].server.len() == 0 && d.profiles[0].username.len() == 0
            &&& d.selected == Some(fresh_id)
        }),
{
}

/// A new profile is empty but for its identifier and a name that counts the
/// profiles.
pub proof fn law_new_profiles_are_numbered(c: ConfigView, fresh_id: Seq<char>)
    ensures
        ({
            let p = c.extended(fresh_id).profiles.last();
            &&& p.id == fresh_id
            &&& p.name == "Сервер "@ + text::decimal((c.profiles.len() + 1) as nat)
            &&& p.server.len() == 0
            &&& p.username.len() == 0
        }),
        c.extended(fresh_id).profiles.len() == c.profiles.len() + 1,
        c.extended(fresh_id).selected == Some(fresh_id),
{
}

/// Removing takes out every profile of the identifier and leaves the others in
/// their order. The selection moves, to the first of the others, only where it
/// was on the removed one.
pub proof fn law_removal_keeps_the_order(
    profiles: Seq<ProfileView>,
    p: ProfileView,
    selected: Option<Seq<char>>,
    id: Seq<char>,
)
    ensures
        ({
            let before = (ConfigView { profiles, selected }).reduced(id);
            let after = (ConfigView { profiles: profiles.push(p), selected }).reduced(id);
            &&& p.id == id ==> after.profiles == before.profiles
            &&& p.id != id ==> after.profiles == before.profiles.push(p)
            &&& selected != Some(id) ==> after.selected == selected
            &&& selected == Some(id) && after.profiles.len() > 0 ==> after.selected == Some(
                after.profiles[0].id,
            )
            &&& selected == Some(id) && after.profiles.len() == 0 ==> after.selected is None
        }),
        (ConfigView { profiles: Seq::empty(), selected }).reduced(id).profiles.len() == 0,
{
    reveal(Seq::filter);
    assert(profiles.push(p).drop_last() =~= profiles);
}

} // verus!
