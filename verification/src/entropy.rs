//! Random values.

use vstd::prelude::*;

verus! {

/// A random number from `rand::random`. Nothing is claimed of its value.
#[verifier::external_body]
pub(crate) fn random_u32() -> (n: u32) {
    rand::random()
}

/// Sixteen random bytes from `rand::random`. Nothing is claimed of them.
#[verifier::external_body]
pub(crate) fn random_block() -> (b: [u8; 16]) {
    rand::random()
}

/// As many random numbers as asked for.
pub fn random_numbers(count: usize) -> (v: Vec<u32>)
    ensures
        v@.len() == count,
{
    let mut v: Vec<u32> = Vec::new();
    while v.len() < count
        invariant
            v@.len() <= count,
        decreases count - v@.len(),
    {
        v.push(random_u32());
    }
    v
}

/// Whether a character is a lower-case hexadecimal digit.
pub open spec fn is_hex(c: char) -> bool {
    '0' <= c <= '9' || 'a' <= c <= 'f'
}

/// Whether a text has the form of a random identifier: groups of eight, four,
/// four, four and twelve lower-case hexadecimal digits with hyphens between
/// them, the version digit 4, and a variant digit from 8 to b.
pub open spec fn is_uuid(s: Seq<char>) -> bool {
    &&& s.len() == 36
    &&& forall|i: int|
        0 <= i < 36 ==> if i == 8 || i == 13 || i == 18 || i == 23 {
            #[trigger] s[i] == '-'
        } else {
            is_hex(s[i])
        }
    &&& s[14] == '4'
    &&& s[19] == '8' || s[19] == '9' || s[19] == 'a' || s[19] == 'b'
}

/// A random identifier from `uuid::Uuid::new_v4` in its hyphenated form. Its
/// form is claimed, nothing of the random digits.
#[verifier::external_body]
pub(crate) fn random_uuid() -> (s: String)
    ensures
        is_uuid(s@),
{
    uuid::Uuid::new_v4().to_string()
}

} // verus!
