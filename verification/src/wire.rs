//! Big-endian integers and byte strings as they stand on the wire.

use vstd::prelude::*;

verus! {

/// The low sixteen bits of `n`, most significant byte first.
pub open spec fn be16(n: nat) -> Seq<u8> {
    seq![((n / 256) % 256) as u8, (n % 256) as u8]
}

/// The number that two bytes stand for, most significant byte first.
pub open spec fn be16_value(hi: u8, lo: u8) -> nat {
    hi as nat * 256 + lo as nat
}

/// A 32-bit number as four bytes, most significant byte first.
pub open spec fn be32(n: u32) -> Seq<u8> {
    seq![
        (n / 0x100_0000) as u8,
        ((n / 0x1_0000) % 256) as u8,
        ((n / 0x100) % 256) as u8,
        (n % 256) as u8,
    ]
}

/// The 32-bit number that the first four bytes of `b` stand for.
pub open spec fn be32_value(b: Seq<u8>) -> u32 {
    (b[0] as int * 0x100_0000 + b[1] as int * 0x1_0000 + b[2] as int * 0x100 + b[3] as int) as u32
}

/// Writing a number below 2^16 and reading it back gives the number.
pub proof fn law_be16_round_trip(n: nat)
    requires
        n < 0x1_0000,
    ensures
        be16(n).len() == 2,
        be16_value(be16(n)[0], be16(n)[1]) == n,
{
}

/// Writing a 32-bit number and reading it back gives the number.
pub proof fn law_be32_round_trip(n: u32)
    ensures
        be32(n).len() == 4,
        be32_value(be32(n)) == n,
{
}

/// Only the low sixteen bits of a sum reach the wire.
pub proof fn lemma_be16_is_modular(k: nat, n: nat)
    ensures
        be16(k + n % 0x1_0000) == be16(k + n),
{
}

/// Appends all of `bytes` to `out`.
pub fn append(out: &mut Vec<u8>, bytes: &[u8])
    ensures
        final(out)@ == old(out)@ + bytes@,
{
    out.extend_from_slice(bytes);
    proof {
        assert(out@ =~= old(out)@ + bytes@);
    }
}

/// Appends the low sixteen bits of `n`, most significant byte first.
pub fn push_be16(out: &mut Vec<u8>, n: usize)
    ensures
        final(out)@ == old(out)@ + be16(n as nat),
{
    out.push(((n / 256) % 256) as u8);
    out.push((n % 256) as u8);
    proof {
        assert(out@ =~= old(out)@ + be16(n as nat));
    }
}

/// The number that two bytes stand for, most significant byte first.
pub fn read_be16(hi: u8, lo: u8) -> (n: u16)
    ensures
        n == be16_value(hi, lo),
{
    hi as u16 * 256 + lo as u16
}

/// `n` as four bytes, most significant byte first.
pub fn be32_bytes(n: u32) -> (b: [u8; 4])
    ensures
        b@ == be32(n),
{
    let b: [u8; 4] = [
        (n / 0x100_0000) as u8,
        ((n / 0x1_0000) % 256) as u8,
        ((n / 0x100) % 256) as u8,
        (n % 256) as u8,
    ];
    proof {
        assert(b@ =~= be32(n));
    }
    b
}

/// The number that four bytes stand for, most significant byte first.
pub fn read_be32(b: &[u8]) -> (n: u32)
    requires
        b@.len() >= 4,
    ensures
        n == be32_value(b@),
{
    b[0] as u32 * 0x100_0000 + b[1] as u32 * 0x1_0000 + b[2] as u32 * 0x100 + b[3] as u32
}

/// What a list of byte strings is.
pub open spec fn strings_view(v: Seq<Vec<u8>>) -> Seq<Seq<u8>> {
    v.map_values(|b: Vec<u8>| b@)
}

/// Two bytes stand for a number by their place: the first counts 256 times.
/// Only the low sixteen bits of a number are written.
pub proof fn law_be16_is_positional(n: nat, hi: u8, lo: u8)
    ensures
        be16(n).len() == 2,
        be16(n)[0] as int * 256 + be16(n)[1] as int == n % 0x1_0000,
        be16_value(hi, lo) == hi as int * 256 + lo as int,
{
}

/// Four bytes stand for a number by their place, the first counting most.
pub proof fn law_be32_is_positional(n: u32, b: Seq<u8>)
    requires
        b.len() >= 4,
    ensures
        be32(n).len() == 4,
        be32(n)[0] as int * 0x100_0000 + be32(n)[1] as int * 0x1_0000 + be32(n)[2] as int * 0x100
            + be32(n)[3] as int == n,
        be32_value(b) as int == b[0] as int * 0x100_0000 + b[1] as int * 0x1_0000 + b[2] as int
            * 0x100 + b[3] as int,
{
}

} // verus!
