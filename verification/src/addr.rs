//! IPv4 addresses as plain values.

use crate::text;
use vstd::prelude::*;

verus! {

/// An IPv4 address, by its four octets.
#[derive(Debug, Clone, Copy, PartialEq, Eq, Structural)]
pub struct Ipv4Addr {
    pub a: u8,
    pub b: u8,
    pub c: u8,
    pub d: u8,
}

impl Ipv4Addr {
    /// The four octets in order.
    pub open spec fn bytes(self) -> Seq<u8> {
        seq![self.a, self.b, self.c, self.d]
    }

    /// The address in dotted decimal form.
    pub open spec fn dotted(self) -> Seq<char> {
        text::decimal(self.a as nat) + "."@ + text::decimal(self.b as nat) + "."@ + text::decimal(
            self.c as nat,
        ) + "."@ + text::decimal(self.d as nat)
    }

    /// The address made of four octets.
    pub fn new(a: u8, b: u8, c: u8, d: u8) -> (r: Ipv4Addr)
        ensures
            r.bytes() == seq![a, b, c, d],
            r == (Ipv4Addr { a, b, c, d }),
    {
        Ipv4Addr { a, b, c, d }
    }

    /// The address 0.0.0.0, which asks a peer to assign one.
    pub fn unspecified() -> (r: Ipv4Addr)
        ensures
            r == (Ipv4Addr { a: 0, b: 0, c: 0, d: 0 }),
    {
        Ipv4Addr { a: 0, b: 0, c: 0, d: 0 }
    }

    /// The four octets in order.
    pub fn octets(&self) -> (r: [u8; 4])
        ensures
            r@ == self.bytes(),
    {
        let r: [u8; 4] = [self.a, self.b, self.c, self.d];
        proof {
            assert(r@ =~= self.bytes());
        }
        r
    }

    /// Appends the address in dotted decimal form to `out`.
    pub fn push_dotted(&self, out: &mut String)
        ensures
            final(out)@ == old(out)@ + self.dotted(),
    {
        text::push_decimal(out, self.a as u64);
        text::push_str(out, ".");
        text::push_decimal(out, self.b as u64);
        text::push_str(out, ".");
        text::push_decimal(out, self.c as u64);
        text::push_str(out, ".");
        text::push_decimal(out, self.d as u64);
        proof {
            assert(out@ =~= old(out)@ + self.dotted());
        }
    }

    /// The address in dotted decimal form.
    pub fn to_text(&self) -> (s: String)
        ensures
            s@ == self.dotted(),
    {
        let mut s = String::new();
        self.push_dotted(&mut s);
        proof {
            assert(s@ =~= self.dotted());
        }
        s
    }
}

/// An address is its octets in order, both as bytes and as decimal numbers with
/// points between them.
pub proof fn law_octets_keep_their_order(x: Ipv4Addr)
    ensures
        x.bytes().len() == 4,
        x.bytes()[0] == x.a && x.bytes()[1] == x.b && x.bytes()[2] == x.c && x.bytes()[3] == x.d,
        x.dotted() == text::decimal(x.a as nat).push('.') + text::decimal(x.b as nat).push('.')
            + text::decimal(x.c as nat).push('.') + text::decimal(x.d as nat),
{
    reveal_strlit(".");
    assert(x.dotted() =~= text::decimal(x.a as nat).push('.') + text::decimal(x.b as nat).push('.')
        + text::decimal(x.c as nat).push('.') + text::decimal(x.d as nat));
}

} // verus!
