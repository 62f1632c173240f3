//! The outermost PPP frame: an Address and Control prefix, a two-byte protocol
//! number and the payload of that protocol. The prefix is always sent, and is
//! taken off where a peer sent it.

use crate::wire;
use vstd::prelude::*;

verus! {

/// First byte of the prefix of a frame.
pub const ADDRESS: u8 = 0xFF;

/// Second byte of the prefix of a frame.
pub const CONTROL: u8 = 0x03;

/// The PPP protocols that this client tells apart.
#[derive(Debug, Clone, Copy, PartialEq, Eq, Structural)]
pub enum Protocol {
    Ip,
    Lcp,
    Pap,
    Chap,
    Ipcp,
    Unknown(u16),
}

impl Protocol {
    /// The number of this protocol.
    pub open spec fn code(self) -> u16 {
        match self {
            Protocol::Ip => 0x0021,
            Protocol::Lcp => 0xC021,
            Protocol::Pap => 0xC023,
            Protocol::Chap => 0xC223,
            Protocol::Ipcp => 0x8021,
            Protocol::Unknown(v) => v,
        }
    }

    /// The protocol that a number stands for.
    pub open spec fn of_code(v: u16) -> Protocol {
        if v == 0x0021 {
            Protocol::Ip
        } else if v == 0xC021 {
            Protocol::Lcp
        } else if v == 0xC023 {
            Protocol::Pap
        } else if v == 0xC223 {
            Protocol::Chap
        } else if v == 0x8021 {
            Protocol::Ipcp
        } else {
            Protocol::Unknown(v)
        }
    }

    /// The number of this protocol.
    pub fn to_u16(self) -> (v: u16)
        ensures
            v == self.code(),
    {
        match self {
            Protocol::Ip => 0x0021,
            Protocol::Lcp => 0xC021,
            Protocol::Pap => 0xC023,
            Protocol::Chap => 0xC223,
            Protocol::Ipcp => 0x8021,
            Protocol::Unknown(v) => v,
        }
    }

    /// The protocol that a number stands for.
    pub fn from_u16(v: u16) -> (p: Protocol)
        ensures
            p == Protocol::of_code(v),
    {
        match v {
            0x0021 => Protocol::Ip,
            0xC021 => Protocol::Lcp,
            0xC023 => Protocol::Pap,
            0xC223 => Protocol::Chap,
            0x8021 => Protocol::Ipcp,
            other => Protocol::Unknown(other),
        }
    }
}

/// Whether a frame starts with the Address and Control prefix.
pub open spec fn is_prefixed(frame: Seq<u8>) -> bool {
    frame.len() >= 2 && frame[0] == ADDRESS && frame[1] == CONTROL
}

/// A frame from its protocol number on.
pub open spec fn stripped(frame: Seq<u8>) -> Seq<u8> {
    if is_prefixed(frame) {
        frame.skip(2)
    } else {
        frame
    }
}

/// The wire form of a frame.
pub open spec fn frame_wire(protocol: Protocol, payload: Seq<u8>) -> Seq<u8> {
    seq![ADDRESS, CONTROL] + wire::be16(protocol.code() as nat) + payload
}

/// The protocol and the payload of a frame, where it is long enough for one.
pub open spec fn frame_read(frame: Seq<u8>) -> Option<(Protocol, Seq<u8>)> {
    let f = stripped(frame);
    if f.len() < 2 {
        None
    } else {
        Some((Protocol::of_code(wire::be16_value(f[0], f[1]) as u16), f.skip(2)))
    }
}

/// Takes the Address and Control prefix off a frame that has one.
pub fn strip_address_control(frame: &[u8]) -> (r: &[u8])
    ensures
        r@ == stripped(frame@),
{
    if frame.len() >= 2 && frame[0] == ADDRESS && frame[1] == CONTROL {
        let r = &frame[2..frame.len()];
        proof {
            assert(r@ =~= frame@.skip(2));
        }
        r
    } else {
        frame
    }
}

/// Encodes a frame, with the Address and Control prefix.
pub fn encode(protocol: Protocol, payload: &[u8]) -> (out: Vec<u8>)
    ensures
        out@ == frame_wire(protocol, payload@),
{
    let mut out: Vec<u8> = Vec::new();
    out.push(ADDRESS);
    out.push(CONTROL);
    wire::push_be16(&mut out, protocol.to_u16() as usize);
    wire::append(&mut out, payload);
    proof {
        assert(out@ =~= frame_wire(protocol, payload@));
    }
    out
}

/// Splits a frame into its protocol and its payload.
pub fn decode(frame: &[u8]) -> (r: Option<(Protocol, &[u8])>)
    ensures
        match (r, frame_read(frame@)) {
            (Some(x), Some(v)) => x.0 == v.0 && x.1@ == v.1,
            (None, None) => true,
            _ => false,
        },
{
    let f = strip_address_control(frame);
    if f.len() < 2 {
        return None;
    }
    let proto = Protocol::from_u16(wire::read_be16(f[0], f[1]));
    let payload = &f[2..f.len()];
    proof {
        assert(payload@ =~= f@.skip(2));
    }
    Some((proto, payload))
}

/// A frame decodes to the protocol and the payload it was made from; a number
/// that has a name comes back under its name.
pub proof fn law_frame_round_trip(protocol: Protocol, payload: Seq<u8>)
    ensures
        frame_read(frame_wire(protocol, payload)) == Some(
            (Protocol::of_code(protocol.code()), payload),
        ),
{
    let f = frame_wire(protocol, payload);
    wire::law_be16_round_trip(protocol.code() as nat);
    assert(f.skip(2).skip(2) =~= payload);
    assert(f.skip(2)[0] == f[2] && f.skip(2)[1] == f[3]);
}

/// A peer may leave the prefix out: a frame reads the same without it, unless
/// what is left starts like the prefix.
pub proof fn law_prefix_is_optional(frame: Seq<u8>)
    requires
        !is_prefixed(frame),
    ensures
        frame_read(seq![ADDRESS, CONTROL] + frame) == frame_read(frame),
        stripped(seq![ADDRESS, CONTROL] + frame) == stripped(frame),
{
    assert((seq![ADDRESS, CONTROL] + frame).skip(2) =~= frame);
}

/// Every protocol number survives being read and written again.
pub proof fn law_protocol_numbers_survive(v: u16)
    ensures
        Protocol::of_code(v).code() == v,
{
}

/// The number of each protocol, and of no other.
pub proof fn law_protocols_have_their_numbers(v: u16)
    ensures
        Protocol::of_code(v) == Protocol::Ip <==> v == 0x0021,
        Protocol::of_code(v) == Protocol::Lcp <==> v == 0xc021,
        Protocol::of_code(v) == Protocol::Pap <==> v == 0xc023,
        Protocol::of_code(v) == Protocol::Chap <==> v == 0xc223,
        Protocol::of_code(v) == Protocol::Ipcp <==> v == 0x8021,
        Protocol::of_code(v) is Unknown ==> Protocol::of_code(v) == Protocol::Unknown(v),
        Protocol::Ip.code() == 0x0021,
        Protocol::Lcp.code() == 0xc021,
        Protocol::Pap.code() == 0xc023,
        Protocol::Chap.code() == 0xc223,
        Protocol::Ipcp.code() == 0x8021,
        Protocol::Unknown(v).code() == v,
{
}

/// A frame on the wire: FF 03, the protocol number with its high byte first,
/// and then the payload, whatever its length.
pub proof fn law_frame_layout(protocol: Protocol, payload: Seq<u8>)
    ensures
        ({
            let w = frame_wire(protocol, payload);
            &&& w.len() == 4 + payload.len()
            &&& w[0] == 0xff
            &&& w[1] == 0x03
            &&& w[2] as int * 256 + w[3] as int == protocol.code()
            &&& w.skip(4) == payload
        }),
{
    let w = frame_wire(protocol, payload);
    wire::law_be16_is_positional(protocol.code() as nat, 0, 0);
    assert(w.skip(4) =~= payload);
}

/// How every frame is read. What stands before the protocol number is FF 03 or
/// nothing; the first two bytes from there on are the number, and all that
/// follows is the payload. A frame too short for a number has none.
pub proof fn law_every_frame_is_read(frame: Seq<u8>)
    ensures
        ({
            let start: int = if frame.len() >= 2 && frame[0] == 0xff && frame[1] == 0x03 {
                2
            } else {
                0
            };
            &&& stripped(frame) == frame.skip(start)
            &&& frame_read(frame) is None <==> frame.len() < start + 2
            &&& frame_read(frame) matches Some((proto, payload)) ==> {
                &&& proto.code() as int == frame[start] as int * 256 + frame[start + 1] as int
                &&& proto == Protocol::of_code(proto.code())
                &&& payload == frame.skip(start + 2)
            }
        }),
{
    let start: int = if frame.len() >= 2 && frame[0] == 0xff && frame[1] == 0x03 {
        2
    } else {
        0
    };
    assert(stripped(frame) =~= frame.skip(start));
    if frame.len() >= start + 2 {
        wire::law_be16_is_positional(0, frame[start], frame[start + 1]);
        assert(frame.skip(start).skip(2) =~= frame.skip(start + 2));
    }
}

} // verus!
