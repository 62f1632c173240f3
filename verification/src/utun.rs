//! What surrounds packets on a `utun` interface, and the values that open and
//! configure one.

use crate::addr::Ipv4Addr;
use crate::text;
use crate::wire;
use vstd::prelude::*;
use vstd::utf8::{decode_utf8, encode_utf8, valid_utf8};

verus! {

/// What precedes every IPv4 packet on the interface: the address family, most
/// significant byte first.
pub const IPV4_FAMILY_HEADER: [u8; 4] = [0, 0, 0, 2];

/// The name of the kernel control that makes interfaces.
pub const UTUN_CONTROL_NAME: &'static str = "com.apple.net.utun_control";

/// The length of the structure that asks the kernel for a control by name: a
/// 32-bit number and a name field.
pub const CTL_INFO_LEN: u32 = 100;

/// The length of the name field.
pub const CTL_NAME_LEN: usize = 96;

/// Why an interface could not be opened, with the words of the system.
#[derive(Debug)]
pub enum UtunError {
    Socket(String),
    ControlInfo(String),
    Connect(String),
    GetIfName(String),
}

impl UtunError {
    /// The error in words.
    pub open spec fn text(self) -> Seq<char> {
        match self {
            UtunError::Socket(e) => "failed to open the utun control socket: "@ + e@,
            UtunError::ControlInfo(e) => "CTLIOCGINFO failed (only works on macOS): "@ + e@,
            UtunError::Connect(e) =>
                "connect() to the utun kernel control failed (this needs root): "@ + e@,
            UtunError::GetIfName(e) =>
                "could not read back the assigned utun interface name: "@ + e@,
        }
    }

    /// The error in words.
    pub fn message(&self) -> (s: String)
        ensures
            s@ == self.text(),
    {
        match self {
            UtunError::Socket(e) => text::join2(
                "failed to open the utun control socket: ",
                e.as_str(),
            ),
            UtunError::ControlInfo(e) => text::join2(
                "CTLIOCGINFO failed (only works on macOS): ",
                e.as_str(),
            ),
            UtunError::Connect(e) => text::join2(
                "connect() to the utun kernel control failed (this needs root): ",
                e.as_str(),
            ),
            UtunError::GetIfName(e) => text::join2(
                "could not read back the assigned utun interface name: ",
                e.as_str(),
            ),
        }
    }
}

/// The request code that reads and writes a structure of `len` bytes: two
/// direction bits, thirteen bits of length, the group and the number.
pub open spec fn read_write_code(group: u8, number: u8, len: u32) -> u32 {
    (0xC000_0000 + (len % 0x2000) * 0x1_0000 + group * 0x100 + number) as u32
}

/// The request code that reads and writes a structure of `len` bytes.
pub fn iowr(group: u8, number: u8, len: u32) -> (r: u32)
    ensures
        r == read_write_code(group, number, len),
{
    0xC000_0000 + (len % 0x2000) * 0x1_0000 + group as u32 * 0x100 + number as u32
}

/// The request code that asks the kernel for a control by name.
pub fn ctliocginfo() -> (r: u64)
    ensures
        r == read_write_code(78, 3, CTL_INFO_LEN),
        r == 0xc064_4e03,
{
    iowr(78, 3, CTL_INFO_LEN) as u64
}

/// The name field of the request: the name, and zeros behind it.
pub open spec fn control_name_field() -> Seq<u8> {
    encode_utf8(UTUN_CONTROL_NAME@) + crate::crypto::zeros(
        (CTL_NAME_LEN - encode_utf8(UTUN_CONTROL_NAME@).len()) as nat,
    )
}

/// The name field of the request: the name, and zeros behind it.
pub fn control_name() -> (r: [u8; 96])
    ensures
        r@ == control_name_field(),
{
    let name = UTUN_CONTROL_NAME.as_bytes();
    proof {
        reveal_strlit("com.apple.net.utun_control");
        assert(vstd::utf8::is_ascii_chars(UTUN_CONTROL_NAME@));
        vstd::utf8::is_ascii_chars_encode_utf8(UTUN_CONTROL_NAME@);
    }
    let mut r: [u8; 96] = [0u8; 96];
    let mut i: usize = 0;
    while i < name.len()
        invariant
            i <= name@.len() <= 96,
            name@ == encode_utf8(UTUN_CONTROL_NAME@),
            forall|j: int| 0 <= j < i ==> r@[j] == name@[j],
            forall|j: int| i <= j < 96 ==> r@[j] == 0,
        decreases name@.len() - i,
    {
        r[i] = name[i];
        i += 1;
    }
    proof {
        assert(r@ =~= control_name_field());
    }
    r
}

/// A text without the NUL characters at its end.
pub open spec fn without_nuls(s: Seq<char>) -> Seq<char>
    decreases s.len(),
{
    if s.len() > 0 && s.last() == '\0' {
        without_nuls(s.drop_last())
    } else {
        s
    }
}

/// Takes the NUL characters off the end of a text.
pub fn trim_nuls(s: &str) -> (r: String)
    ensures
        r@ == without_nuls(s@),
{
    let chars = text::to_chars(s);
    let mut n: usize = chars.len();
    proof {
        assert(s@.take(n as int) =~= s@);
    }
    while n > 0 && chars[n - 1] == '\0'
        invariant
            n <= chars@.len(),
            chars@ == s@,
            without_nuls(s@) == without_nuls(s@.take(n as int)),
        decreases n,
    {
        proof {
            assert(s@.take(n as int).drop_last() =~= s@.take(n - 1));
        }
        n -= 1;
    }
    let r = text::from_chars(&chars.as_slice()[0..n]);
    proof {
        assert(r@ =~= s@.take(n as int));
    }
    r
}

/// The name of an interface out of the bytes by which the kernel tells it.
pub fn interface_name(bytes: &[u8]) -> (r: String)
    ensures
        r@ == without_nuls(text::utf8_lossy(bytes@)),
        valid_utf8(bytes@) ==> r@ == without_nuls(decode_utf8(bytes@)),
{
    let s = text::lossy(bytes);
    trim_nuls(s.as_str())
}

/// The arguments that give an interface its addresses and bring it up.
pub open spec fn configure_words(name: Seq<char>, local: Ipv4Addr, peer: Ipv4Addr) -> Seq<
    Seq<char>,
> {
    seq![name, "inet"@, local.dotted(), peer.dotted(), "up"@]
}

/// The arguments that give an interface its addresses and bring it up.
pub fn configure_args(name: &str, local: Ipv4Addr, peer: Ipv4Addr) -> (v: Vec<String>)
    ensures
        text::strs_view(v@) == configure_words(name@, local, peer),
{
    let mut v: Vec<String> = Vec::new();
    v.push(text::owned(name));
    v.push(text::owned("inet"));
    v.push(local.to_text());
    v.push(peer.to_text());
    v.push(text::owned("up"));
    proof {
        assert(text::strs_view(v@) =~= configure_words(name@, local, peer));
    }
    v
}

/// A packet as it is written to the interface.
pub open spec fn framed(ip_packet: Seq<u8>) -> Seq<u8> {
    seq![0u8, 0u8, 0u8, 2u8] + ip_packet
}

/// The packet in what was read from the interface: nothing where there is not
/// even a header.
pub open spec fn unframed(bytes: Seq<u8>) -> Seq<u8> {
    if bytes.len() < 4 {
        Seq::empty()
    } else {
        bytes.skip(4)
    }
}

/// Puts the header before a packet.
pub fn frame_packet(ip_packet: &[u8]) -> (out: Vec<u8>)
    ensures
        out@ == framed(ip_packet@),
{
    let header = IPV4_FAMILY_HEADER;
    let mut out: Vec<u8> = Vec::new();
    out.push(header[0]);
    out.push(header[1]);
    out.push(header[2]);
    out.push(header[3]);
    wire::append(&mut out, ip_packet);
    proof {
        assert(out@ =~= framed(ip_packet@));
    }
    out
}

/// Takes the header off what was read.
pub fn unframe_packet(bytes: &[u8]) -> (r: &[u8])
    ensures
        r@ == unframed(bytes@),
{
    if bytes.len() < 4 {
        let r = &bytes[0..0];
        proof {
            assert(r@ =~= Seq::empty());
        }
        r
    } else {
        let r = &bytes[4..bytes.len()];
        proof {
            assert(r@ =~= bytes@.skip(4));
        }
        r
    }
}

/// A packet comes off the interface as it was written to it.
pub proof fn law_framing_round_trip(ip_packet: Seq<u8>)
    ensures
        unframed(framed(ip_packet)) == ip_packet,
{
    assert(framed(ip_packet).skip(4) =~= ip_packet);
}

/// A packet is written behind the bytes 0 0 0 2, and whatever four bytes stand
/// before a packet that is read are taken off; fewer hold no packet.
pub proof fn law_header_is_four_bytes(head: Seq<u8>, ip_packet: Seq<u8>)
    ensures
        framed(ip_packet) == seq![0u8, 0, 0, 2] + ip_packet,
        head.len() == 4 ==> unframed(head + ip_packet) == ip_packet,
        head.len() < 4 ==> unframed(head).len() == 0,
{
    if head.len() == 4 {
        assert((head + ip_packet).skip(4) =~= ip_packet);
    }
}

/// All NUL characters at the end of a name are taken off, and nothing else.
pub proof fn law_names_lose_their_nuls(name: Seq<char>, n: nat)
    requires
        name.len() > 0 ==> name.last() != '\0',
    ensures
        without_nuls(name + Seq::new(n, |i: int| '\0')) == name,
    decreases n,
{
    let all = name + Seq::new(n, |i: int| '\0');
    if n > 0 {
        let less = (n - 1) as nat;
        assert(all.drop_last() =~= name + Seq::new(less, |i: int| '\0'));
        law_names_lose_their_nuls(name, less);
    } else {
        assert(all =~= name);
    }
}

/// An interface gets this side's address first and the peer's second.
pub proof fn law_interface_gets_both_addresses(name: Seq<char>, local: Ipv4Addr, peer: Ipv4Addr)
    ensures
        configure_words(name, local, peer).len() == 5,
        configure_words(name, local, peer)[0] == name,
        configure_words(name, local, peer)[1] == "inet"@,
        configure_words(name, local, peer)[2] == local.dotted(),
        configure_words(name, local, peer)[3] == peer.dotted(),
        configure_words(name, local, peer)[4] == "up"@,
{
}

/// The parts of a request code can be told from it: both directions, the length
/// below 8192, the group and the number.
pub proof fn law_request_codes_hold_their_parts(group: u8, number: u8, len: u32)
    ensures
        ({
            let r = read_write_code(group, number, len);
            &&& r / 0x4000_0000 == 3
            &&& (r / 0x1_0000) % 0x4000 == len % 0x2000
            &&& (r / 0x100) % 0x100 == group
            &&& r % 0x100 == number
        }),
{
    lemma_parts(group, number, len);
}

proof fn lemma_parts(group: u8, number: u8, len: u32)
    by (bit_vector)
    ensures
        0xC000_0000 + (len % 0x2000) * 0x1_0000 + group * 0x100 + number < 0x1_0000_0000,
        (0xC000_0000 + (len % 0x2000) * 0x1_0000 + group * 0x100 + number) / 0x4000_0000 == 3,
        ((0xC000_0000 + (len % 0x2000) * 0x1_0000 + group * 0x100 + number) / 0x1_0000) % 0x4000
            == len % 0x2000,
        ((0xC000_0000 + (len % 0x2000) * 0x1_0000 + group * 0x100 + number) / 0x100) % 0x100
            == group,
        (0xC000_0000 + (len % 0x2000) * 0x1_0000 + group * 0x100 + number) % 0x100 == number,
{
}

} // verus!
