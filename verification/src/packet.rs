//! SSTP wire framing: the four-byte packet header, the control header and the
//! attributes of a control message. The payload of a data packet is a raw PPP
//! frame.

use crate::text;
use crate::wire;
use vstd::prelude::*;

verus! {

/// The SSTP protocol version that every packet carries.
pub const PROTO_VERSION: u8 = 0x10;

/// Set in the flags byte of a control packet, clear in that of a data packet.
pub const FLAG_CTRL: u8 = 0x01;

/// Length of the header of every packet.
pub const PKT_HEADER_LEN: usize = 4;

/// Length of the second header, which only control packets have.
pub const CTRL_HEADER_LEN: usize = 4;

/// Length of the header of an attribute.
pub const ATTR_HEADER_LEN: usize = 4;

/// The type of a control message.
#[derive(Debug, Clone, Copy, PartialEq, Eq, Structural)]
pub enum MsgType {
    ConnectRequest,
    ConnectAck,
    ConnectNak,
    Connected,
    Abort,
    Disconnect,
    DisconnectAck,
    EchoRequest,
    EchoReply,
    /// A number without a meaning here, kept so that it can be logged.
    Unknown(u16),
}

impl MsgType {
    /// The number that stands for this type on the wire.
    pub open spec fn code(self) -> u16 {
        match self {
            MsgType::ConnectRequest => 1,
            MsgType::ConnectAck => 2,
            MsgType::ConnectNak => 3,
            MsgType::Connected => 4,
            MsgType::Abort => 5,
            MsgType::Disconnect => 6,
            MsgType::DisconnectAck => 7,
            MsgType::EchoRequest => 8,
            MsgType::EchoReply => 9,
            MsgType::Unknown(v) => v,
        }
    }

    /// The type that a number on the wire stands for.
    pub open spec fn of_code(v: u16) -> MsgType {
        if v == 1 {
            MsgType::ConnectRequest
        } else if v == 2 {
            MsgType::ConnectAck
        } else if v == 3 {
            MsgType::ConnectNak
        } else if v == 4 {
            MsgType::Connected
        } else if v == 5 {
            MsgType::Abort
        } else if v == 6 {
            MsgType::Disconnect
        } else if v == 7 {
            MsgType::DisconnectAck
        } else if v == 8 {
            MsgType::EchoRequest
        } else if v == 9 {
            MsgType::EchoReply
        } else {
            MsgType::Unknown(v)
        }
    }

    /// The number that stands for this type on the wire.
    pub fn to_u16(self) -> (v: u16)
        ensures
            v == self.code(),
    {
        match self {
            MsgType::ConnectRequest => 0x0001,
            MsgType::ConnectAck => 0x0002,
            MsgType::ConnectNak => 0x0003,
            MsgType::Connected => 0x0004,
            MsgType::Abort => 0x0005,
            MsgType::Disconnect => 0x0006,
            MsgType::DisconnectAck => 0x0007,
            MsgType::EchoRequest => 0x0008,
            MsgType::EchoReply => 0x0009,
            MsgType::Unknown(v) => v,
        }
    }

    /// The type that a number on the wire stands for.
    pub fn from_u16(v: u16) -> (t: MsgType)
        ensures
            t == MsgType::of_code(v),
    {
        match v {
            0x0001 => MsgType::ConnectRequest,
            0x0002 => MsgType::ConnectAck,
            0x0003 => MsgType::ConnectNak,
            0x0004 => MsgType::Connected,
            0x0005 => MsgType::Abort,
            0x0006 => MsgType::Disconnect,
            0x0007 => MsgType::DisconnectAck,
            0x0008 => MsgType::EchoRequest,
            0x0009 => MsgType::EchoReply,
            other => MsgType::Unknown(other),
        }
    }
}

/// The type of an attribute of a control message.
#[derive(Debug, Clone, Copy, PartialEq, Eq, Structural)]
pub enum AttrType {
    NoError,
    EncapProtocol,
    StatusInfo,
    CryptoBind,
    CryptoBindRequest,
    Unknown(u8),
}

impl AttrType {
    /// The number that stands for this type on the wire.
    pub open spec fn code(self) -> u8 {
        match self {
            AttrType::NoError => 0,
            AttrType::EncapProtocol => 1,
            AttrType::StatusInfo => 2,
            AttrType::CryptoBind => 3,
            AttrType::CryptoBindRequest => 4,
            AttrType::Unknown(v) => v,
        }
    }

    /// The type that a number on the wire stands for.
    pub open spec fn of_code(v: u8) -> AttrType {
        if v == 0 {
            AttrType::NoError
        } else if v == 1 {
            AttrType::EncapProtocol
        } else if v == 2 {
            AttrType::StatusInfo
        } else if v == 3 {
            AttrType::CryptoBind
        } else if v == 4 {
            AttrType::CryptoBindRequest
        } else {
            AttrType::Unknown(v)
        }
    }

    /// The number that stands for this type on the wire.
    pub fn to_u8(self) -> (v: u8)
        ensures
            v == self.code(),
    {
        match self {
            AttrType::NoError => 0x00,
            AttrType::EncapProtocol => 0x01,
            AttrType::StatusInfo => 0x02,
            AttrType::CryptoBind => 0x03,
            AttrType::CryptoBindRequest => 0x04,
            AttrType::Unknown(v) => v,
        }
    }

    /// The type that a number on the wire stands for.
    pub fn from_u8(v: u8) -> (t: AttrType)
        ensures
            t == AttrType::of_code(v),
    {
        match v {
            0x00 => AttrType::NoError,
            0x01 => AttrType::EncapProtocol,
            0x02 => AttrType::StatusInfo,
            0x03 => AttrType::CryptoBind,
            0x04 => AttrType::CryptoBindRequest,
            other => AttrType::Unknown(other),
        }
    }
}

/// An attribute: its type, and its bytes without the attribute header.
#[derive(Debug, Clone, PartialEq, Eq)]
pub struct Attr {
    pub attr_type: AttrType,
    pub data: Vec<u8>,
}

/// What an attribute is: its type, and the sequence of its bytes.
#[verifier::ext_equal]
pub struct AttrView {
    pub attr_type: AttrType,
    pub data: Seq<u8>,
}

impl View for Attr {
    type V = AttrView;

    open spec fn view(&self) -> AttrView {
        AttrView { attr_type: self.attr_type, data: self.data@ }
    }
}

/// What a list of attributes is.
pub open spec fn attrs_view(attrs: Seq<Attr>) -> Seq<AttrView> {
    attrs.map_values(|a: Attr| a@)
}

/// What a list of types and byte slices is, read as attributes.
pub open spec fn pairs_view(attrs: Seq<(AttrType, &[u8])>) -> Seq<AttrView> {
    attrs.map_values(|a: (AttrType, &[u8])| AttrView { attr_type: a.0, data: a.1@ })
}

/// A decoded packet.
#[derive(Debug, Clone, PartialEq, Eq)]
pub enum Packet {
    /// A data message; the payload is a raw PPP frame.
    Data(Vec<u8>),
    /// A control message with its attributes.
    Ctrl { msg_type: MsgType, attrs: Vec<Attr> },
}

/// What a packet is.
#[verifier::ext_equal]
pub enum PacketView {
    Data(Seq<u8>),
    Ctrl { msg_type: MsgType, attrs: Seq<AttrView> },
}

impl View for Packet {
    type V = PacketView;

    open spec fn view(&self) -> PacketView {
        match *self {
            Packet::Data(payload) => PacketView::Data(payload@),
            Packet::Ctrl { msg_type, attrs } => PacketView::Ctrl {
                msg_type,
                attrs: attrs_view(attrs@),
            },
        }
    }
}

/// Why bytes could not be read as a packet.
#[derive(Debug, Clone, PartialEq, Eq)]
pub enum DecodeError {
    /// The packet has not fully arrived.
    Incomplete,
    /// The version byte is not [`PROTO_VERSION`].
    BadVersion(u8),
    /// A length disagrees with what it measures.
    Malformed(&'static str),
}

impl DecodeError {
    /// The error in words.
    pub open spec fn text(self) -> Seq<char> {
        match self {
            DecodeError::Incomplete => "incomplete packet"@,
            DecodeError::BadVersion(v) => "unsupported SSTP version 0x"@ + text::hex_byte(v),
            DecodeError::Malformed(why) => "malformed SSTP packet: "@ + why@,
        }
    }

    /// The error in words.
    pub fn message(&self) -> (s: String)
        ensures
            s@ == self.text(),
    {
        let mut s = String::new();
        match self {
            DecodeError::Incomplete => text::push_str(&mut s, "incomplete packet"),
            DecodeError::BadVersion(v) => {
                text::push_str(&mut s, "unsupported SSTP version 0x");
                text::push_hex_byte(&mut s, *v);
            },
            DecodeError::Malformed(why) => {
                text::push_str(&mut s, "malformed SSTP packet: ");
                text::push_str(&mut s, why);
            },
        }
        proof {
            assert(s@ =~= self.text());
        }
        s
    }
}

/// What a status code of a refusal means.
pub open spec fn status_text(code: u32) -> &'static str {
    if code == 0x01 {
        "Received Duplicate Attribute"
    } else if code == 0x02 {
        "Unrecognized Attribute"
    } else if code == 0x03 {
        "Invalid Attribute Length"
    } else if code == 0x04 {
        "Value of attribute is incorrect"
    } else if code == 0x09 {
        "Attribute is invalid or not supported"
    } else if code == 0x0a {
        "Attribute is missing"
    } else if code == 0x0b {
        "Invalid info attribute"
    } else {
        "Unknown Status Attribute"
    }
}

/// What a status code of a refusal means.
pub fn status_reason(code: u32) -> (s: &'static str)
    ensures
        s == status_text(code),
{
    match code {
        0x01 => "Received Duplicate Attribute",
        0x02 => "Unrecognized Attribute",
        0x03 => "Invalid Attribute Length",
        0x04 => "Value of attribute is incorrect",
        0x09 => "Attribute is invalid or not supported",
        0x0a => "Attribute is missing",
        0x0b => "Invalid info attribute",
        _ => "Unknown Status Attribute",
    }
}

/// The bytes of the first attribute of type `t`.
pub open spec fn first_of_type(attrs: Seq<AttrView>, t: AttrType) -> Option<Seq<u8>>
    decreases attrs.len(),
{
    if attrs.len() == 0 {
        None
    } else if attrs[0].attr_type == t {
        Some(attrs[0].data)
    } else {
        first_of_type(attrs.drop_first(), t)
    }
}

/// Finds the bytes of the first attribute of type `t`.
pub fn find_attr(attrs: &[Attr], t: AttrType) -> (r: Option<&Vec<u8>>)
    ensures
        match r {
            Some(d) => first_of_type(attrs_view(attrs@), t) == Some(d@),
            None => first_of_type(attrs_view(attrs@), t) is None,
        },
{
    let ghost all = attrs_view(attrs@);
    let mut i: usize = 0;
    proof {
        assert(all.skip(0) =~= all);
    }
    while i < attrs.len()
        invariant
            i <= attrs@.len(),
            all == attrs_view(attrs@),
            first_of_type(all, t) == first_of_type(all.skip(i as int), t),
        decreases attrs@.len() - i,
    {
        proof {
            assert(all.skip(i as int)[0] == attrs@[i as int]@);
            assert(all.skip(i as int).drop_first() =~= all.skip(i + 1));
        }
        if attrs[i].attr_type == t {
            return Some(&attrs[i].data);
        }
        i += 1;
    }
    None
}

/// The sentence for the bytes of a status attribute: three reserved bytes, the
/// number of the attribute it refers to, and a big-endian status code.
pub open spec fn status_sentence(data: Seq<u8>) -> Seq<char> {
    if data.len() < 8 {
        "malformed status-info attribute: "@ + text::hex_list(data)
    } else {
        let code = wire::be32_value(data.subrange(4, 8));
        status_text(code)@ + " (code "@ + text::decimal(code as nat) + ", attribute "@
            + text::decimal(data[3] as nat) + ")"@
    }
}

/// Says why the peer refused, where the message carries a status attribute.
pub fn describe_status(attrs: &[Attr]) -> (r: Option<String>)
    ensures
        match first_of_type(attrs_view(attrs@), AttrType::StatusInfo) {
            None => r is None,
            Some(data) => r matches Some(s) && s@ == status_sentence(data),
        },
{
    let data = match find_attr(attrs, AttrType::StatusInfo) {
        Some(d) => d,
        None => return None,
    };
    let mut s = String::new();
    if data.len() < 8 {
        text::push_str(&mut s, "malformed status-info attribute: ");
        text::push_hex_list(&mut s, data.as_slice());
    } else {
        let referenced: u8 = data[3];
        let code: u32 = wire::read_be32(&data.as_slice()[4..8]);
        text::push_str(&mut s, status_reason(code));
        text::push_str(&mut s, " (code ");
        text::push_decimal(&mut s, code as u64);
        text::push_str(&mut s, ", attribute ");
        text::push_decimal(&mut s, referenced as u64);
        text::push_str(&mut s, ")");
    }
    proof {
        assert(s@ =~= status_sentence(data@));
    }
    Some(s)
}

/// The wire form of a packet header; the length counts the header too.
pub open spec fn header_wire(flags: u8, length: nat) -> Seq<u8> {
    seq![PROTO_VERSION, flags] + wire::be16(length)
}

/// The wire form of a data packet.
pub open spec fn data_wire(frame: Seq<u8>) -> Seq<u8> {
    header_wire(0, 4 + frame.len()) + frame
}

/// The wire form of an attribute; the length counts the attribute header too.
pub open spec fn attr_wire(a: AttrView) -> Seq<u8> {
    seq![0u8, a.attr_type.code()] + wire::be16(4 + a.data.len()) + a.data
}

/// The wire form of a list of attributes, one behind the other.
pub open spec fn attrs_wire(attrs: Seq<AttrView>) -> Seq<u8>
    decreases attrs.len(),
{
    if attrs.len() == 0 {
        Seq::empty()
    } else {
        attr_wire(attrs[0]) + attrs_wire(attrs.drop_first())
    }
}

/// The wire form of a control packet.
pub open spec fn ctrl_wire(msg_type: MsgType, attrs: Seq<AttrView>) -> Seq<u8> {
    header_wire(FLAG_CTRL, 8 + attrs_wire(attrs).len()) + wire::be16(msg_type.code() as nat)
        + wire::be16(attrs.len()) + attrs_wire(attrs)
}

/// Reads `count` attributes off the front of `body`; each must fit in it.
pub open spec fn attrs_read(body: Seq<u8>, count: nat) -> Result<Seq<AttrView>, DecodeError>
    decreases count,
{
    if count == 0 {
        Ok(Seq::empty())
    } else if body.len() < 4 {
        Err(DecodeError::Malformed("attribute header runs past packet end"))
    } else {
        let len = wire::be16_value(body[2], body[3]);
        if len < 4 || len > body.len() {
            Err(DecodeError::Malformed("attribute length invalid or runs past packet end"))
        } else {
            let first = AttrView {
                attr_type: AttrType::of_code(body[1]),
                data: body.subrange(4, len as int),
            };
            match attrs_read(body.skip(len as int), (count - 1) as nat) {
                Ok(rest) => Ok(seq![first] + rest),
                Err(e) => Err(e),
            }
        }
    }
}

/// The length that the header of a packet claims.
pub open spec fn claimed_len(buf: Seq<u8>) -> nat {
    wire::be16_value(buf[2], buf[3])
}

/// What the bytes at the front of `buf` say.
pub open spec fn packet_read(buf: Seq<u8>) -> Result<PacketView, DecodeError> {
    if buf.len() < 4 {
        Err(DecodeError::Incomplete)
    } else if buf[0] != PROTO_VERSION {
        Err(DecodeError::BadVersion(buf[0]))
    } else if claimed_len(buf) < 4 {
        Err(DecodeError::Malformed("header length smaller than header itself"))
    } else if buf.len() < claimed_len(buf) {
        Err(DecodeError::Incomplete)
    } else if buf[1] % 2 == 0 {
        Ok(PacketView::Data(buf.subrange(4, claimed_len(buf) as int)))
    } else if claimed_len(buf) < 8 {
        Err(DecodeError::Malformed("control packet shorter than control header"))
    } else {
        match attrs_read(
            buf.subrange(8, claimed_len(buf) as int),
            wire::be16_value(buf[6], buf[7]),
        ) {
            Ok(attrs) => Ok(
                PacketView::Ctrl {
                    msg_type: MsgType::of_code(wire::be16_value(buf[4], buf[5]) as u16),
                    attrs,
                },
            ),
            Err(e) => Err(e),
        }
    }
}

/// Whether an outcome of reading a packet is the one that is meant.
pub open spec fn outcome_is(
    r: Result<Packet, DecodeError>,
    meant: Result<PacketView, DecodeError>,
) -> bool {
    match (r, meant) {
        (Ok(p), Ok(v)) => p@ == v,
        (Err(e), Err(f)) => e == f,
        _ => false,
    }
}

/// Encodes a data packet around a PPP frame.
pub fn encode_data(ppp_frame: &[u8]) -> (out: Vec<u8>)
    ensures
        out@ == data_wire(ppp_frame@),
{
    let mut out: Vec<u8> = Vec::new();
    out.push(PROTO_VERSION);
    out.push(0);
    wire::push_be16(&mut out, PKT_HEADER_LEN + ppp_frame.len() % 0x1_0000);
    wire::append(&mut out, ppp_frame);
    proof {
        wire::lemma_be16_is_modular(4, ppp_frame@.len());
        assert(out@ =~= data_wire(ppp_frame@));
    }
    out
}

/// Encodes a control packet with the given attributes.
pub fn encode_ctrl(msg_type: MsgType, attrs: &[(AttrType, &[u8])]) -> (out: Vec<u8>)
    ensures
        out@ == ctrl_wire(msg_type, pairs_view(attrs@)),
{
    let ghost all = pairs_view(attrs@);
    let mut body: Vec<u8> = Vec::new();
    let mut i: usize = 0;
    proof {
        assert(all.skip(0) =~= all);
        assert(body@ + attrs_wire(all) =~= attrs_wire(all));
    }
    while i < attrs.len()
        invariant
            i <= attrs@.len(),
            all == pairs_view(attrs@),
            body@ + attrs_wire(all.skip(i as int)) == attrs_wire(all),
        decreases attrs@.len() - i,
    {
        let ghost before = body@;
        let attr_type = attrs[i].0;
        let data = attrs[i].1;
        body.push(0);
        body.push(attr_type.to_u8());
        wire::push_be16(&mut body, ATTR_HEADER_LEN + data.len() % 0x1_0000);
        wire::append(&mut body, data);
        proof {
            wire::lemma_be16_is_modular(4, data@.len());
            let rest = all.skip(i as int);
            assert(rest[0] == all[i as int]);
            assert(rest.drop_first() =~= all.skip(i + 1));
            assert(body@ =~= before + attr_wire(all[i as int]));
            assert(body@ + attrs_wire(all.skip(i + 1)) =~= before + attrs_wire(rest));
        }
        i += 1;
    }
    proof {
        assert(all.skip(i as int).len() == 0);
        assert(body@ =~= attrs_wire(all));
    }
    let mut out: Vec<u8> = Vec::new();
    out.push(PROTO_VERSION);
    out.push(FLAG_CTRL);
    wire::push_be16(&mut out, PKT_HEADER_LEN + CTRL_HEADER_LEN + body.len() % 0x1_0000);
    wire::push_be16(&mut out, msg_type.to_u16() as usize);
    wire::push_be16(&mut out, attrs.len());
    wire::append(&mut out, body.as_slice());
    proof {
        wire::lemma_be16_is_modular(8, body@.len());
        assert(out@ =~= ctrl_wire(msg_type, all));
    }
    out
}

/// Decodes `count` attributes off the front of `body`.
fn decode_attrs(body: &[u8], count: u16) -> (r: Result<Vec<Attr>, DecodeError>)
    ensures
        match (r, attrs_read(body@, count as nat)) {
            (Ok(attrs), Ok(v)) => attrs_view(attrs@) == v,
            (Err(e), Err(f)) => e == f,
            _ => false,
        },
{
    let mut attrs: Vec<Attr> = Vec::new();
    let mut pos: usize = 0;
    let mut left: u16 = count;
    proof {
        assert(body@.skip(0) =~= body@);
        if let Ok(rest) = attrs_read(body@, count as nat) {
            assert(attrs_view(attrs@) + rest =~= rest);
        }
    }
    while left > 0
        invariant
            pos <= body@.len(),
            match attrs_read(body@.skip(pos as int), left as nat) {
                Ok(rest) => attrs_read(body@, count as nat) == Ok::<Seq<AttrView>, DecodeError>(
                    attrs_view(attrs@) + rest,
                ),
                Err(e) => attrs_read(body@, count as nat) == Err::<Seq<AttrView>, DecodeError>(e),
            },
        decreases left,
    {
        let ghost here = body@.skip(pos as int);
        let ghost before = attrs_view(attrs@);
        if body.len() - pos < ATTR_HEADER_LEN {
            return Err(DecodeError::Malformed("attribute header runs past packet end"));
        }
        let attr_type = AttrType::from_u8(body[pos + 1]);
        let attr_len: usize = wire::read_be16(body[pos + 2], body[pos + 3]) as usize;
        if attr_len < ATTR_HEADER_LEN || attr_len > body.len() - pos {
            return Err(DecodeError::Malformed("attribute length invalid or runs past packet end"));
        }
        let data = vstd::slice::slice_to_vec(&body[pos + ATTR_HEADER_LEN..pos + attr_len]);
        let attr = Attr { attr_type, data };
        proof {
            assert(here.subrange(4, attr_len as int) =~= attr.data@);
            assert(here.skip(attr_len as int) =~= body@.skip(pos + attr_len));
            assert(attrs_view(attrs@.push(attr)) =~= before + seq![attr@]);
            if let Ok(rest) = attrs_read(here.skip(attr_len as int), (left - 1) as nat) {
                assert(before + (seq![attr@] + rest) =~= (before + seq![attr@]) + rest);
            }
        }
        attrs.push(attr);
        pos += attr_len;
        left -= 1;
    }
    proof {
        assert(attrs_view(attrs@) + Seq::<AttrView>::empty() =~= attrs_view(attrs@));
    }
    Ok(attrs)
}

/// Decodes the packet at the front of `buf`.
pub fn decode(buf: &[u8]) -> (r: Result<Packet, DecodeError>)
    ensures
        outcome_is(r, packet_read(buf@)),
{
    if buf.len() < PKT_HEADER_LEN {
        return Err(DecodeError::Incomplete);
    }
    let version: u8 = buf[0];
    if version != PROTO_VERSION {
        return Err(DecodeError::BadVersion(version));
    }
    let flags: u8 = buf[1];
    let length: usize = wire::read_be16(buf[2], buf[3]) as usize;
    if length < PKT_HEADER_LEN {
        return Err(DecodeError::Malformed("header length smaller than header itself"));
    }
    if buf.len() < length {
        return Err(DecodeError::Incomplete);
    }
    assert(flags & 1u8 == flags % 2) by (bit_vector);
    if flags & FLAG_CTRL == 0 {
        return Ok(Packet::Data(vstd::slice::slice_to_vec(&buf[PKT_HEADER_LEN..length])));
    }
    if length < PKT_HEADER_LEN + CTRL_HEADER_LEN {
        return Err(DecodeError::Malformed("control packet shorter than control header"));
    }
    let msg_type = MsgType::from_u16(wire::read_be16(buf[4], buf[5]));
    let nattr: u16 = wire::read_be16(buf[6], buf[7]);
    let attrs = decode_attrs(&buf[PKT_HEADER_LEN + CTRL_HEADER_LEN..length], nattr)?;
    Ok(Packet::Ctrl { msg_type, attrs })
}

/// Gathers the bytes of a stream and yields the packets in it as they become
/// complete. Its view is the bytes that have not been yielded yet.
pub struct PacketReader {
    buf: Vec<u8>,
}

impl View for PacketReader {
    type V = Seq<u8>;

    closed spec fn view(&self) -> Seq<u8> {
        self.buf@
    }
}

impl Default for PacketReader {
    fn default() -> (r: PacketReader)
        ensures
            r@ == Seq::<u8>::empty(),
    {
        PacketReader { buf: Vec::new() }
    }
}

impl PacketReader {
    /// A reader that has seen nothing yet.
    pub fn new() -> (r: PacketReader)
        ensures
            r@ == Seq::<u8>::empty(),
    {
        PacketReader { buf: Vec::new() }
    }

    /// Takes in bytes that have just arrived.
    pub fn push(&mut self, bytes: &[u8])
        ensures
            final(self)@ == old(self)@ + bytes@,
    {
        wire::append(&mut self.buf, bytes);
    }

    /// Takes out the next packet, if it has fully arrived. Bytes that cannot be
    /// a packet stay where they are.
    pub fn next_packet(&mut self) -> (r: Result<Option<Packet>, DecodeError>)
        ensures
            match packet_read(old(self)@) {
                Ok(v) => {
                    &&& r matches Ok(Some(p))
                    &&& p@ == v
                    &&& final(self)@ == old(self)@.skip(claimed_len(old(self)@) as int)
                },
                Err(DecodeError::Incomplete) => {
                    &&& r matches Ok(None)
                    &&& final(self)@ == old(self)@
                },
                Err(e) => {
                    &&& r matches Err(f)
                    &&& f == e
                    &&& final(self)@ == old(self)@
                },
            },
    {
        match decode(self.buf.as_slice()) {
            Ok(pkt) => {
                let consumed: usize = wire::read_be16(self.buf[2], self.buf[3]) as usize;
                let rest = self.buf.split_off(consumed);
                self.buf = rest;
                proof {
                    assert(self@ =~= old(self)@.skip(consumed as int));
                }
                Ok(Some(pkt))
            },
            Err(DecodeError::Incomplete) => Ok(None),
            Err(e) => Err(e),
        }
    }
}

/// A data packet that fits the length field decodes to the frame it was made
/// from, whatever follows it.
pub proof fn law_data_round_trip(frame: Seq<u8>, tail: Seq<u8>)
    requires
        4 + frame.len() <= 0xffff,
    ensures
        packet_read(data_wire(frame) + tail) == Ok::<PacketView, DecodeError>(
            PacketView::Data(frame),
        ),
        claimed_len(data_wire(frame) + tail) == data_wire(frame).len(),
{
    let buf = data_wire(frame) + tail;
    wire::law_be16_round_trip((4 + frame.len()) as nat);
    assert(buf.subrange(4, 4 + frame.len() as int) =~= frame);
}

/// A message type as it comes back off the wire: an unknown number that has a
/// name comes back under its name.
pub open spec fn canonical_msg(t: MsgType) -> MsgType {
    MsgType::of_code(t.code())
}

/// The attributes as they come back off the wire, types under their names.
pub open spec fn canonical_attrs(attrs: Seq<AttrView>) -> Seq<AttrView> {
    attrs.map_values(
        |a: AttrView| AttrView { attr_type: AttrType::of_code(a.attr_type.code()), data: a.data },
    )
}

/// Attributes that fit their length fields decode to themselves, in order,
/// whatever follows them.
pub proof fn law_attrs_round_trip(attrs: Seq<AttrView>, tail: Seq<u8>)
    requires
        forall|i: int| 0 <= i < attrs.len() ==> 4 + (#[trigger] attrs[i]).data.len() <= 0xffff,
    ensures
        attrs_read(attrs_wire(attrs) + tail, attrs.len()) == Ok::<Seq<AttrView>, DecodeError>(
            canonical_attrs(attrs),
        ),
    decreases attrs.len(),
{
    if attrs.len() == 0 {
        assert(canonical_attrs(attrs) =~= Seq::<AttrView>::empty());
    } else {
        let rest = attrs.drop_first();
        let body = attrs_wire(attrs) + tail;
        let n = 4 + attrs[0].data.len();
        law_attrs_round_trip(rest, tail);
        wire::law_be16_round_trip(n as nat);
        assert(body =~= attr_wire(attrs[0]) + (attrs_wire(rest) + tail));
        assert(body.subrange(4, n as int) =~= attrs[0].data);
        assert(body.skip(n as int) =~= attrs_wire(rest) + tail);
        assert(canonical_attrs(attrs) =~= seq![canonical_attrs(attrs)[0]] + canonical_attrs(rest));
    }
}

/// Each attribute adds its four header bytes and its data to the wire.
proof fn lemma_attr_fits(attrs: Seq<AttrView>, i: int)
    requires
        0 <= i < attrs.len(),
    ensures
        4 * attrs.len() + attrs[i].data.len() <= attrs_wire(attrs).len(),
    decreases attrs.len(),
{
    let rest = attrs.drop_first();
    lemma_attrs_wire_len(rest);
    if i > 0 {
        lemma_attr_fits(rest, i - 1);
    }
}

proof fn lemma_attrs_wire_len(attrs: Seq<AttrView>)
    ensures
        4 * attrs.len() <= attrs_wire(attrs).len(),
    decreases attrs.len(),
{
    if attrs.len() > 0 {
        lemma_attrs_wire_len(attrs.drop_first());
    }
}

/// A control packet that fits the length field decodes to the message and the
/// attributes it was made from, in order, whatever follows it.
pub proof fn law_ctrl_round_trip(msg_type: MsgType, attrs: Seq<AttrView>, tail: Seq<u8>)
    requires
        8 + attrs_wire(attrs).len() <= 0xffff,
    ensures
        packet_read(ctrl_wire(msg_type, attrs) + tail) == Ok::<PacketView, DecodeError>(
            PacketView::Ctrl { msg_type: canonical_msg(msg_type), attrs: canonical_attrs(attrs) },
        ),
        claimed_len(ctrl_wire(msg_type, attrs) + tail) == ctrl_wire(msg_type, attrs).len(),
{
    let buf = ctrl_wire(msg_type, attrs) + tail;
    let n = 8 + attrs_wire(attrs).len();
    wire::law_be16_round_trip(n as nat);
    wire::law_be16_round_trip(msg_type.code() as nat);
    lemma_attrs_wire_len(attrs);
    wire::law_be16_round_trip(attrs.len());
    assert forall|i: int| 0 <= i < attrs.len() implies 4 + (#[trigger] attrs[i]).data.len()
        <= 0xffff by {
        lemma_attr_fits(attrs, i);
    }
    law_attrs_round_trip(attrs, Seq::empty());
    assert(attrs_wire(attrs) + Seq::<u8>::empty() =~= attrs_wire(attrs));
    assert(buf.subrange(8, n as int) =~= attrs_wire(attrs));
}

/// What has not fully arrived is never misread: every strict prefix of a
/// packet that decodes is incomplete.
pub proof fn law_truncation_is_incomplete(buf: Seq<u8>, cut: nat)
    requires
        packet_read(buf) is Ok,
        cut < claimed_len(buf),
    ensures
        packet_read(buf.take(cut as int)) == Err::<PacketView, DecodeError>(DecodeError::Incomplete),
{
}

/// What follows a packet plays no part in how it decodes.
pub proof fn law_tail_is_ignored(buf: Seq<u8>, tail: Seq<u8>)
    requires
        packet_read(buf) is Ok,
    ensures
        packet_read(buf + tail) == packet_read(buf),
        claimed_len(buf + tail) == claimed_len(buf),
        (buf + tail).skip(claimed_len(buf) as int) == buf.skip(claimed_len(buf) as int) + tail,
{
    let n = claimed_len(buf) as int;
    assert((buf + tail).subrange(4, n) =~= buf.subrange(4, n));
    if buf[1] % 2 != 0 {
        assert((buf + tail).subrange(8, n) =~= buf.subrange(8, n));
    }
    assert((buf + tail).skip(n) =~= buf.skip(n) + tail);
}

/// The packets that can be taken out of a stream, in order.
pub open spec fn packets_of(stream: Seq<u8>) -> Seq<PacketView>
    decreases stream.len(),
{
    match packet_read(stream) {
        Ok(p) => {
            if 4 <= claimed_len(stream) <= stream.len() {
                seq![p] + packets_of(stream.skip(claimed_len(stream) as int))
            } else {
                seq![]
            }
        },
        Err(_) => seq![],
    }
}

/// Bytes that arrive later never change or reorder the packets that were
/// already there.
pub proof fn law_stream_grows_in_order(stream: Seq<u8>, more: Seq<u8>)
    ensures
        packets_of(stream).is_prefix_of(packets_of(stream + more)),
    decreases stream.len(),
{
    if packet_read(stream) is Ok {
        let n = claimed_len(stream) as int;
        law_tail_is_ignored(stream, more);
        law_stream_grows_in_order(stream.skip(n), more);
        let first = packet_read(stream)->Ok_0;
        assert(packets_of(stream + more) == seq![first] + packets_of(stream.skip(n) + more));
    }
}

/// A stream of data packets yields their frames, in the order sent.
pub proof fn law_stream_of_frames(frames: Seq<Seq<u8>>)
    requires
        forall|i: int| 0 <= i < frames.len() ==> 4 + (#[trigger] frames[i]).len() <= 0xffff,
    ensures
        packets_of(frames.map_values(|f: Seq<u8>| data_wire(f)).flatten()) == frames.map_values(
            |f: Seq<u8>| PacketView::Data(f),
        ),
    decreases frames.len(),
{
    let stream = frames.map_values(|f: Seq<u8>| data_wire(f)).flatten();
    let meant = frames.map_values(|f: Seq<u8>| PacketView::Data(f));
    if frames.len() == 0 {
        assert(packets_of(stream) =~= meant);
    } else {
        let rest = frames.drop_first();
        let tail = rest.map_values(|f: Seq<u8>| data_wire(f)).flatten();
        law_stream_of_frames(rest);
        assert(frames.map_values(|f: Seq<u8>| data_wire(f)).drop_first() =~= rest.map_values(
            |f: Seq<u8>| data_wire(f),
        ));
        assert(stream == data_wire(frames[0]) + tail);
        law_data_round_trip(frames[0], tail);
        assert(stream.skip(data_wire(frames[0]).len() as int) =~= tail);
        assert(meant =~= seq![PacketView::Data(frames[0])] + rest.map_values(
            |f: Seq<u8>| PacketView::Data(f),
        ));
    }
}

/// The number of each message type, and of no other.
pub proof fn law_messages_have_their_numbers(v: u16)
    ensures
        MsgType::of_code(v).code() == v,
        MsgType::of_code(v) is Unknown <==> !(1 <= v <= 9),
        MsgType::of_code(1) == MsgType::ConnectRequest,
        MsgType::of_code(2) == MsgType::ConnectAck,
        MsgType::of_code(3) == MsgType::ConnectNak,
        MsgType::of_code(4) == MsgType::Connected,
        MsgType::of_code(5) == MsgType::Abort,
        MsgType::of_code(6) == MsgType::Disconnect,
        MsgType::of_code(7) == MsgType::DisconnectAck,
        MsgType::of_code(8) == MsgType::EchoRequest,
        MsgType::of_code(9) == MsgType::EchoReply,
        MsgType::Unknown(v).code() == v,
{
}

/// The number of each attribute type, and of no other.
pub proof fn law_attributes_have_their_numbers(v: u8)
    ensures
        AttrType::of_code(v).code() == v,
        AttrType::of_code(v) is Unknown <==> v > 4,
        AttrType::of_code(0) == AttrType::NoError,
        AttrType::of_code(1) == AttrType::EncapProtocol,
        AttrType::of_code(2) == AttrType::StatusInfo,
        AttrType::of_code(3) == AttrType::CryptoBind,
        AttrType::of_code(4) == AttrType::CryptoBindRequest,
        AttrType::Unknown(v).code() == v,
{
}

/// A data packet on the wire: version 10 hex, no flag, its whole length, and
/// the frame as it is.
pub proof fn law_data_layout(frame: Seq<u8>)
    ensures
        ({
            let w = data_wire(frame);
            &&& w.len() == 4 + frame.len()
            &&& w[0] == 0x10
            &&& w[1] == 0
            &&& w[2] as int * 256 + w[3] as int == (4 + frame.len()) % 0x1_0000
            &&& w.skip(4) == frame
        }),
{
    let w = data_wire(frame);
    wire::law_be16_is_positional((4 + frame.len()) as nat, 0, 0);
    assert(w.skip(4) =~= frame);
}

/// A control packet on the wire: version 10 hex, the control flag, its whole
/// length, the number of the message, how many attributes follow, and those.
pub proof fn law_ctrl_layout(msg_type: MsgType, attrs: Seq<AttrView>)
    ensures
        ({
            let w = ctrl_wire(msg_type, attrs);
            &&& w.len() == 8 + attrs_wire(attrs).len()
            &&& w[0] == 0x10
            &&& w[1] == 1
            &&& w[2] as int * 256 + w[3] as int == w.len() % 0x1_0000
            &&& w[4] as int * 256 + w[5] as int == msg_type.code()
            &&& w[6] as int * 256 + w[7] as int == attrs.len() % 0x1_0000
            &&& w.skip(8) == attrs_wire(attrs)
        }),
{
    let w = ctrl_wire(msg_type, attrs);
    wire::law_be16_is_positional((8 + attrs_wire(attrs).len()) as nat, 0, 0);
    wire::law_be16_is_positional(msg_type.code() as nat, 0, 0);
    wire::law_be16_is_positional(attrs.len(), 0, 0);
    assert(w.skip(8) =~= attrs_wire(attrs));
}

/// Attributes on the wire, one behind the other: a zero, the number of the
/// type, the length with these four bytes, and the data.
pub proof fn law_attrs_layout(a: AttrView, rest: Seq<AttrView>)
    ensures
        attrs_wire(Seq::empty()) == Seq::<u8>::empty(),
        ({
            let w = attrs_wire(seq![a] + rest);
            let n = 4 + a.data.len() as int;
            &&& w.len() == n + attrs_wire(rest).len()
            &&& w[0] == 0
            &&& w[1] == a.attr_type.code()
            &&& w[2] as int * 256 + w[3] as int == n % 0x1_0000
            &&& w.subrange(4, n) == a.data
            &&& w.skip(n) == attrs_wire(rest)
        }),
{
    let w = attrs_wire(seq![a] + rest);
    let n = 4 + a.data.len() as int;
    assert((seq![a] + rest).drop_first() =~= rest);
    wire::law_be16_is_positional(n as nat, 0, 0);
    assert(w.subrange(4, n) =~= a.data);
    assert(w.skip(n) =~= attrs_wire(rest));
}

/// What the front of every buffer is read as. Another version is refused, and
/// a length below the header's or, for a control packet, below both headers'
/// is malformed. Too few bytes are incomplete. Flags other than the lowest play
/// no part.
pub proof fn law_every_buffer_is_read(buf: Seq<u8>)
    ensures
        buf.len() < 4 ==> packet_read(buf) == Err::<PacketView, DecodeError>(
            DecodeError::Incomplete,
        ),
        buf.len() >= 4 && buf[0] != 0x10 ==> packet_read(buf) == Err::<PacketView, DecodeError>(
            DecodeError::BadVersion(buf[0]),
        ),
        buf.len() >= 4 ==> claimed_len(buf) == buf[2] as int * 256 + buf[3] as int,
        buf.len() >= 4 && buf[0] == 0x10 ==> {
            let n = buf[2] as int * 256 + buf[3] as int;
            let r = packet_read(buf);
            if n < 4 {
                r == Err::<PacketView, DecodeError>(
                    DecodeError::Malformed("header length smaller than header itself"),
                )
            } else if buf.len() < n {
                r == Err::<PacketView, DecodeError>(DecodeError::Incomplete)
            } else if buf[1] % 2 == 0 {
                r == Ok::<PacketView, DecodeError>(PacketView::Data(buf.subrange(4, n)))
            } else if n < 8 {
                r == Err::<PacketView, DecodeError>(
                    DecodeError::Malformed("control packet shorter than control header"),
                )
            } else {
                let read = attrs_read(
                    buf.subrange(8, n),
                    (buf[6] as int * 256 + buf[7] as int) as nat,
                );
                &&& read is Err ==> r == Err::<PacketView, DecodeError>(read->Err_0)
                &&& read is Ok ==> (r matches Ok(PacketView::Ctrl { msg_type, attrs }) && attrs
                    == read->Ok_0 && msg_type.code() as int == buf[4] as int * 256 + buf[5] as int
                    && msg_type == MsgType::of_code(msg_type.code()))
            }
        },
{
    if buf.len() >= 4 {
        wire::law_be16_is_positional(0, buf[2], buf[3]);
        if buf.len() >= 8 {
            wire::law_be16_is_positional(0, buf[4], buf[5]);
            wire::law_be16_is_positional(0, buf[6], buf[7]);
            law_messages_have_their_numbers((buf[4] as int * 256 + buf[5] as int) as u16);
        }
    }
}

/// How attributes are taken off the front of a body, one at a time: the length
/// in the third and fourth byte counts the four header bytes, and the next
/// attribute starts where that length ends. The first byte plays no part. A
/// length that does not fit makes the whole malformed.
pub proof fn law_every_attribute_is_read(body: Seq<u8>, count: nat)
    ensures
        attrs_read(body, 0) == Ok::<Seq<AttrView>, DecodeError>(Seq::empty()),
        ({
            let r = attrs_read(body, count + 1);
            let n = body[2] as int * 256 + body[3] as int;
            if body.len() < 4 {
                r == Err::<Seq<AttrView>, DecodeError>(
                    DecodeError::Malformed("attribute header runs past packet end"),
                )
            } else if n < 4 || n > body.len() {
                r == Err::<Seq<AttrView>, DecodeError>(
                    DecodeError::Malformed("attribute length invalid or runs past packet end"),
                )
            } else {
                let rest = attrs_read(body.skip(n), count);
                &&& rest is Err ==> r is Err && r->Err_0 == rest->Err_0
                &&& rest is Ok ==> r is Ok && r->Ok_0.drop_first() == rest->Ok_0
                    && r->Ok_0.len() == 1 + rest->Ok_0.len() && r->Ok_0[0].attr_type.code()
                    == body[1] && r->Ok_0[0].attr_type == AttrType::of_code(body[1])
                    && r->Ok_0[0].data == body.subrange(4, n)
            }
        }),
{
    if body.len() >= 4 {
        wire::law_be16_is_positional(0, body[2], body[3]);
        law_attributes_have_their_numbers(body[1]);
        let n = body[2] as int * 256 + body[3] as int;
        if 4 <= n <= body.len() {
            if let Ok(rest) = attrs_read(body.skip(n), count) {
                assert(attrs_read(body, count + 1)->Ok_0.drop_first() =~= rest);
            }
        }
    }
}

/// The first attribute of a type is the one that is found.
pub proof fn law_first_attribute_is_found(attrs: Seq<AttrView>, t: AttrType, i: int)
    ensures
        first_of_type(attrs, t) is None <==> forall|j: int|
            0 <= j < attrs.len() ==> (#[trigger] attrs[j]).attr_type != t,
        0 <= i < attrs.len() && attrs[i].attr_type == t && (forall|j: int|
            0 <= j < i ==> (#[trigger] attrs[j]).attr_type != t) ==> first_of_type(attrs, t)
            == Some(attrs[i].data),
    decreases attrs.len(),
{
    if attrs.len() > 0 {
        let rest = attrs.drop_first();
        law_first_attribute_is_found(rest, t, i - 1);
        assert(forall|j: int| 0 <= j < rest.len() ==> #[trigger] rest[j] == attrs[j + 1]);
        if attrs[0].attr_type != t {
            if first_of_type(attrs, t) is None {
                assert forall|j: int| 0 <= j < attrs.len() implies (
                #[trigger] attrs[j]).attr_type != t by {
                    if j > 0 {
                        assert(rest[j - 1] == attrs[j]);
                    }
                }
            }
        }
    }
}

/// What a status attribute says: the code in its last four bytes, the word for
/// that code, and the number of the attribute in its fourth byte.
pub proof fn law_status_is_told(data: Seq<u8>)
    ensures
        data.len() < 8 ==> status_sentence(data) == "malformed status-info attribute: "@
            + text::hex_list(data),
        data.len() >= 8 ==> ({
            let code = (data[4] as int * 0x100_0000 + data[5] as int * 0x1_0000 + data[6] as int
                * 0x100 + data[7] as int) as u32;
            status_sentence(data) == status_text(code)@ + " (code "@ + text::decimal(code as nat)
                + ", attribute "@ + text::decimal(data[3] as nat) + ")"@
        }),
        status_text(1)@ == "Received Duplicate Attribute"@,
        status_text(2)@ == "Unrecognized Attribute"@,
        status_text(3)@ == "Invalid Attribute Length"@,
        status_text(4)@ == "Value of attribute is incorrect"@,
        status_text(9)@ == "Attribute is invalid or not supported"@,
        status_text(10)@ == "Attribute is missing"@,
        status_text(11)@ == "Invalid info attribute"@,
        forall|c: u32|
            (c == 0 || 5 <= c <= 8 || c > 11) ==> #[trigger] status_text(c)@
                == "Unknown Status Attribute"@,
{
    if data.len() >= 8 {
        wire::law_be32_is_positional(0, data.subrange(4, 8));
    }
}

} // verus!
