//! The frame that the PPP control protocols share (code, identifier, length,
//! data) and the options inside a Configure frame.

use crate::text;
use crate::wire;
use vstd::prelude::*;

verus! {

/// The codes of the control protocols.
#[derive(Debug, Clone, Copy, PartialEq, Eq, Structural)]
pub enum Code {
    ConfigureRequest,
    ConfigureAck,
    ConfigureNak,
    ConfigureReject,
    TerminateRequest,
    TerminateAck,
    CodeReject,
    ProtocolReject,
    EchoRequest,
    EchoReply,
    DiscardRequest,
    Unknown(u8),
}

impl Code {
    /// The number of this code.
    pub open spec fn code(self) -> u8 {
        match self {
            Code::ConfigureRequest => 1,
            Code::ConfigureAck => 2,
            Code::ConfigureNak => 3,
            Code::ConfigureReject => 4,
            Code::TerminateRequest => 5,
            Code::TerminateAck => 6,
            Code::CodeReject => 7,
            Code::ProtocolReject => 8,
            Code::EchoRequest => 9,
            Code::EchoReply => 10,
            Code::DiscardRequest => 11,
            Code::Unknown(v) => v,
        }
    }

    /// The code that a number stands for.
    pub open spec fn of_code(v: u8) -> Code {
        if v == 1 {
            Code::ConfigureRequest
        } else if v == 2 {
            Code::ConfigureAck
        } else if v == 3 {
            Code::ConfigureNak
        } else if v == 4 {
            Code::ConfigureReject
        } else if v == 5 {
            Code::TerminateRequest
        } else if v == 6 {
            Code::TerminateAck
        } else if v == 7 {
            Code::CodeReject
        } else if v == 8 {
            Code::ProtocolReject
        } else if v == 9 {
            Code::EchoRequest
        } else if v == 10 {
            Code::EchoReply
        } else if v == 11 {
            Code::DiscardRequest
        } else {
            Code::Unknown(v)
        }
    }

    /// The name of this code, with the number of an unknown one in brackets.
    pub open spec fn label(self) -> Seq<char> {
        match self {
            Code::ConfigureRequest => "ConfigureRequest"@,
            Code::ConfigureAck => "ConfigureAck"@,
            Code::ConfigureNak => "ConfigureNak"@,
            Code::ConfigureReject => "ConfigureReject"@,
            Code::TerminateRequest => "TerminateRequest"@,
            Code::TerminateAck => "TerminateAck"@,
            Code::CodeReject => "CodeReject"@,
            Code::ProtocolReject => "ProtocolReject"@,
            Code::EchoRequest => "EchoRequest"@,
            Code::EchoReply => "EchoReply"@,
            Code::DiscardRequest => "DiscardRequest"@,
            Code::Unknown(v) => "Unknown("@ + text::decimal(v as nat) + ")"@,
        }
    }

    /// Appends the name of this code to `out`.
    pub fn push_label(self, out: &mut String)
        ensures
            final(out)@ == old(out)@ + self.label(),
    {
        match self {
            Code::ConfigureRequest => text::push_str(out, "ConfigureRequest"),
            Code::ConfigureAck => text::push_str(out, "ConfigureAck"),
            Code::ConfigureNak => text::push_str(out, "ConfigureNak"),
            Code::ConfigureReject => text::push_str(out, "ConfigureReject"),
            Code::TerminateRequest => text::push_str(out, "TerminateRequest"),
            Code::TerminateAck => text::push_str(out, "TerminateAck"),
            Code::CodeReject => text::push_str(out, "CodeReject"),
            Code::ProtocolReject => text::push_str(out, "ProtocolReject"),
            Code::EchoRequest => text::push_str(out, "EchoRequest"),
            Code::EchoReply => text::push_str(out, "EchoReply"),
            Code::DiscardRequest => text::push_str(out, "DiscardRequest"),
            Code::Unknown(v) => {
                text::push_str(out, "Unknown(");
                text::push_decimal(out, v as u64);
                text::push_str(out, ")");
                proof {
                    assert(out@ =~= old(out)@ + self.label());
                }
            },
        }
    }

    /// The number of this code.
    pub fn to_u8(self) -> (v: u8)
        ensures
            v == self.code(),
    {
        match self {
            Code::ConfigureRequest => 1,
            Code::ConfigureAck => 2,
            Code::ConfigureNak => 3,
            Code::ConfigureReject => 4,
            Code::TerminateRequest => 5,
            Code::TerminateAck => 6,
            Code::CodeReject => 7,
            Code::ProtocolReject => 8,
            Code::EchoRequest => 9,
            Code::EchoReply => 10,
            Code::DiscardRequest => 11,
            Code::Unknown(v) => v,
        }
    }

    /// The code that a number stands for.
    pub fn from_u8(v: u8) -> (c: Code)
        ensures
            c == Code::of_code(v),
    {
        match v {
            1 => Code::ConfigureRequest,
            2 => Code::ConfigureAck,
            3 => Code::ConfigureNak,
            4 => Code::ConfigureReject,
            5 => Code::TerminateRequest,
            6 => Code::TerminateAck,
            7 => Code::CodeReject,
            8 => Code::ProtocolReject,
            9 => Code::EchoRequest,
            10 => Code::EchoReply,
            11 => Code::DiscardRequest,
            other => Code::Unknown(other),
        }
    }
}

/// A control frame. The data of a Configure frame is a list of options.
#[derive(Debug, Clone, PartialEq, Eq)]
pub struct Frame {
    pub code: Code,
    pub id: u8,
    pub data: Vec<u8>,
}

/// What a control frame is.
#[verifier::ext_equal]
pub struct FrameView {
    pub code: Code,
    pub id: u8,
    pub data: Seq<u8>,
}

impl View for Frame {
    type V = FrameView;

    open spec fn view(&self) -> FrameView {
        FrameView { code: self.code, id: self.id, data: self.data@ }
    }
}

/// The wire form of a control frame; the length counts the header too.
pub open spec fn frame_wire(code: Code, id: u8, data: Seq<u8>) -> Seq<u8> {
    seq![code.code(), id] + wire::be16(4 + data.len()) + data
}

/// The control frame at the front of `buf`, where there is a whole one.
pub open spec fn frame_read(buf: Seq<u8>) -> Option<FrameView> {
    if buf.len() < 4 {
        None
    } else {
        let len = wire::be16_value(buf[2], buf[3]);
        if len < 4 || len > buf.len() {
            None
        } else {
            Some(
                FrameView {
                    code: Code::of_code(buf[0]),
                    id: buf[1],
                    data: buf.subrange(4, len as int),
                },
            )
        }
    }
}

/// Encodes a control frame.
pub fn encode(code: Code, id: u8, data: &[u8]) -> (out: Vec<u8>)
    ensures
        out@ == frame_wire(code, id, data@),
{
    let mut out: Vec<u8> = Vec::new();
    out.push(code.to_u8());
    out.push(id);
    wire::push_be16(&mut out, 4 + data.len() % 0x1_0000);
    wire::append(&mut out, data);
    proof {
        wire::lemma_be16_is_modular(4, data@.len());
        assert(out@ =~= frame_wire(code, id, data@));
    }
    out
}

/// Decodes the control frame at the front of `buf`.
pub fn decode(buf: &[u8]) -> (r: Option<Frame>)
    ensures
        match (r, frame_read(buf@)) {
            (Some(f), Some(v)) => f@ == v,
            (None, None) => true,
            _ => false,
        },
{
    if buf.len() < 4 {
        return None;
    }
    let code = Code::from_u8(buf[0]);
    let id: u8 = buf[1];
    let len: usize = wire::read_be16(buf[2], buf[3]) as usize;
    if len < 4 || len > buf.len() {
        return None;
    }
    Some(Frame { code, id, data: vstd::slice::slice_to_vec(&buf[4..len]) })
}

/// An option of a Configure frame: its type and its data.
#[derive(Debug, PartialEq, Eq)]
pub struct Opt {
    pub kind: u8,
    pub data: Vec<u8>,
}

/// What an option is.
#[verifier::ext_equal]
pub struct OptView {
    pub kind: u8,
    pub data: Seq<u8>,
}

impl View for Opt {
    type V = OptView;

    open spec fn view(&self) -> OptView {
        OptView { kind: self.kind, data: self.data@ }
    }
}

impl Clone for Opt {
    fn clone(&self) -> (o: Opt)
        ensures
            o@ == self@,
    {
        Opt { kind: self.kind, data: vstd::slice::slice_to_vec(self.data.as_slice()) }
    }
}

impl Opt {
    /// An option with a copy of `data`.
    pub fn new(kind: u8, data: &[u8]) -> (o: Opt)
        ensures
            o@ == (OptView { kind, data: data@ }),
    {
        Opt { kind, data: vstd::slice::slice_to_vec(data) }
    }
}

/// What a list of options is.
pub open spec fn opts_view(opts: Seq<Opt>) -> Seq<OptView> {
    opts.map_values(|o: Opt| o@)
}

/// The wire form of an option; the length counts the two header bytes too.
pub open spec fn opt_wire(o: OptView) -> Seq<u8> {
    seq![o.kind, ((2 + o.data.len()) % 256) as u8] + o.data
}

/// The wire form of a list of options.
pub open spec fn options_wire(opts: Seq<OptView>) -> Seq<u8>
    decreases opts.len(),
{
    if opts.len() == 0 {
        Seq::empty()
    } else {
        opt_wire(opts[0]) + options_wire(opts.drop_first())
    }
}

/// The options at the front of `buf`, up to the first bytes that are none.
pub open spec fn options_read(buf: Seq<u8>) -> Seq<OptView>
    decreases buf.len(),
{
    if buf.len() < 2 || buf[1] < 2 || buf[1] > buf.len() {
        Seq::empty()
    } else {
        seq![OptView { kind: buf[0], data: buf.subrange(2, buf[1] as int) }] + options_read(
            buf.skip(buf[1] as int),
        )
    }
}

/// Encodes a list of options.
pub fn encode_options(opts: &[Opt]) -> (out: Vec<u8>)
    ensures
        out@ == options_wire(opts_view(opts@)),
{
    let ghost all = opts_view(opts@);
    let mut out: Vec<u8> = Vec::new();
    let mut i: usize = 0;
    proof {
        assert(all.skip(0) =~= all);
        assert(out@ + options_wire(all) =~= options_wire(all));
    }
    while i < opts.len()
        invariant
            i <= opts@.len(),
            all == opts_view(opts@),
            out@ + options_wire(all.skip(i as int)) == options_wire(all),
        decreases opts@.len() - i,
    {
        let ghost before = out@;
        out.push(opts[i].kind);
        out.push(((2 + opts[i].data.len() % 256) % 256) as u8);
        wire::append(&mut out, opts[i].data.as_slice());
        proof {
            let rest = all.skip(i as int);
            assert(rest[0] == all[i as int]);
            assert(rest.drop_first() =~= all.skip(i + 1));
            assert(out@ =~= before + opt_wire(all[i as int]));
            assert(out@ + options_wire(all.skip(i + 1)) =~= before + options_wire(rest));
        }
        i += 1;
    }
    proof {
        assert(all.skip(i as int).len() == 0);
        assert(out@ =~= options_wire(all));
    }
    out
}

/// Decodes options up to the first bytes that are none; what follows is left
/// unread.
pub fn decode_options(buf: &[u8]) -> (opts: Vec<Opt>)
    ensures
        opts_view(opts@) == options_read(buf@),
{
    let mut opts: Vec<Opt> = Vec::new();
    let mut pos: usize = 0;
    proof {
        assert(buf@.skip(0) =~= buf@);
        assert(opts_view(opts@) + options_read(buf@) =~= options_read(buf@));
    }
    while buf.len() - pos >= 2 && buf[pos + 1] >= 2 && buf[pos + 1] as usize <= buf.len() - pos
        invariant
            pos <= buf@.len(),
            opts_view(opts@) + options_read(buf@.skip(pos as int)) == options_read(buf@),
        decreases buf@.len() - pos,
    {
        let kind: u8 = buf[pos];
        let len: usize = buf[pos + 1] as usize;
        let opt = Opt { kind, data: vstd::slice::slice_to_vec(&buf[pos + 2..pos + len]) };
        proof {
            let here = buf@.skip(pos as int);
            let before = opts_view(opts@);
            assert(here.subrange(2, len as int) =~= opt.data@);
            assert(here.skip(len as int) =~= buf@.skip(pos + len));
            assert(opts_view(opts@.push(opt)) =~= before + seq![opt@]);
            let rest = options_read(here.skip(len as int));
            assert(before + (seq![opt@] + rest) =~= (before + seq![opt@]) + rest);
        }
        opts.push(opt);
        pos += len;
    }
    proof {
        assert(opts_view(opts@) + Seq::<OptView>::empty() =~= opts_view(opts@));
    }
    opts
}

/// Whether some option has this type.
pub open spec fn mentions(opts: Seq<OptView>, kind: u8) -> bool {
    exists|i: int| 0 <= i < opts.len() && (#[trigger] opts[i]).kind == kind
}

/// The options with the data of the first one of the type of `s` replaced.
pub open spec fn with_value(opts: Seq<OptView>, s: OptView) -> Seq<OptView>
    decreases opts.len(),
{
    if opts.len() == 0 {
        opts
    } else if opts[0].kind == s.kind {
        seq![s] + opts.drop_first()
    } else {
        seq![opts[0]] + with_value(opts.drop_first(), s)
    }
}

/// The options with every suggested value taken over, in order.
pub open spec fn with_values(opts: Seq<OptView>, suggested: Seq<OptView>) -> Seq<OptView>
    decreases suggested.len(),
{
    if suggested.len() == 0 {
        opts
    } else {
        with_values(with_value(opts, suggested[0]), suggested.drop_first())
    }
}

/// The options whose type none of `dropped` has.
pub open spec fn without_kinds(opts: Seq<OptView>, dropped: Seq<OptView>) -> Seq<OptView> {
    opts.filter(|o: OptView| !mentions(dropped, o.kind))
}

/// Replaces the data of the first option of the type of `s`.
pub fn set_value(opts: &mut Vec<Opt>, s: &Opt)
    ensures
        opts_view(final(opts)@) == with_value(opts_view(old(opts)@), s@),
{
    let ghost all = opts_view(opts@);
    let mut i: usize = 0;
    proof {
        assert(all.skip(0) =~= all);
        assert(all.take(0) + with_value(all, s@) =~= with_value(all, s@));
    }
    while i < opts.len()
        invariant
            i <= opts@.len(),
            *opts == *old(opts),
            all == opts_view(opts@),
            with_value(all, s@) == all.take(i as int) + with_value(all.skip(i as int), s@),
        decreases opts@.len() - i,
    {
        proof {
            assert(all.skip(i as int)[0] == all[i as int]);
            assert(all.skip(i as int).drop_first() =~= all.skip(i + 1));
        }
        if opts[i].kind == s.kind {
            opts.set(i, s.clone());
            proof {
                assert(opts_view(opts@) =~= all.take(i as int) + (seq![s@] + all.skip(i + 1)));
            }
            return;
        }
        proof {
            assert(all.take(i as int) + (seq![all[i as int]] + with_value(all.skip(i + 1), s@))
                =~= all.take(i + 1) + with_value(all.skip(i + 1), s@));
        }
        i += 1;
    }
    proof {
        assert(all.take(i as int) + all.skip(i as int) =~= all);
    }
}

/// Takes over every suggested value, in order.
pub fn set_values(opts: &mut Vec<Opt>, suggested: &[Opt])
    ensures
        opts_view(final(opts)@) == with_values(opts_view(old(opts)@), opts_view(suggested@)),
{
    let ghost all = opts_view(suggested@);
    let ghost start = opts_view(opts@);
    let mut i: usize = 0;
    proof {
        assert(all.skip(0) =~= all);
    }
    while i < suggested.len()
        invariant
            i <= suggested@.len(),
            all == opts_view(suggested@),
            with_values(start, all) == with_values(opts_view(opts@), all.skip(i as int)),
        decreases suggested@.len() - i,
    {
        proof {
            assert(all.skip(i as int)[0] == all[i as int]);
            assert(all.skip(i as int).drop_first() =~= all.skip(i + 1));
        }
        set_value(opts, &suggested[i]);
        i += 1;
    }
}

/// Whether some option has this type.
pub fn has_kind(opts: &[Opt], kind: u8) -> (r: bool)
    ensures
        r == mentions(opts_view(opts@), kind),
{
    let mut i: usize = 0;
    while i < opts.len()
        invariant
            i <= opts@.len(),
            forall|j: int| 0 <= j < i ==> (#[trigger] opts_view(opts@)[j]).kind != kind,
        decreases opts@.len() - i,
    {
        if opts[i].kind == kind {
            proof {
                assert(opts_view(opts@)[i as int].kind == kind);
            }
            return true;
        }
        i += 1;
    }
    false
}

/// Drops the options whose type one of `dropped` has.
pub fn drop_kinds(opts: &mut Vec<Opt>, dropped: &[Opt])
    ensures
        opts_view(final(opts)@) == without_kinds(opts_view(old(opts)@), opts_view(dropped@)),
{
    let ghost all = opts_view(opts@);
    let ghost keep = |o: OptView| !mentions(opts_view(dropped@), o.kind);
    let mut kept: Vec<Opt> = Vec::new();
    let mut i: usize = 0;
    proof {
        reveal(Seq::filter);
        assert(opts_view(kept@) =~= all.take(0).filter(keep));
    }
    while i < opts.len()
        invariant
            i <= opts@.len(),
            all == opts_view(opts@),
            keep == (|o: OptView| !mentions(opts_view(dropped@), o.kind)),
            opts_view(kept@) == all.take(i as int).filter(keep),
        decreases opts@.len() - i,
    {
        proof {
            reveal(Seq::filter);
            assert(all.take(i + 1).drop_last() =~= all.take(i as int));
            assert(all.take(i + 1).last() == all[i as int]);
        }
        let ghost before = kept@;
        if !has_kind(dropped, opts[i].kind) {
            kept.push(opts[i].clone());
            proof {
                assert(opts_view(kept@) =~= opts_view(before).push(all[i as int]));
            }
        }
        i += 1;
    }
    proof {
        assert(all.take(i as int) =~= all);
    }
    *opts = kept;
}

/// A control frame that fits the length field decodes to what it was made
/// from, whatever follows it.
pub proof fn law_frame_round_trip(code: Code, id: u8, data: Seq<u8>, tail: Seq<u8>)
    requires
        4 + data.len() <= 0xffff,
    ensures
        frame_read(frame_wire(code, id, data) + tail) == Some(
            FrameView { code: Code::of_code(code.code()), id, data },
        ),
{
    let buf = frame_wire(code, id, data) + tail;
    wire::law_be16_round_trip((4 + data.len()) as nat);
    assert(buf.subrange(4, 4 + data.len() as int) =~= data);
}

/// Options that fit their length fields decode to themselves, followed by
/// whatever options come after them.
pub proof fn law_options_round_trip(opts: Seq<OptView>, tail: Seq<u8>)
    requires
        forall|i: int| 0 <= i < opts.len() ==> (#[trigger] opts[i]).data.len() <= 253,
    ensures
        options_read(options_wire(opts) + tail) == opts + options_read(tail),
    decreases opts.len(),
{
    let buf = options_wire(opts) + tail;
    if opts.len() == 0 {
        assert(buf =~= tail);
        assert(opts + options_read(tail) =~= options_read(tail));
    } else {
        let rest = opts.drop_first();
        let n = 2 + opts[0].data.len() as int;
        law_options_round_trip(rest, tail);
        assert(buf =~= opt_wire(opts[0]) + (options_wire(rest) + tail));
        assert(buf.subrange(2, n) =~= opts[0].data);
        assert(buf.skip(n) =~= options_wire(rest) + tail);
        assert(opts + options_read(tail) =~= seq![opts[0]] + (rest + options_read(tail)));
    }
}

/// A frame around one option reads back as that option.
pub proof fn lemma_frame_of_one_option(code: Code, id: u8, o: OptView)
    requires
        o.data.len() <= 253,
        Code::of_code(code.code()) == code,
    ensures
        frame_read(frame_wire(code, id, options_wire(seq![o]))) == Some(
            FrameView { code, id, data: options_wire(seq![o]) },
        ),
        options_read(options_wire(seq![o])) == seq![o],
{
    let data = options_wire(seq![o]);
    law_options_round_trip(seq![o], Seq::empty());
    assert(data + Seq::<u8>::empty() =~= data);
    assert(seq![o] + Seq::<OptView>::empty() =~= seq![o]);
    assert(seq![o].drop_first() =~= Seq::empty());
    assert(data == opt_wire(o) + options_wire(Seq::empty()));
    law_frame_round_trip(code, id, data, Seq::empty());
    assert(frame_wire(code, id, data) + Seq::<u8>::empty() =~= frame_wire(code, id, data));
}

/// Bytes that cannot start an option leave the options before them untouched.
pub proof fn law_junk_after_options_is_ignored(opts: Seq<OptView>, junk: Seq<u8>)
    requires
        forall|i: int| 0 <= i < opts.len() ==> (#[trigger] opts[i]).data.len() <= 253,
        junk.len() < 2 || junk[1] < 2 || junk[1] > junk.len(),
    ensures
        options_read(options_wire(opts) + junk) == opts,
{
    law_options_round_trip(opts, junk);
    assert(opts + Seq::<OptView>::empty() =~= opts);
}

/// Taking over values never changes which options are there, nor their order.
pub proof fn law_values_keep_kinds(opts: Seq<OptView>, suggested: Seq<OptView>)
    ensures
        with_values(opts, suggested).map_values(|o: OptView| o.kind) == opts.map_values(
            |o: OptView| o.kind,
        ),
    decreases suggested.len(),
{
    if suggested.len() > 0 {
        lemma_value_keeps_kinds(opts, suggested[0]);
        law_values_keep_kinds(with_value(opts, suggested[0]), suggested.drop_first());
    }
}

proof fn lemma_value_keeps_kinds(opts: Seq<OptView>, s: OptView)
    ensures
        with_value(opts, s).map_values(|o: OptView| o.kind) =~= opts.map_values(
            |o: OptView| o.kind,
        ),
    decreases opts.len(),
{
    let kinds = |o: OptView| o.kind;
    if opts.len() > 0 && opts[0].kind != s.kind {
        let rest = opts.drop_first();
        lemma_value_keeps_kinds(rest, s);
        let out = with_value(opts, s);
        assert forall|i: int| 0 <= i < out.len() implies out.map_values(kinds)[i] == opts.map_values(
            kinds,
        )[i] by {
            if i > 0 {
                assert(with_value(rest, s).map_values(kinds)[i - 1] == rest.map_values(kinds)[i - 1]);
            }
        }
        assert(with_value(rest, s).map_values(kinds).len() == rest.map_values(kinds).len());
    }
}

/// After a rejection no option of a rejected type is left, and every other
/// option is.
pub proof fn law_rejected_kinds_are_gone(opts: Seq<OptView>, dropped: Seq<OptView>)
    ensures
        forall|o: OptView| #[trigger]
            without_kinds(opts, dropped).contains(o) <==> opts.contains(o) && !mentions(
                dropped,
                o.kind,
            ),
{
    broadcast use vstd::seq_lib::group_filter_ensures;

    let keep = |o: OptView| !mentions(dropped, o.kind);
    assert forall|o: OptView| #[trigger]
        without_kinds(opts, dropped).contains(o) <==> opts.contains(o) && !mentions(
            dropped,
            o.kind,
        ) by {
        if opts.contains(o) && keep(o) {
            let i = choose|i: int| 0 <= i < opts.len() && opts[i] == o;
            assert(opts.filter(keep).contains(opts[i]));
        }
        if opts.filter(keep).contains(o) {
            let i = choose|i: int| 0 <= i < opts.filter(keep).len() && opts.filter(keep)[i] == o;
            opts.lemma_filter_pred(keep, i);
            opts.lemma_filter_contains_rev(keep, o);
        }
    }
}

/// The number of each code, and of no other.
pub proof fn law_codes_have_their_numbers(v: u8)
    ensures
        Code::of_code(v).code() == v,
        Code::of_code(v) is Unknown <==> !(1 <= v <= 11),
        Code::of_code(1) == Code::ConfigureRequest,
        Code::of_code(2) == Code::ConfigureAck,
        Code::of_code(3) == Code::ConfigureNak,
        Code::of_code(4) == Code::ConfigureReject,
        Code::of_code(5) == Code::TerminateRequest,
        Code::of_code(6) == Code::TerminateAck,
        Code::of_code(7) == Code::CodeReject,
        Code::of_code(8) == Code::ProtocolReject,
        Code::of_code(9) == Code::EchoRequest,
        Code::of_code(10) == Code::EchoReply,
        Code::of_code(11) == Code::DiscardRequest,
        Code::Unknown(v).code() == v,
{
}

/// A control frame on the wire: the code, the identifier, the whole length with
/// its high byte first, and the data.
pub proof fn law_frame_layout(code: Code, id: u8, data: Seq<u8>)
    ensures
        ({
            let w = frame_wire(code, id, data);
            &&& w.len() == 4 + data.len()
            &&& w[0] == code.code()
            &&& w[1] == id
            &&& w[2] as int * 256 + w[3] as int == (4 + data.len()) % 0x1_0000
            &&& w.skip(4) == data
        }),
{
    let w = frame_wire(code, id, data);
    wire::law_be16_is_positional((4 + data.len()) as nat, 0, 0);
    assert(w.skip(4) =~= data);
}

/// How every buffer is read as a control frame: there is one exactly where the
/// length in the third and fourth byte covers the header and lies within the
/// buffer, and what follows that length plays no part.
pub proof fn law_every_frame_is_read(buf: Seq<u8>)
    ensures
        ({
            let n = buf[2] as int * 256 + buf[3] as int;
            &&& frame_read(buf) is Some <==> buf.len() >= 4 && 4 <= n <= buf.len()
            &&& frame_read(buf) matches Some(f) ==> f.code.code() == buf[0] && f.code
                == Code::of_code(buf[0]) && f.id == buf[1] && f.data == buf.subrange(4, n)
        }),
{
    if buf.len() >= 4 {
        wire::law_be16_is_positional(0, buf[2], buf[3]);
        law_codes_have_their_numbers(buf[0]);
    }
}

/// Options on the wire, one behind the other: the type, the length with these
/// two bytes, and the data.
pub proof fn law_options_layout(o: OptView, rest: Seq<OptView>)
    ensures
        options_wire(Seq::empty()) == Seq::<u8>::empty(),
        ({
            let w = options_wire(seq![o] + rest);
            let n = 2 + o.data.len() as int;
            &&& w.len() == n + options_wire(rest).len()
            &&& w[0] == o.kind
            &&& w[1] as int == n % 256
            &&& w.subrange(2, n) == o.data
            &&& w.skip(n) == options_wire(rest)
        }),
{
    let w = options_wire(seq![o] + rest);
    let n = 2 + o.data.len() as int;
    assert((seq![o] + rest).drop_first() =~= rest);
    assert(w.subrange(2, n) =~= o.data);
    assert(w.skip(n) =~= options_wire(rest));
}

/// How options are taken off the front of bytes, one at a time: the second
/// byte is the length with the two header bytes, and the next option starts
/// where it ends. The first length that does not fit ends the options.
pub proof fn law_every_option_is_read(buf: Seq<u8>)
    ensures
        ({
            let r = options_read(buf);
            if buf.len() < 2 || buf[1] < 2 || buf[1] > buf.len() {
                r.len() == 0
            } else {
                &&& r.len() > 0
                &&& r[0].kind == buf[0]
                &&& r[0].data == buf.subrange(2, buf[1] as int)
                &&& r.drop_first() == options_read(buf.skip(buf[1] as int))
            }
        }),
{
    if !(buf.len() < 2 || buf[1] < 2 || buf[1] > buf.len()) {
        assert(options_read(buf).drop_first() =~= options_read(buf.skip(buf[1] as int)));
    }
}

/// A suggested value replaces the first option of its type and touches no
/// other; where there is none of its type, nothing changes.
pub proof fn law_value_is_taken_over(opts: Seq<OptView>, s: OptView, i: int)
    requires
        0 <= i < opts.len(),
    ensures
        with_value(opts, s).len() == opts.len(),
        with_value(opts, s)[i] == if opts[i].kind == s.kind && (forall|j: int|
            0 <= j < i ==> (#[trigger] opts[j]).kind != s.kind) {
            s
        } else {
            opts[i]
        },
    decreases opts.len(),
{
    let rest = opts.drop_first();
    assert(forall|j: int| 0 <= j < rest.len() ==> #[trigger] rest[j] == opts[j + 1]);
    if opts[0].kind != s.kind {
        if rest.len() == 0 {
            assert(with_value(rest, s) == rest);
        } else if i > 0 {
            law_value_is_taken_over(rest, s, i - 1);
            if forall|j: int| 0 <= j < i - 1 ==> (#[trigger] rest[j]).kind != s.kind {
                assert forall|j: int| 0 <= j < i implies (#[trigger] opts[j]).kind != s.kind by {
                    if j > 0 {
                        assert(rest[j - 1] == opts[j]);
                    }
                }
            } else {
                let j = choose|j: int| 0 <= j < i - 1 && (#[trigger] rest[j]).kind == s.kind;
                assert(opts[j + 1].kind == s.kind);
            }
        } else {
            law_value_is_taken_over(rest, s, 0);
        }
    }
}

/// Suggested values are taken over one after the other.
pub proof fn law_values_are_taken_over_in_order(opts: Seq<OptView>, s: OptView, more: Seq<OptView>)
    ensures
        with_values(opts, Seq::empty()) == opts,
        with_values(opts, seq![s] + more) == with_values(with_value(opts, s), more),
{
    assert((seq![s] + more).drop_first() =~= more);
}

/// Whether an option is dropped depends on its type alone, and what is kept
/// keeps its order.
pub proof fn law_options_are_dropped_by_type(opts: Seq<OptView>, o: OptView, dropped: Seq<OptView>)
    ensures
        without_kinds(Seq::empty(), dropped) == Seq::<OptView>::empty(),
        without_kinds(opts.push(o), dropped) == if exists|i: int|
            0 <= i < dropped.len() && (#[trigger] dropped[i]).kind == o.kind {
            without_kinds(opts, dropped)
        } else {
            without_kinds(opts, dropped).push(o)
        },
{
    reveal(Seq::filter);
    assert(opts.push(o).drop_last() =~= opts);
    assert(without_kinds(Seq::empty(), dropped) =~= Seq::empty());
}

} // verus!
