//! The Link Control Protocol, the first phase of PPP: both sides propose
//! options and answer the proposals of the other. The transport is reliable
//! and ordered, so nothing is ever sent twice on a timer: the automaton is
//! driven by the frames that arrive.

use crate::cp;
use crate::cp::{Code, Opt};
use crate::entropy;
use crate::ppp;
use crate::wire;
use vstd::prelude::*;

verus! {

/// The largest packet a side accepts.
pub const OPT_MRU: u8 = 1;

/// The control characters a side wants escaped.
pub const OPT_ACCM: u8 = 2;

/// How a side wants the other to authenticate.
pub const OPT_AUTH_PROTOCOL: u8 = 3;

/// A random number by which a side recognises itself on a looped line.
pub const OPT_MAGIC_NUMBER: u8 = 5;

/// Whether the protocol number may be shortened.
pub const OPT_PFC: u8 = 7;

/// Whether the Address and Control prefix may be left out.
pub const OPT_ACFC: u8 = 8;

/// The algorithm byte of MS-CHAPv2 in the authentication option.
pub const CHAP_ALGORITHM_MSCHAPV2: u8 = 0x81;

/// How the peer wants this client to authenticate.
#[derive(Debug, Clone, Copy, PartialEq, Eq, Structural)]
pub struct PeerAuthRequirement {
    pub protocol: u16,
    pub algorithm: u8,
}

impl PeerAuthRequirement {
    /// Whether the requirement is MS-CHAPv2.
    pub open spec fn names_mschapv2(self) -> bool {
        self.protocol == ppp::Protocol::Chap.code() && self.algorithm == CHAP_ALGORITHM_MSCHAPV2
    }

    /// Whether the requirement is MS-CHAPv2.
    pub fn is_mschapv2(&self) -> (r: bool)
        ensures
            r == self.names_mschapv2(),
    {
        self.protocol == ppp::Protocol::Chap.to_u16() && self.algorithm == CHAP_ALGORITHM_MSCHAPV2
    }
}

/// What came of a received frame.
#[derive(Debug)]
pub struct LcpResult {
    /// Frames to send, in order.
    pub to_send: Vec<Vec<u8>>,
    /// Whether the link is open in both directions.
    pub up: bool,
}

impl Default for LcpResult {
    fn default() -> (r: LcpResult)
        ensures
            r.to_send@.len() == 0,
            !r.up,
    {
        LcpResult { to_send: Vec::new(), up: false }
    }
}

/// The negotiation of one link.
pub struct Lcp {
    identifier: u8,
    magic: u32,
    desired: Vec<Opt>,
    last_sent_id: Option<u8>,
    local_up: bool,
    remote_up: bool,
    peer_auth: Option<PeerAuthRequirement>,
}

/// The state of a negotiation.
#[verifier::ext_equal]
pub struct LcpView {
    /// The identifier of the last frame this side numbered.
    pub identifier: u8,
    /// This side's magic number.
    pub magic: u32,
    /// The options this side proposes.
    pub desired: Seq<cp::OptView>,
    /// The identifier of this side's last proposal.
    pub last_sent_id: Option<u8>,
    /// Whether the peer has accepted this side's last proposal.
    pub local_up: bool,
    /// Whether this side has accepted the peer's last proposal.
    pub remote_up: bool,
    /// The authentication the peer asked for in a proposal that this side
    /// accepted.
    pub peer_auth: Option<PeerAuthRequirement>,
}

impl View for Lcp {
    type V = LcpView;

    closed spec fn view(&self) -> LcpView {
        LcpView {
            identifier: self.identifier,
            magic: self.magic,
            desired: cp::opts_view(self.desired@),
            last_sent_id: self.last_sent_id,
            local_up: self.local_up,
            remote_up: self.remote_up,
            peer_auth: self.peer_auth,
        }
    }
}

/// A negotiation that has not started.
pub open spec fn fresh(magic: u32) -> LcpView {
    LcpView {
        identifier: 0,
        magic,
        desired: seq![
            cp::OptView { kind: OPT_MAGIC_NUMBER, data: wire::be32(magic) },
            cp::OptView { kind: OPT_PFC, data: Seq::empty() },
            cp::OptView { kind: OPT_ACFC, data: Seq::empty() },
        ],
        last_sent_id: None,
        local_up: false,
        remote_up: false,
        peer_auth: None,
    }
}

/// The next identifier, which wraps around.
pub open spec fn next_id(id: u8) -> u8 {
    if id == 0xff {
        0
    } else {
        (id + 1) as u8
    }
}

impl LcpView {
    /// Whether the link is open in both directions.
    pub open spec fn is_open(self) -> bool {
        self.local_up && self.remote_up
    }

    /// The state after this side has sent its proposal.
    pub open spec fn requested(self) -> LcpView {
        LcpView {
            identifier: next_id(self.identifier),
            last_sent_id: Some(next_id(self.identifier)),
            ..self
        }
    }

    /// The proposal that this side sends next.
    pub open spec fn request_wire(self) -> Seq<u8> {
        cp::frame_wire(
            Code::ConfigureRequest,
            next_id(self.identifier),
            cp::options_wire(self.desired),
        )
    }

    /// The state after the peer suggested one other value.
    pub open spec fn suggested_one(self, s: cp::OptView) -> LcpView {
        LcpView {
            desired: cp::with_value(self.desired, s),
            magic: if s.kind == OPT_MAGIC_NUMBER && s.data.len() == 4 {
                wire::be32_value(s.data)
            } else {
                self.magic
            },
            ..self
        }
    }

    /// The state after the peer suggested other values.
    pub open spec fn suggested(self, opts: Seq<cp::OptView>) -> LcpView
        decreases opts.len(),
    {
        if opts.len() == 0 {
            self
        } else {
            self.suggested_one(opts[0]).suggested(opts.drop_first())
        }
    }
}

/// Whether an option asks for MS-CHAPv2.
pub open spec fn asks_mschapv2(o: cp::OptView) -> bool {
    &&& o.kind == OPT_AUTH_PROTOCOL
    &&& o.data.len() >= 3
    &&& wire::be16_value(o.data[0], o.data[1]) == ppp::Protocol::Chap.code()
    &&& o.data[2] == CHAP_ALGORITHM_MSCHAPV2
}

/// Whether an option carries this side's own magic number, as on a looped line.
pub open spec fn is_loopback(magic: u32, o: cp::OptView) -> bool {
    o.kind == OPT_MAGIC_NUMBER && o.data.len() == 4 && wire::be32_value(o.data) == magic
}

/// Whether an option is one this side knows and is long enough to be read.
pub open spec fn is_readable(o: cp::OptView) -> bool {
    if o.kind == OPT_MAGIC_NUMBER {
        o.data.len() == 4
    } else if o.kind == OPT_AUTH_PROTOCOL {
        o.data.len() >= 2
    } else {
        o.kind == OPT_PFC || o.kind == OPT_ACFC || o.kind == OPT_MRU || o.kind == OPT_ACCM
    }
}

/// The options that this side rejects.
pub open spec fn rejected(opts: Seq<cp::OptView>) -> Seq<cp::OptView> {
    opts.filter(|o: cp::OptView| !is_readable(o))
}

/// How many random numbers an answer needs: one for each looped magic number.
pub open spec fn loopbacks(magic: u32, opts: Seq<cp::OptView>) -> nat
    decreases opts.len(),
{
    if opts.len() == 0 {
        0
    } else {
        loopbacks(magic, opts.drop_last()) + if is_loopback(magic, opts.last()) {
            1nat
        } else {
            0nat
        }
    }
}

/// The option by which this side asks for MS-CHAPv2.
pub open spec fn mschapv2_option() -> cp::OptView {
    cp::OptView {
        kind: OPT_AUTH_PROTOCOL,
        data: wire::be16(ppp::Protocol::Chap.code() as nat) + seq![CHAP_ALGORITHM_MSCHAPV2],
    }
}

/// The values that this side suggests instead: a random magic number for each
/// looped one, and MS-CHAPv2 for any other authentication.
pub open spec fn counter_offers(
    magic: u32,
    opts: Seq<cp::OptView>,
    draws: Seq<u32>,
) -> Seq<cp::OptView>
    decreases opts.len(),
{
    if opts.len() == 0 {
        Seq::empty()
    } else {
        let before = counter_offers(magic, opts.drop_last(), draws);
        let o = opts.last();
        if is_loopback(magic, o) {
            let n = draws[loopbacks(magic, opts.drop_last()) as int];
            before.push(cp::OptView { kind: OPT_MAGIC_NUMBER, data: wire::be32(n) })
        } else if o.kind == OPT_AUTH_PROTOCOL && o.data.len() >= 2 && !asks_mschapv2(o) {
            before.push(mschapv2_option())
        } else {
            before
        }
    }
}

/// The authentication on record after this side accepted `opts` of the peer.
pub open spec fn recorded_auth(
    before: Option<PeerAuthRequirement>,
    opts: Seq<cp::OptView>,
) -> Option<PeerAuthRequirement> {
    if exists|i: int| 0 <= i < opts.len() && asks_mschapv2(#[trigger] opts[i]) {
        Some(
            PeerAuthRequirement {
                protocol: ppp::Protocol::Chap.code(),
                algorithm: CHAP_ALGORITHM_MSCHAPV2,
            },
        )
    } else {
        before
    }
}

/// How many random numbers the answer to a frame needs.
pub open spec fn draws_for(s: LcpView, data: Seq<u8>) -> nat {
    match cp::frame_read(data) {
        Some(f) => if f.code == Code::ConfigureRequest {
            loopbacks(s.magic, cp::options_read(f.data))
        } else {
            0
        },
        None => 0,
    }
}

/// The answer to a proposal of the peer, and the state after it.
pub open spec fn answered(s: LcpView, f: cp::FrameView, draws: Seq<u32>) -> (
    LcpView,
    Seq<Seq<u8>>,
) {
    let opts = cp::options_read(f.data);
    let nak = counter_offers(s.magic, opts, draws);
    if rejected(opts).len() > 0 {
        (
            LcpView { remote_up: false, ..s },
            seq![cp::frame_wire(Code::ConfigureReject, f.id, cp::options_wire(rejected(opts)))],
        )
    } else if nak.len() > 0 {
        (
            LcpView { remote_up: false, ..s },
            seq![cp::frame_wire(Code::ConfigureNak, f.id, cp::options_wire(nak))],
        )
    } else {
        (
            LcpView {
                remote_up: true,
                peer_auth: recorded_auth(s.peer_auth, opts),
                ..s
            },
            seq![cp::frame_wire(Code::ConfigureAck, f.id, f.data)],
        )
    }
}

/// What a received frame does: the state after it, and the frames to send.
pub open spec fn step(s: LcpView, data: Seq<u8>, draws: Seq<u32>) -> (LcpView, Seq<Seq<u8>>) {
    match cp::frame_read(data) {
        None => (s, Seq::empty()),
        Some(f) => match f.code {
            Code::ConfigureRequest => answered(s, f, draws),
            Code::ConfigureAck => if s.last_sent_id == Some(f.id) {
                (LcpView { local_up: true, ..s }, Seq::empty())
            } else {
                (s, Seq::empty())
            },
            Code::ConfigureNak => if s.last_sent_id == Some(f.id) {
                let t = LcpView { local_up: false, ..s.suggested(cp::options_read(f.data)) };
                (t.requested(), seq![t.request_wire()])
            } else {
                (s, Seq::empty())
            },
            Code::ConfigureReject => if s.last_sent_id == Some(f.id) {
                let t = LcpView {
                    local_up: false,
                    desired: cp::without_kinds(s.desired, cp::options_read(f.data)),
                    ..s
                };
                (t.requested(), seq![t.request_wire()])
            } else {
                (s, Seq::empty())
            },
            Code::EchoRequest => (
                s,
                seq![
                    cp::frame_wire(
                        Code::EchoReply,
                        f.id,
                        wire::be32(s.magic) + if f.data.len() > 4 {
                            f.data.skip(4)
                        } else {
                            Seq::empty()
                        },
                    ),
                ],
            ),
            Code::TerminateRequest => (
                LcpView { local_up: false, remote_up: false, ..s },
                seq![cp::frame_wire(Code::TerminateAck, f.id, Seq::empty())],
            ),
            _ => (s, Seq::empty()),
        },
    }
}

/// Whether an option asks for MS-CHAPv2.
fn names_mschapv2_option(opt: &Opt) -> (r: bool)
    ensures
        r == asks_mschapv2(opt@),
{
    opt.kind == OPT_AUTH_PROTOCOL && opt.data.len() >= 3 && wire::read_be16(
        opt.data[0],
        opt.data[1],
    ) == ppp::Protocol::Chap.to_u16() && opt.data[2] == CHAP_ALGORITHM_MSCHAPV2
}

/// Whether some option asks for MS-CHAPv2.
fn wants_mschapv2(opts: &[Opt]) -> (r: bool)
    ensures
        r == exists|i: int|
            0 <= i < opts@.len() && asks_mschapv2(#[trigger] cp::opts_view(opts@)[i]),
{
    let mut i: usize = 0;
    while i < opts.len()
        invariant
            i <= opts@.len(),
            forall|j: int| 0 <= j < i ==> !asks_mschapv2(#[trigger] cp::opts_view(opts@)[j]),
        decreases opts@.len() - i,
    {
        if names_mschapv2_option(&opts[i]) {
            proof {
                assert(asks_mschapv2(cp::opts_view(opts@)[i as int]));
            }
            return true;
        }
        i += 1;
    }
    false
}

impl Lcp {
    /// A negotiation under a random magic number.
    pub fn new() -> (l: Lcp)
        ensures
            l@ == fresh(l@.magic),
    {
        Lcp::with_magic(entropy::random_u32())
    }

    /// A negotiation under the given magic number.
    pub fn with_magic(magic: u32) -> (l: Lcp)
        ensures
            l@ == fresh(magic),
    {
        let number = wire::be32_bytes(magic);
        let mut desired: Vec<Opt> = Vec::new();
        desired.push(Opt::new(OPT_MAGIC_NUMBER, number.as_slice()));
        desired.push(Opt { kind: OPT_PFC, data: Vec::new() });
        desired.push(Opt { kind: OPT_ACFC, data: Vec::new() });
        let l = Lcp {
            identifier: 0,
            magic,
            desired,
            last_sent_id: None,
            local_up: false,
            remote_up: false,
            peer_auth: None,
        };
        proof {
            assert(l@.desired =~= fresh(magic).desired);
        }
        l
    }

    /// Whether the link is open in both directions.
    pub fn is_up(&self) -> (r: bool)
        ensures
            r == self@.is_open(),
    {
        self.local_up && self.remote_up
    }

    /// The authentication the peer asked for, once this side has accepted a
    /// proposal that asks for one.
    pub fn peer_auth_requirement(&self) -> (r: Option<PeerAuthRequirement>)
        ensures
            r == self@.peer_auth,
    {
        self.peer_auth
    }

    /// Sends the first proposal.
    pub fn start(&mut self) -> (out: Vec<u8>)
        ensures
            final(self)@ == old(self)@.requested(),
            out@ == old(self)@.request_wire(),
    {
        self.send_config_request()
    }

    fn send_config_request(&mut self) -> (out: Vec<u8>)
        ensures
            final(self)@ == old(self)@.requested(),
            out@ == old(self)@.request_wire(),
    {
        self.identifier = self.identifier.wrapping_add(1);
        self.last_sent_id = Some(self.identifier);
        let data = cp::encode_options(self.desired.as_slice());
        cp::encode(Code::ConfigureRequest, self.identifier, data.as_slice())
    }

    /// How many random numbers the answer to a frame needs.
    pub fn draws_needed(&self, data: &[u8]) -> (n: usize)
        ensures
            n == draws_for(self@, data@),
    {
        let frame = match cp::decode(data) {
            Some(f) => f,
            None => return 0,
        };
        if frame.code != Code::ConfigureRequest {
            return 0;
        }
        let opts = cp::decode_options(frame.data.as_slice());
        let ghost all = cp::opts_view(opts@);
        let mut n: usize = 0;
        let mut i: usize = 0;
        while i < opts.len()
            invariant
                n <= i <= opts@.len(),
                all == cp::opts_view(opts@),
                n == loopbacks(self@.magic, all.take(i as int)),
            decreases opts@.len() - i,
        {
            proof {
                assert(all.take(i + 1).drop_last() =~= all.take(i as int));
            }
            if opts[i].kind == OPT_MAGIC_NUMBER && opts[i].data.len() == 4 && wire::read_be32(
                opts[i].data.as_slice(),
            ) == self.magic {
                n += 1;
            }
            i += 1;
        }
        proof {
            assert(all.take(i as int) =~= all);
        }
        n
    }

    /// Takes in a received frame. The random numbers of the answer are drawn
    /// here.
    pub fn receive(&mut self, data: &[u8]) -> (r: LcpResult)
        ensures
            r.up == final(self)@.is_open(),
            exists|draws: Seq<u32>|
                draws.len() == draws_for(old(self)@, data@) && (
                final(self)@,
                wire::strings_view(r.to_send@),
                ) == #[trigger] step(old(self)@, data@, draws),
    {
        let count: usize = self.draws_needed(data);
        let draws = entropy::random_numbers(count);
        self.receive_with(data, draws.as_slice())
    }

    /// Takes in a received frame, with the random numbers of the answer given.
    pub fn receive_with(&mut self, data: &[u8], draws: &[u32]) -> (r: LcpResult)
        requires
            draws@.len() == draws_for(old(self)@, data@),
        ensures
            r.up == final(self)@.is_open(),
            (final(self)@, wire::strings_view(r.to_send@)) == step(old(self)@, data@, draws@),
    {
        let mut to_send: Vec<Vec<u8>> = Vec::new();
        let frame = match cp::decode(data) {
            Some(f) => f,
            None => {
                proof {
                    assert(wire::strings_view(to_send@) =~= Seq::<Seq<u8>>::empty());
                }
                return LcpResult { to_send, up: self.is_up() };
            },
        };
        let ghost s = self@;
        match frame.code {
            Code::ConfigureRequest => {
                let peer_opts = cp::decode_options(frame.data.as_slice());
                let (nak, reject) = self.evaluate_peer_options(peer_opts.as_slice(), draws);
                if reject.len() > 0 {
                    let body = cp::encode_options(reject.as_slice());
                    to_send.push(cp::encode(Code::ConfigureReject, frame.id, body.as_slice()));
                    self.remote_up = false;
                } else if nak.len() > 0 {
                    let body = cp::encode_options(nak.as_slice());
                    to_send.push(cp::encode(Code::ConfigureNak, frame.id, body.as_slice()));
                    self.remote_up = false;
                } else {
                    to_send.push(
                        cp::encode(Code::ConfigureAck, frame.id, frame.data.as_slice()),
                    );
                    self.remote_up = true;
                    if wants_mschapv2(peer_opts.as_slice()) {
                        self.peer_auth = Some(
                            PeerAuthRequirement {
                                protocol: ppp::Protocol::Chap.to_u16(),
                                algorithm: CHAP_ALGORITHM_MSCHAPV2,
                            },
                        );
                    }
                }
            },
            Code::ConfigureAck => {
                if self.last_sent_id == Some(frame.id) {
                    self.local_up = true;
                }
            },
            Code::ConfigureNak => {
                if self.last_sent_id == Some(frame.id) {
                    let opts = cp::decode_options(frame.data.as_slice());
                    self.apply_nak(opts.as_slice());
                    self.local_up = false;
                    to_send.push(self.send_config_request());
                }
            },
            Code::ConfigureReject => {
                if self.last_sent_id == Some(frame.id) {
                    let opts = cp::decode_options(frame.data.as_slice());
                    cp::drop_kinds(&mut self.desired, opts.as_slice());
                    self.local_up = false;
                    to_send.push(self.send_config_request());
                }
            },
            Code::EchoRequest => {
                let number = wire::be32_bytes(self.magic);
                let mut reply: Vec<u8> = vstd::slice::slice_to_vec(number.as_slice());
                if frame.data.len() > 4 {
                    let rest = &frame.data.as_slice()[4..frame.data.len()];
                    wire::append(&mut reply, rest);
                    proof {
                        assert(rest@ =~= frame.data@.skip(4));
                    }
                }
                proof {
                    assert(reply@ =~= wire::be32(s.magic) + if frame.data@.len() > 4 {
                        frame.data@.skip(4)
                    } else {
                        Seq::empty()
                    });
                }
                to_send.push(cp::encode(Code::EchoReply, frame.id, reply.as_slice()));
            },
            Code::TerminateRequest => {
                let nothing: Vec<u8> = Vec::new();
                to_send.push(cp::encode(Code::TerminateAck, frame.id, nothing.as_slice()));
                self.local_up = false;
                self.remote_up = false;
            },
            _ => {},
        }
        proof {
            assert(wire::strings_view(to_send@) =~= step(s, data@, draws@).1);
            assert(self@ =~= step(s, data@, draws@).0);
        }
        LcpResult { to_send, up: self.is_up() }
    }

    /// Builds a Protocol-Reject for a frame of a protocol that this client
    /// does not speak. `protocol_and_payload` is that frame from its protocol
    /// number on.
    pub fn build_protocol_reject(&mut self, protocol_and_payload: &[u8]) -> (out: Vec<u8>)
        ensures
            final(self)@ == (LcpView { identifier: next_id(old(self)@.identifier), ..old(self)@ }),
            out@ == cp::frame_wire(
                Code::ProtocolReject,
                next_id(old(self)@.identifier),
                protocol_and_payload@,
            ),
    {
        self.identifier = self.identifier.wrapping_add(1);
        cp::encode(Code::ProtocolReject, self.identifier, protocol_and_payload)
    }

    /// Sorts the options that the peer proposed: the values to suggest
    /// instead, and the options to reject.
    fn evaluate_peer_options(&self, opts: &[Opt], draws: &[u32]) -> (r: (Vec<Opt>, Vec<Opt>))
        requires
            draws@.len() == loopbacks(self@.magic, cp::opts_view(opts@)),
        ensures
            cp::opts_view(r.0@) == counter_offers(self@.magic, cp::opts_view(opts@), draws@),
            cp::opts_view(r.1@) == rejected(cp::opts_view(opts@)),
    {
        let ghost all = cp::opts_view(opts@);
        let ghost bad = |o: cp::OptView| !is_readable(o);
        let mut nak: Vec<Opt> = Vec::new();
        let mut reject: Vec<Opt> = Vec::new();
        let mut drawn: usize = 0;
        let mut i: usize = 0;
        proof {
            reveal(Seq::filter);
            assert(cp::opts_view(nak@) =~= Seq::empty());
            assert(cp::opts_view(reject@) =~= all.take(0).filter(bad));
        }
        while i < opts.len()
            invariant
                i <= opts@.len(),
                all == cp::opts_view(opts@),
                bad == (|o: cp::OptView| !is_readable(o)),
                draws@.len() == loopbacks(self@.magic, all),
                drawn == loopbacks(self@.magic, all.take(i as int)),
                cp::opts_view(nak@) == counter_offers(self@.magic, all.take(i as int), draws@),
                cp::opts_view(reject@) == all.take(i as int).filter(bad),
            decreases opts@.len() - i,
        {
            let ghost nak0 = nak@;
            let ghost reject0 = reject@;
            let ghost o = all[i as int];
            proof {
                reveal(Seq::filter);
                assert(all.take(i + 1).drop_last() =~= all.take(i as int));
                assert(all.take(i + 1).last() == o);
                lemma_loopbacks_grow(self@.magic, all, i as int);
            }
            let opt = &opts[i];
            if opt.kind == OPT_MAGIC_NUMBER {
                if opt.data.len() != 4 {
                    reject.push(opt.clone());
                } else if wire::read_be32(opt.data.as_slice()) == self.magic {
                    let number = wire::be32_bytes(draws[drawn]);
                    nak.push(Opt::new(OPT_MAGIC_NUMBER, number.as_slice()));
                    drawn += 1;
                }
            } else if opt.kind == OPT_AUTH_PROTOCOL {
                if opt.data.len() < 2 {
                    reject.push(opt.clone());
                } else if !names_mschapv2_option(opt) {
                    let mut data: Vec<u8> = Vec::new();
                    wire::push_be16(&mut data, ppp::Protocol::Chap.to_u16() as usize);
                    data.push(CHAP_ALGORITHM_MSCHAPV2);
                    nak.push(Opt { kind: OPT_AUTH_PROTOCOL, data });
                    proof {
                        assert(nak@.last()@ =~= mschapv2_option());
                    }
                }
            } else if opt.kind == OPT_PFC || opt.kind == OPT_ACFC || opt.kind == OPT_MRU || opt.kind
                == OPT_ACCM {
            } else {
                reject.push(opt.clone());
            }
            proof {
                if nak@.len() > nak0.len() {
                    assert(cp::opts_view(nak@) =~= cp::opts_view(nak0).push(nak@.last()@));
                }
                if reject@.len() > reject0.len() {
                    assert(cp::opts_view(reject@) =~= cp::opts_view(reject0).push(o));
                }
                assert(cp::opts_view(reject@) =~= all.take(i + 1).filter(bad));
                assert(cp::opts_view(nak@) =~= counter_offers(self@.magic, all.take(i + 1), draws@));
            }
            i += 1;
        }
        proof {
            assert(all.take(i as int) =~= all);
        }
        (nak, reject)
    }

    /// Takes over the values that the peer suggested.
    fn apply_nak(&mut self, suggested: &[Opt])
        ensures
            final(self)@ == old(self)@.suggested(cp::opts_view(suggested@)),
    {
        let ghost all = cp::opts_view(suggested@);
        let mut i: usize = 0;
        proof {
            assert(all.skip(0) =~= all);
        }
        while i < suggested.len()
            invariant
                i <= suggested@.len(),
                all == cp::opts_view(suggested@),
                old(self)@.suggested(all) == self@.suggested(all.skip(i as int)),
            decreases suggested@.len() - i,
        {
            let ghost before = self@;
            proof {
                assert(all.skip(i as int)[0] == all[i as int]);
                assert(all.skip(i as int).drop_first() =~= all.skip(i + 1));
            }
            let s = &suggested[i];
            cp::set_value(&mut self.desired, s);
            if s.kind == OPT_MAGIC_NUMBER && s.data.len() == 4 {
                self.magic = wire::read_be32(s.data.as_slice());
            }
            proof {
                assert(self@ =~= before.suggested_one(all[i as int]));
            }
            i += 1;
        }
    }
}

impl Default for Lcp {
    fn default() -> (l: Lcp)
        ensures
            l@ == fresh(l@.magic),
    {
        Lcp::new()
    }
}

proof fn lemma_loopbacks_grow(magic: u32, opts: Seq<cp::OptView>, i: int)
    requires
        0 <= i < opts.len(),
    ensures
        loopbacks(magic, opts.take(i)) + if is_loopback(magic, opts[i]) {
            1nat
        } else {
            0nat
        } <= loopbacks(magic, opts),
    decreases opts.len(),
{
    if i == opts.len() - 1 {
        assert(opts.take(i) =~= opts.drop_last());
    } else {
        lemma_loopbacks_grow(magic, opts.drop_last(), i);
        assert(opts.drop_last().take(i) =~= opts.take(i));
    }
}

/// Only MS-CHAPv2 is ever on record as the authentication the peer wants.
pub open spec fn records_only_mschapv2(s: LcpView) -> bool {
    s.peer_auth matches Some(a) ==> a.names_mschapv2()
}

/// No frame makes anything but MS-CHAPv2 the authentication on record.
pub proof fn law_only_mschapv2_is_recorded(
    s: LcpView,
    magic: u32,
    data: Seq<u8>,
    draws: Seq<u32>,
)
    requires
        records_only_mschapv2(s),
    ensures
        records_only_mschapv2(fresh(magic)),
        records_only_mschapv2(s.requested()),
        records_only_mschapv2(step(s, data, draws).0),
{
    if let Some(f) = cp::frame_read(data) {
        lemma_suggestions_change_offers_only(s, cp::options_read(f.data));
    }
}

proof fn lemma_suggestions_change_offers_only(s: LcpView, opts: Seq<cp::OptView>)
    ensures
        s.suggested(opts) == (LcpView {
            desired: cp::with_values(s.desired, opts),
            magic: s.suggested(opts).magic,
            ..s
        }),
    decreases opts.len(),
{
    if opts.len() > 0 {
        lemma_suggestions_change_offers_only(s.suggested_one(opts[0]), opts.drop_first());
    }
}

/// The link opens only on an answer to this side's last proposal or on an
/// accepted proposal of the peer.
pub proof fn law_opens_only_on_agreement(s: LcpView, data: Seq<u8>, draws: Seq<u32>)
    requires
        !s.is_open(),
        step(s, data, draws).0.is_open(),
    ensures
        cp::frame_read(data) matches Some(f) && {
            ||| f.code == Code::ConfigureAck && s.last_sent_id == Some(f.id) && s.remote_up
            ||| f.code == Code::ConfigureRequest && s.local_up && step(s, data, draws).1 == seq![
                cp::frame_wire(Code::ConfigureAck, f.id, f.data),
            ]
        },
{
    if let Some(f) = cp::frame_read(data) {
        lemma_suggestions_change_offers_only(s, cp::options_read(f.data));
    }
}

/// An answer to anything but this side's last proposal changes nothing.
pub proof fn law_stale_answers_are_ignored(
    s: LcpView,
    f: cp::FrameView,
    data: Seq<u8>,
    draws: Seq<u32>,
)
    requires
        cp::frame_read(data) == Some(f),
        f.code == Code::ConfigureAck || f.code == Code::ConfigureNak || f.code
            == Code::ConfigureReject,
        s.last_sent_id != Some(f.id),
    ensures
        step(s, data, draws) == (s, Seq::<Seq<u8>>::empty()),
{
}

/// A request to terminate is acknowledged and closes the link.
pub proof fn law_terminate_closes(s: LcpView, id: u8, data: Seq<u8>, draws: Seq<u32>)
    requires
        data.len() <= 0xfffb,
    ensures
        ({
            let (t, out) = step(s, cp::frame_wire(Code::TerminateRequest, id, data), draws);
            !t.is_open() && out == seq![cp::frame_wire(Code::TerminateAck, id, Seq::empty())]
        }),
{
    cp::law_frame_round_trip(Code::TerminateRequest, id, data, Seq::empty());
    let wire = cp::frame_wire(Code::TerminateRequest, id, data);
    assert(wire + Seq::<u8>::empty() =~= wire);
}

/// An echo request is answered with this side's magic number and what
/// followed the peer's, and changes nothing.
pub proof fn law_echo_carries_own_magic(s: LcpView, id: u8, data: Seq<u8>, draws: Seq<u32>)
    requires
        4 <= data.len() <= 0xfffb,
    ensures
        step(s, cp::frame_wire(Code::EchoRequest, id, data), draws) == (
            s,
            seq![cp::frame_wire(Code::EchoReply, id, wire::be32(s.magic) + data.skip(4))],
        ),
{
    cp::law_frame_round_trip(Code::EchoRequest, id, data, Seq::empty());
    let wire = cp::frame_wire(Code::EchoRequest, id, data);
    assert(wire + Seq::<u8>::empty() =~= wire);
    assert(data.len() == 4 ==> data.skip(4) =~= Seq::<u8>::empty());
}

/// After the peer rejects options, the next proposal holds none of them.
pub proof fn law_rejected_options_are_dropped(
    s: LcpView,
    f: cp::FrameView,
    data: Seq<u8>,
    draws: Seq<u32>,
)
    requires
        cp::frame_read(data) == Some(f),
        f.code == Code::ConfigureReject,
        s.last_sent_id == Some(f.id),
    ensures
        ({
            let (t, out) = step(s, data, draws);
            &&& out == seq![
                cp::frame_wire(
                    Code::ConfigureRequest,
                    next_id(s.identifier),
                    cp::options_wire(t.desired),
                ),
            ]
            &&& forall|o: cp::OptView| #[trigger]
                t.desired.contains(o) <==> s.desired.contains(o) && !cp::mentions(
                    cp::options_read(f.data),
                    o.kind,
                )
        }),
{
    cp::law_rejected_kinds_are_gone(s.desired, cp::options_read(f.data));
}

/// A magic number that the peer suggests is taken over and proposed next.
pub proof fn law_suggested_magic_is_adopted(s: LcpView, magic: u32, id: u8, draws: Seq<u32>)
    requires
        s.last_sent_id == Some(id),
        s.desired.len() > 0,
        s.desired[0].kind == OPT_MAGIC_NUMBER,
    ensures
        ({
            let offer = cp::OptView { kind: OPT_MAGIC_NUMBER, data: wire::be32(magic) };
            let (t, out) = step(
                s,
                cp::frame_wire(Code::ConfigureNak, id, cp::options_wire(seq![offer])),
                draws,
            );
            &&& t.magic == magic
            &&& t.desired == seq![offer] + s.desired.drop_first()
            &&& out == seq![
                cp::frame_wire(
                    Code::ConfigureRequest,
                    next_id(s.identifier),
                    cp::options_wire(t.desired),
                ),
            ]
        }),
{
    let offer = cp::OptView { kind: OPT_MAGIC_NUMBER, data: wire::be32(magic) };
    wire::law_be32_round_trip(magic);
    cp::lemma_frame_of_one_option(Code::ConfigureNak, id, offer);
    assert(seq![offer].drop_first() =~= Seq::empty());
    assert(s.suggested(seq![offer]) == s.suggested_one(offer).suggested(Seq::empty()));
}

/// Every proposal of the peer gets exactly one answer, under its identifier:
/// a rejection where an option is unknown or unreadable, else a suggestion
/// where there is one, else an acknowledgement of the very bytes sent.
pub proof fn law_every_proposal_is_answered(
    s: LcpView,
    f: cp::FrameView,
    data: Seq<u8>,
    draws: Seq<u32>,
)
    requires
        cp::frame_read(data) == Some(f),
        f.code == Code::ConfigureRequest,
    ensures
        step(s, data, draws).1.len() == 1,
        step(s, data, draws).0.remote_up <==> step(s, data, draws).1[0] == cp::frame_wire(
            Code::ConfigureAck,
            f.id,
            f.data,
        ),
        step(s, data, draws).0.remote_up <==> forall|i: int|
            0 <= i < cp::options_read(f.data).len() ==> {
                let o = #[trigger] cp::options_read(f.data)[i];
                is_readable(o) && !is_loopback(s.magic, o) && (o.kind == OPT_AUTH_PROTOCOL
                    ==> asks_mschapv2(o))
            },
{
    let opts = cp::options_read(f.data);
    let bad = |o: cp::OptView| !is_readable(o);
    let (t, out) = step(s, data, draws);
    lemma_offers_empty(s.magic, opts, draws);
    if rejected(opts).len() == 0 {
        assert forall|i: int| 0 <= i < opts.len() implies is_readable(#[trigger] opts[i]) by {
            if bad(opts[i]) {
                opts.lemma_filter_contains(bad, i);
            }
        }
    } else {
        let o = rejected(opts)[0];
        opts.lemma_filter_pred(bad, 0);
        opts.lemma_filter_contains_rev(bad, o);
        let i = choose|i: int| 0 <= i < opts.len() && opts[i] == o;
        assert(!is_readable(opts[i]));
    }
    assert(out[0][0] == Code::ConfigureAck.code() <==> t.remote_up);
    assert(cp::frame_wire(Code::ConfigureAck, f.id, f.data)[0] == Code::ConfigureAck.code());
}

/// A proposal that this side does not acknowledge leaves the authentication on
/// record as it was.
pub proof fn law_unaccepted_authentication_is_not_recorded(
    s: LcpView,
    f: cp::FrameView,
    data: Seq<u8>,
    draws: Seq<u32>,
)
    requires
        cp::frame_read(data) == Some(f),
        f.code == Code::ConfigureRequest,
        step(s, data, draws).1 != seq![cp::frame_wire(Code::ConfigureAck, f.id, f.data)],
    ensures
        step(s, data, draws).0.peer_auth == s.peer_auth,
{
}

/// A proposal that this side acknowledges and that asks for MS-CHAPv2 puts it
/// on record.
pub proof fn law_accepted_authentication_is_recorded(
    s: LcpView,
    f: cp::FrameView,
    data: Seq<u8>,
    draws: Seq<u32>,
    i: int,
)
    requires
        cp::frame_read(data) == Some(f),
        f.code == Code::ConfigureRequest,
        step(s, data, draws).0.remote_up,
        0 <= i < cp::options_read(f.data).len(),
        asks_mschapv2(cp::options_read(f.data)[i]),
    ensures
        step(s, data, draws).0.peer_auth matches Some(a) && a.names_mschapv2(),
{
}

proof fn lemma_offers_empty(magic: u32, opts: Seq<cp::OptView>, draws: Seq<u32>)
    ensures
        counter_offers(magic, opts, draws).len() == 0 <==> forall|i: int|
            0 <= i < opts.len() ==> {
                let o = #[trigger] opts[i];
                !is_loopback(magic, o) && !(o.kind == OPT_AUTH_PROTOCOL && o.data.len() >= 2
                    && !asks_mschapv2(o))
            },
    decreases opts.len(),
{
    if opts.len() > 0 {
        let front = opts.drop_last();
        lemma_offers_empty(magic, front, draws);
        assert(forall|i: int| 0 <= i < front.len() ==> front[i] == #[trigger] opts[i]);
        assert(opts.last() == opts[opts.len() - 1]);
        if counter_offers(magic, front, draws).len() > 0 {
            let i = choose|i: int|
                0 <= i < front.len() && {
                    let o = #[trigger] front[i];
                    !(!is_loopback(magic, o) && !(o.kind == OPT_AUTH_PROTOCOL && o.data.len() >= 2
                        && !asks_mschapv2(o)))
                };
            assert(opts[i] == front[i]);
        }
    }
}

/// Identifiers count up by one and wrap around.
pub proof fn law_identifiers_count_up(id: u8)
    ensures
        next_id(id) as int == (id + 1) % 256,
{
}

/// The first proposal of a session, byte for byte: a Configure-Request with
/// identifier 1 that offers the magic number and both compressions. Before it,
/// nothing is agreed on.
pub proof fn law_first_proposal(magic: u32)
    ensures
        fresh(magic).request_wire() == seq![1u8, 1, 0, 14, 5, 6] + wire::be32(magic) + seq![
            7u8,
            2,
            8,
            2,
        ],
        fresh(magic).magic == magic,
        fresh(magic).requested().last_sent_id == Some(1u8),
        fresh(magic).last_sent_id is None,
        !fresh(magic).local_up && !fresh(magic).remote_up,
        fresh(magic).peer_auth is None,
{
    let s = fresh(magic);
    let d = s.desired;
    let tail = d.drop_first();
    let last = tail.drop_first();
    assert(last.drop_first() =~= Seq::empty());
    assert(cp::options_wire(last.drop_first()) =~= Seq::empty());
    assert(cp::options_wire(last) =~= seq![8u8, 2u8]);
    assert(cp::options_wire(tail) =~= seq![7u8, 2u8, 8u8, 2u8]);
    assert(cp::options_wire(d) =~= seq![5u8, 6u8] + wire::be32(magic) + seq![7u8, 2u8, 8u8, 2u8]);
    assert(s.request_wire() =~= seq![1u8, 1, 0, 14, 5, 6] + wire::be32(magic) + seq![
        7u8,
        2,
        8,
        2,
    ]);
}

/// A proposal carries the next identifier and reads back as the options that
/// this side wants; sending it records that identifier and changes nothing
/// else.
pub proof fn law_proposals_read_back(s: LcpView)
    requires
        forall|i: int| 0 <= i < s.desired.len() ==> (#[trigger] s.desired[i]).data.len() <= 253,
        cp::options_wire(s.desired).len() <= 0xfffb,
    ensures
        ({
            let id = ((s.identifier + 1) % 256) as u8;
            let t = s.requested();
            &&& cp::frame_read(s.request_wire()) matches Some(f) && f.code == Code::ConfigureRequest
                && f.id == id && cp::options_read(f.data) == s.desired
            &&& t.identifier == id
            &&& t.last_sent_id == Some(id)
            &&& t.magic == s.magic
            &&& t.desired == s.desired
            &&& t.local_up == s.local_up
            &&& t.remote_up == s.remote_up
            &&& t.peer_auth == s.peer_auth
        }),
{
    let data = cp::options_wire(s.desired);
    let id = next_id(s.identifier);
    assert(id == ((s.identifier + 1) % 256) as u8);
    let w = cp::frame_wire(Code::ConfigureRequest, id, data);
    assert(cp::frame_read(w) == Some(cp::FrameView { code: Code::ConfigureRequest, id, data })) by {
        cp::law_frame_round_trip(Code::ConfigureRequest, id, data, Seq::empty());
        assert(w + Seq::<u8>::empty() =~= w);
    }
    assert(cp::options_read(data) == s.desired) by {
        cp::law_options_round_trip(s.desired, Seq::empty());
        assert(data + Seq::<u8>::empty() =~= data);
    }
    assert(s.request_wire() == w);
}

/// Whether an authentication option wants anything but MS-CHAPv2, that is, any
/// data that does not start with C2 23 81.
pub open spec fn asks_other_authentication(o: cp::OptView) -> bool {
    o.kind == 3 && !(o.data.len() >= 3 && o.data[0] == 0xc2 && o.data[1] == 0x23 && o.data[2]
        == 0x81)
}

/// Whether an option cannot be talked about: a type other than the six known
/// ones, a magic number that is not four bytes, or an authentication option
/// without a protocol.
pub open spec fn is_out_of_question(o: cp::OptView) -> bool {
    ||| o.kind != 1 && o.kind != 2 && o.kind != 3 && o.kind != 5 && o.kind != 7 && o.kind != 8
    ||| o.kind == 5 && o.data.len() != 4
    ||| o.kind == 3 && o.data.len() < 2
}

proof fn lemma_option_kinds(magic: u32, o: cp::OptView)
    ensures
        is_readable(o) == !is_out_of_question(o),
        asks_mschapv2(o) == (o.kind == 3 && !asks_other_authentication(o)),
        is_loopback(magic, o) == (o.kind == 5 && o.data == wire::be32(magic)),
{
    ppp::law_protocols_have_their_numbers(0);
    if o.data.len() >= 2 {
        wire::law_be16_is_positional(0, o.data[0], o.data[1]);
    }
    wire::law_be32_is_positional(magic, wire::be32(magic));
    wire::law_be32_round_trip(magic);
    if o.data.len() == 4 {
        wire::law_be32_is_positional(magic, o.data);
        if wire::be32_value(o.data) == magic {
            assert(o.data =~= wire::be32(magic));
        }
    }
}

/// What is said to a proposal, in every case. It is rejected where some option
/// is out of the question; else another value is suggested where it loops this
/// side's magic number or asks for another authentication than MS-CHAPv2; else
/// it is acknowledged, byte for byte. The answer carries its identifier.
pub proof fn law_proposals_are_judged(
    s: LcpView,
    f: cp::FrameView,
    data: Seq<u8>,
    draws: Seq<u32>,
)
    requires
        cp::frame_read(data) == Some(f),
        f.code == Code::ConfigureRequest,
    ensures
        ({
            let opts = cp::options_read(f.data);
            let bad = exists|i: int|
                0 <= i < opts.len() && is_out_of_question(#[trigger] opts[i]);
            let other = exists|i: int|
                0 <= i < opts.len() && (asks_other_authentication(#[trigger] opts[i]) || (
                opts[i].kind == 5 && opts[i].data == wire::be32(s.magic)));
            let (t, out) = step(s, data, draws);
            &&& out.len() == 1
            &&& out[0][1] == f.id
            &&& bad ==> out[0][0] == 4 && out[0].skip(4) == cp::options_wire(rejected(opts))
            &&& !bad && other ==> out[0][0] == 3 && out[0].skip(4) == cp::options_wire(
                counter_offers(s.magic, opts, draws),
            )
            &&& !bad && !other ==> out[0] == seq![2u8, f.id] + wire::be16(4 + f.data.len())
                + f.data
            &&& t.remote_up <==> !bad && !other
            &&& t.identifier == s.identifier
            &&& t.magic == s.magic
            &&& t.desired == s.desired
            &&& t.last_sent_id == s.last_sent_id
            &&& t.local_up == s.local_up
            &&& t.remote_up && (exists|i: int|
                0 <= i < opts.len() && (#[trigger] opts[i]).kind == 3) ==> t.peer_auth == Some(
                PeerAuthRequirement { protocol: 0xc223, algorithm: 0x81 },
            )
            &&& !t.remote_up || !(exists|i: int|
                0 <= i < opts.len() && (#[trigger] opts[i]).kind == 3) ==> t.peer_auth
                == s.peer_auth
        }),
{
    let opts = cp::options_read(f.data);
    law_every_proposal_is_answered(s, f, data, draws);
    cp::law_codes_have_their_numbers(0);
    assert forall|i: int| 0 <= i < opts.len() implies is_readable(#[trigger] opts[i])
        == !is_out_of_question(opts[i]) && asks_mschapv2(opts[i]) == (opts[i].kind == 3
        && !asks_other_authentication(opts[i])) && is_loopback(s.magic, opts[i]) == (
    opts[i].kind == 5 && opts[i].data == wire::be32(s.magic)) by {
        lemma_option_kinds(s.magic, opts[i]);
    }
    let bad = |o: cp::OptView| !is_readable(o);
    if rejected(opts).len() > 0 {
        let o = rejected(opts)[0];
        opts.lemma_filter_pred(bad, 0);
        opts.lemma_filter_contains_rev(bad, o);
        let i = choose|i: int| 0 <= i < opts.len() && opts[i] == o;
        assert(is_out_of_question(opts[i]));
    } else {
        assert forall|i: int| 0 <= i < opts.len() implies !is_out_of_question(#[trigger] opts[i]) by {
            if bad(opts[i]) {
                opts.lemma_filter_contains(bad, i);
            }
        }
    }
    let (t, out) = step(s, data, draws);
    let reject = cp::options_wire(rejected(opts));
    let nak = cp::options_wire(counter_offers(s.magic, opts, draws));
    cp::law_frame_layout(Code::ConfigureReject, f.id, reject);
    cp::law_frame_layout(Code::ConfigureNak, f.id, nak);
    assert(cp::frame_wire(Code::ConfigureReject, f.id, reject).skip(4) =~= reject);
    assert(cp::frame_wire(Code::ConfigureNak, f.id, nak).skip(4) =~= nak);
    cp::law_frame_layout(Code::ConfigureAck, f.id, f.data);
    ppp::law_protocols_have_their_numbers(0);
}

/// Exactly the options that are out of the question are rejected, in order and
/// as they came.
pub proof fn law_rejected_options_are_returned(opts: Seq<cp::OptView>, o: cp::OptView)
    ensures
        rejected(Seq::empty()) == Seq::<cp::OptView>::empty(),
        rejected(opts.push(o)) == if is_out_of_question(o) {
            rejected(opts).push(o)
        } else {
            rejected(opts)
        },
{
    reveal(Seq::filter);
    lemma_option_kinds(0, o);
    assert(opts.push(o).drop_last() =~= opts);
    assert(rejected(Seq::empty()) =~= Seq::empty());
}

/// What is suggested, option by option: MS-CHAPv2 for each other
/// authentication, the next random number for each looped magic number, and
/// nothing for anything else.
pub proof fn law_suggestions_are_made_in_order(
    magic: u32,
    opts: Seq<cp::OptView>,
    o: cp::OptView,
    draws: Seq<u32>,
)
    ensures
        counter_offers(magic, Seq::empty(), draws) == Seq::<cp::OptView>::empty(),
        loopbacks(magic, Seq::empty()) == 0,
        ({
            let looped = o.kind == 5 && o.data == wire::be32(magic);
            let before = counter_offers(magic, opts, draws);
            let n = loopbacks(magic, opts);
            &&& loopbacks(magic, opts.push(o)) == if looped {
                n + 1
            } else {
                n
            }
            &&& counter_offers(magic, opts.push(o), draws) == if looped {
                before.push(cp::OptView { kind: 5, data: wire::be32(draws[n as int]) })
            } else if asks_other_authentication(o) && o.data.len() >= 2 {
                before.push(cp::OptView { kind: 3, data: seq![0xc2u8, 0x23, 0x81] })
            } else {
                before
            }
        }),
{
    assert(opts.push(o).drop_last() =~= opts);
    lemma_option_kinds(magic, o);
    ppp::law_protocols_have_their_numbers(0);
    assert(mschapv2_option().data =~= seq![0xc2u8, 0x23, 0x81]);
}

/// The server is steered to MS-CHAPv2. A proposal without an option out of the
/// question that asks for other authentications gets a Configure-Nak under its
/// identifier, and that reads back as one option for each of them that asks for
/// MS-CHAPv2, with no other authentication in it. The answer has to fit its
/// length field, which only thousands of such options in one frame exceed.
pub proof fn law_other_authentication_is_steered_to_mschapv2(
    s: LcpView,
    f: cp::FrameView,
    data: Seq<u8>,
    draws: Seq<u32>,
)
    requires
        cp::frame_read(data) == Some(f),
        f.code == Code::ConfigureRequest,
        forall|i: int|
            0 <= i < cp::options_read(f.data).len() ==> !is_out_of_question(
                #[trigger] cp::options_read(f.data)[i],
            ),
        exists|i: int|
            0 <= i < cp::options_read(f.data).len() && asks_other_authentication(
                #[trigger] cp::options_read(f.data)[i],
            ),
        step(s, data, draws).1[0].len() <= 0xffff,
    ensures
        cp::frame_read(step(s, data, draws).1[0]) matches Some(g) && {
            let suggested = cp::options_read(g.data);
            &&& g.code == Code::ConfigureNak
            &&& g.id == f.id
            &&& suggested.filter(|o: cp::OptView| o.kind == 3).len() == cp::options_read(
                f.data,
            ).filter(|o: cp::OptView| asks_other_authentication(o)).len()
            &&& forall|i: int|
                0 <= i < suggested.len() && (#[trigger] suggested[i]).kind == 3
                    ==> suggested[i].data == seq![0xc2u8, 0x23, 0x81]
            &&& forall|i: int|
                0 <= i < suggested.len() ==> (#[trigger] suggested[i]).kind == 3
                    || suggested[i].kind == 5
        },
        !step(s, data, draws).0.remote_up,
        step(s, data, draws).0.peer_auth == s.peer_auth,
{
    let opts = cp::options_read(f.data);
    law_proposals_are_judged(s, f, data, draws);
    let nak = counter_offers(s.magic, opts, draws);
    let body = cp::options_wire(nak);
    let k = choose|i: int|
        0 <= i < opts.len() && asks_other_authentication(#[trigger] opts[i]);
    assert(!is_out_of_question(opts[k]));
    lemma_option_kinds(s.magic, opts[k]);
    lemma_offers_empty(s.magic, opts, draws);
    cp::law_frame_layout(Code::ConfigureReject, f.id, cp::options_wire(rejected(opts)));
    cp::law_frame_layout(Code::ConfigureNak, f.id, body);
    assert(step(s, data, draws).1[0] == cp::frame_wire(Code::ConfigureNak, f.id, body));
    cp::law_frame_round_trip(Code::ConfigureNak, f.id, body, Seq::empty());
    let w = cp::frame_wire(Code::ConfigureNak, f.id, body);
    assert(w + Seq::<u8>::empty() =~= w);
    lemma_suggestions(s.magic, opts, draws);
    cp::law_options_round_trip(nak, Seq::empty());
    assert(body + Seq::<u8>::empty() =~= body);
    assert(nak + Seq::<cp::OptView>::empty() =~= nak);
}

proof fn lemma_suggestions(magic: u32, opts: Seq<cp::OptView>, draws: Seq<u32>)
    requires
        forall|i: int| 0 <= i < opts.len() ==> !is_out_of_question(#[trigger] opts[i]),
    ensures
        ({
            let nak = counter_offers(magic, opts, draws);
            &&& nak.filter(|o: cp::OptView| o.kind == 3).len() == opts.filter(
                |o: cp::OptView| asks_other_authentication(o),
            ).len()
            &&& forall|i: int|
                0 <= i < nak.len() ==> (#[trigger] nak[i]).data.len() <= 4 && (nak[i].kind == 5
                    || nak[i].kind == 3 && nak[i].data == seq![0xc2u8, 0x23, 0x81])
        }),
    decreases opts.len(),
{
    let auth = |o: cp::OptView| o.kind == 3;
    let other = |o: cp::OptView| asks_other_authentication(o);
    let nak = counter_offers(magic, opts, draws);
    reveal(Seq::filter);
    if opts.len() > 0 {
        let front = opts.drop_last();
        let o = opts.last();
        assert(!is_out_of_question(opts[opts.len() - 1]));
        assert forall|i: int| 0 <= i < front.len() implies !is_out_of_question(
            #[trigger] front[i],
        ) by {
            assert(front[i] == opts[i]);
        }
        lemma_suggestions(magic, front, draws);
        law_suggestions_are_made_in_order(magic, front, o, draws);
        assert(front.push(o) =~= opts);
        let before = counter_offers(magic, front, draws);
        if nak.len() > before.len() {
            assert(nak.drop_last() =~= before);
        }
    }
}

/// An acknowledgement of this side's last proposal opens this side's direction
/// and does nothing else.
pub proof fn law_acceptance_is_noted(s: LcpView, f: cp::FrameView, data: Seq<u8>, draws: Seq<u32>)
    requires
        cp::frame_read(data) == Some(f),
        f.code == Code::ConfigureAck,
        s.last_sent_id == Some(f.id),
    ensures
        ({
            let (t, out) = step(s, data, draws);
            &&& out.len() == 0
            &&& t == (LcpView { local_up: true, ..s })
        }),
{
}

/// A suggestion of the peer closes this side's direction, takes the values over
/// and proposes anew under the next identifier.
pub proof fn law_suggestions_are_followed(
    s: LcpView,
    f: cp::FrameView,
    data: Seq<u8>,
    draws: Seq<u32>,
)
    requires
        cp::frame_read(data) == Some(f),
        f.code == Code::ConfigureNak,
        s.last_sent_id == Some(f.id),
    ensures
        ({
            let opts = cp::options_read(f.data);
            let (t, out) = step(s, data, draws);
            let id = ((s.identifier + 1) % 256) as u8;
            &&& t.desired == cp::with_values(s.desired, opts)
            &&& out == seq![
                cp::frame_wire(Code::ConfigureRequest, id, cp::options_wire(t.desired)),
            ]
            &&& t.identifier == id
            &&& t.last_sent_id == Some(id)
            &&& !t.local_up
            &&& t.remote_up == s.remote_up
            &&& t.peer_auth == s.peer_auth
            &&& (forall|i: int|
                0 <= i < opts.len() ==> !((#[trigger] opts[i]).kind == 5 && opts[i].data.len()
                    == 4)) ==> t.magic == s.magic
        }),
{
    let opts = cp::options_read(f.data);
    lemma_suggestions_change_offers_only(s, opts);
    if forall|i: int|
        0 <= i < opts.len() ==> !((#[trigger] opts[i]).kind == 5 && opts[i].data.len() == 4) {
        lemma_magic_is_kept(s, opts);
    }
}

proof fn lemma_magic_is_kept(s: LcpView, opts: Seq<cp::OptView>)
    requires
        forall|i: int|
            0 <= i < opts.len() ==> !((#[trigger] opts[i]).kind == 5 && opts[i].data.len() == 4),
    ensures
        s.suggested(opts).magic == s.magic,
    decreases opts.len(),
{
    if opts.len() > 0 {
        let rest = opts.drop_first();
        assert forall|i: int| 0 <= i < rest.len() implies !((#[trigger] rest[i]).kind == 5
            && rest[i].data.len() == 4) by {
            assert(rest[i] == opts[i + 1]);
        }
        assert(!(opts[0].kind == 5 && opts[0].data.len() == 4));
        lemma_magic_is_kept(s.suggested_one(opts[0]), rest);
    }
}

/// The last magic number that the peer suggests is the one adopted.
pub proof fn law_last_suggested_magic_counts(s: LcpView, opts: Seq<cp::OptView>, magic: u32)
    ensures
        s.suggested(
            opts.push(cp::OptView { kind: 5, data: wire::be32(magic) }),
        ).magic == magic,
    decreases opts.len(),
{
    let last = cp::OptView { kind: 5, data: wire::be32(magic) };
    let all = opts.push(last);
    wire::law_be32_round_trip(magic);
    if opts.len() == 0 {
        assert(all.drop_first() =~= Seq::empty());
        assert(all[0] == last);
        assert(s.suggested(all) == s.suggested_one(last).suggested(Seq::empty()));
    } else {
        assert(all.drop_first() =~= opts.drop_first().push(last));
        law_last_suggested_magic_counts(s.suggested_one(opts[0]), opts.drop_first(), magic);
    }
}

/// A rejection of the peer closes this side's direction and changes nothing but
/// the options and the identifier.
pub proof fn law_rejection_changes_offers_only(
    s: LcpView,
    f: cp::FrameView,
    data: Seq<u8>,
    draws: Seq<u32>,
)
    requires
        cp::frame_read(data) == Some(f),
        f.code == Code::ConfigureReject,
        s.last_sent_id == Some(f.id),
    ensures
        ({
            let t = step(s, data, draws).0;
            let id = ((s.identifier + 1) % 256) as u8;
            t == (LcpView {
                desired: cp::without_kinds(s.desired, cp::options_read(f.data)),
                local_up: false,
                identifier: id,
                last_sent_id: Some(id),
                ..s
            })
        }),
{
}

/// A request to terminate closes both directions and changes nothing else; a
/// frame that is malformed or of any other code changes nothing and is not
/// answered.
pub proof fn law_other_frames_are_ignored(s: LcpView, data: Seq<u8>, draws: Seq<u32>)
    ensures
        cp::frame_read(data) is None ==> step(s, data, draws) == (s, Seq::<Seq<u8>>::empty()),
        cp::frame_read(data) matches Some(f) ==> {
            &&& (f.code.code() == 0 || f.code.code() == 6 || f.code.code() == 7 || f.code.code()
                == 8 || f.code.code() >= 10) && f.code == Code::of_code(f.code.code()) ==> step(
                s,
                data,
                draws,
            ) == (s, Seq::<Seq<u8>>::empty())
            &&& f.code == Code::TerminateRequest ==> step(s, data, draws) == (
                LcpView { local_up: false, remote_up: false, ..s },
                seq![cp::frame_wire(Code::TerminateAck, f.id, Seq::empty())],
            )
            &&& f.code == Code::EchoRequest && f.data.len() < 4 ==> step(s, data, draws) == (
                s,
                seq![cp::frame_wire(Code::EchoReply, f.id, wire::be32(s.magic))],
            )
        },
{
    if let Some(f) = cp::frame_read(data) {
        assert(wire::be32(s.magic) + Seq::<u8>::empty() =~= wire::be32(s.magic));
    }
}

/// The link is open exactly where both directions are.
pub proof fn law_open_means_both_directions(s: LcpView)
    ensures
        s.is_open() <==> s.local_up && s.remote_up,
{
}

} // verus!
