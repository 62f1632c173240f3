//! The IP Control Protocol: the client asks for an address and for name
//! servers, and learns the address of the peer. Like the link negotiation it
//! is driven by the frames that arrive. Header compression is never offered.

use crate::addr::Ipv4Addr;
use crate::cp;
use crate::cp::{Code, Opt};
use crate::lcp;
use crate::wire;
use vstd::prelude::*;

verus! {

/// The address of a side.
pub const OPT_IP_ADDRESS: u8 = 3;

/// The first name server.
pub const OPT_PRIMARY_DNS: u8 = 129;

/// The second name server.
pub const OPT_SECONDARY_DNS: u8 = 131;

/// An option that carries an address.
pub open spec fn addr_option(kind: u8, addr: Ipv4Addr) -> cp::OptView {
    cp::OptView { kind, data: addr.bytes() }
}

/// The address that an option carries, where its data is one.
pub open spec fn option_addr(o: cp::OptView) -> Option<Ipv4Addr> {
    if o.data.len() == 4 {
        Some(Ipv4Addr { a: o.data[0], b: o.data[1], c: o.data[2], d: o.data[3] })
    } else {
        None
    }
}

/// An option that carries an address.
pub fn ip_opt(kind: u8, addr: Ipv4Addr) -> (o: Opt)
    ensures
        o@ == addr_option(kind, addr),
{
    let octets = addr.octets();
    Opt::new(kind, octets.as_slice())
}

/// The address that an option carries, where its data is one.
fn parse_ip_opt(opt: &Opt) -> (r: Option<Ipv4Addr>)
    ensures
        r == option_addr(opt@),
{
    if opt.data.len() != 4 {
        return None;
    }
    Some(Ipv4Addr { a: opt.data[0], b: opt.data[1], c: opt.data[2], d: opt.data[3] })
}

/// The addresses that came of a negotiation.
#[derive(Debug, Clone, Copy, PartialEq, Eq)]
pub struct NegotiatedConfig {
    /// The address of this side, once the peer has acknowledged it.
    pub local_ip: Option<Ipv4Addr>,
    /// The address that the peer announced as its own.
    pub peer_ip: Option<Ipv4Addr>,
    pub dns1: Option<Ipv4Addr>,
    pub dns2: Option<Ipv4Addr>,
}

/// The addresses before any has been negotiated.
pub open spec fn nothing_negotiated() -> NegotiatedConfig {
    NegotiatedConfig { local_ip: None, peer_ip: None, dns1: None, dns2: None }
}

impl Default for NegotiatedConfig {
    fn default() -> (c: NegotiatedConfig)
        ensures
            c == nothing_negotiated(),
    {
        NegotiatedConfig { local_ip: None, peer_ip: None, dns1: None, dns2: None }
    }
}

/// What came of a received frame.
#[derive(Debug)]
pub struct IpcpResult {
    /// Frames to send, in order.
    pub to_send: Vec<Vec<u8>>,
    /// Whether both directions are configured.
    pub up: bool,
}

impl Default for IpcpResult {
    fn default() -> (r: IpcpResult)
        ensures
            r.to_send@.len() == 0,
            !r.up,
    {
        IpcpResult { to_send: Vec::new(), up: false }
    }
}

/// The negotiation of the addresses of one link.
pub struct Ipcp {
    identifier: u8,
    desired: Vec<Opt>,
    last_sent_id: Option<u8>,
    local_up: bool,
    remote_up: bool,
    negotiated: NegotiatedConfig,
}

/// The state of a negotiation.
#[verifier::ext_equal]
pub struct IpcpView {
    /// The identifier of the last frame this side numbered.
    pub identifier: u8,
    /// The options this side proposes.
    pub desired: Seq<cp::OptView>,
    /// The identifier of this side's last proposal.
    pub last_sent_id: Option<u8>,
    /// Whether the peer has accepted this side's last proposal.
    pub local_up: bool,
    /// Whether this side has accepted the peer's last proposal.
    pub remote_up: bool,
    /// The addresses known so far.
    pub negotiated: NegotiatedConfig,
}

impl View for Ipcp {
    type V = IpcpView;

    closed spec fn view(&self) -> IpcpView {
        IpcpView {
            identifier: self.identifier,
            desired: cp::opts_view(self.desired@),
            last_sent_id: self.last_sent_id,
            local_up: self.local_up,
            remote_up: self.remote_up,
            negotiated: self.negotiated,
        }
    }
}

/// A negotiation that has not started: every address is asked for as 0.0.0.0,
/// for the peer to assign.
pub open spec fn fresh() -> IpcpView {
    let nowhere = Ipv4Addr { a: 0, b: 0, c: 0, d: 0 };
    IpcpView {
        identifier: 0,
        desired: seq![
            addr_option(OPT_IP_ADDRESS, nowhere),
            addr_option(OPT_PRIMARY_DNS, nowhere),
            addr_option(OPT_SECONDARY_DNS, nowhere),
        ],
        last_sent_id: None,
        local_up: false,
        remote_up: false,
        negotiated: nothing_negotiated(),
    }
}

impl IpcpView {
    /// Whether both directions are configured.
    pub open spec fn is_open(self) -> bool {
        self.local_up && self.remote_up
    }

    /// The state after this side has sent its proposal.
    pub open spec fn requested(self) -> IpcpView {
        IpcpView {
            identifier: lcp::next_id(self.identifier),
            last_sent_id: Some(lcp::next_id(self.identifier)),
            ..self
        }
    }

    /// The proposal that this side sends next.
    pub open spec fn request_wire(self) -> Seq<u8> {
        cp::frame_wire(
            Code::ConfigureRequest,
            lcp::next_id(self.identifier),
            cp::options_wire(self.desired),
        )
    }
}

/// Whether an option tells an address of the peer.
pub open spec fn tells_address(o: cp::OptView) -> bool {
    o.kind == OPT_IP_ADDRESS && o.data.len() == 4
}

/// The options of the peer that this side rejects: all but addresses.
pub open spec fn rejected(opts: Seq<cp::OptView>) -> Seq<cp::OptView> {
    opts.filter(|o: cp::OptView| !tells_address(o))
}

/// The address of the peer after it proposed `opts`: the last one it told.
pub open spec fn told_address(before: Option<Ipv4Addr>, opts: Seq<cp::OptView>) -> Option<Ipv4Addr>
    decreases opts.len(),
{
    if opts.len() == 0 {
        before
    } else if tells_address(opts.last()) {
        option_addr(opts.last())
    } else {
        told_address(before, opts.drop_last())
    }
}

/// The addresses after the peer accepted the first `desired` options.
pub open spec fn accepted_values(c: NegotiatedConfig, desired: Seq<cp::OptView>) -> NegotiatedConfig
    decreases desired.len(),
{
    if desired.len() == 0 {
        c
    } else {
        let before = accepted_values(c, desired.drop_last());
        let o = desired.last();
        if o.data.len() != 4 {
            before
        } else if o.kind == OPT_IP_ADDRESS {
            NegotiatedConfig { local_ip: option_addr(o), ..before }
        } else if o.kind == OPT_PRIMARY_DNS {
            NegotiatedConfig { dns1: option_addr(o), ..before }
        } else if o.kind == OPT_SECONDARY_DNS {
            NegotiatedConfig { dns2: option_addr(o), ..before }
        } else {
            before
        }
    }
}

/// The answer to a proposal of the peer, and the state after it.
pub open spec fn answered(s: IpcpView, f: cp::FrameView) -> (IpcpView, Seq<Seq<u8>>) {
    let opts = cp::options_read(f.data);
    let known = IpcpView {
        negotiated: NegotiatedConfig {
            peer_ip: told_address(s.negotiated.peer_ip, opts),
            ..s.negotiated
        },
        ..s
    };
    if rejected(opts).len() > 0 {
        (
            IpcpView { remote_up: false, ..known },
            seq![cp::frame_wire(Code::ConfigureReject, f.id, cp::options_wire(rejected(opts)))],
        )
    } else {
        (
            IpcpView { remote_up: true, ..known },
            seq![cp::frame_wire(Code::ConfigureAck, f.id, f.data)],
        )
    }
}

/// What a received frame does: the state after it, and the frames to send.
pub open spec fn step(s: IpcpView, data: Seq<u8>) -> (IpcpView, Seq<Seq<u8>>) {
    match cp::frame_read(data) {
        None => (s, Seq::empty()),
        Some(f) => match f.code {
            Code::ConfigureRequest => answered(s, f),
            Code::ConfigureAck => if s.last_sent_id == Some(f.id) {
                (
                    IpcpView {
                        local_up: true,
                        negotiated: accepted_values(s.negotiated, s.desired),
                        ..s
                    },
                    Seq::empty(),
                )
            } else {
                (s, Seq::empty())
            },
            Code::ConfigureNak => if s.last_sent_id == Some(f.id) {
                let t = IpcpView {
                    local_up: false,
                    desired: cp::with_values(s.desired, cp::options_read(f.data)),
                    ..s
                };
                (t.requested(), seq![t.request_wire()])
            } else {
                (s, Seq::empty())
            },
            Code::ConfigureReject => if s.last_sent_id == Some(f.id) {
                let t = IpcpView {
                    local_up: false,
                    desired: cp::without_kinds(s.desired, cp::options_read(f.data)),
                    ..s
                };
                (t.requested(), seq![t.request_wire()])
            } else {
                (s, Seq::empty())
            },
            Code::TerminateRequest => (
                IpcpView { local_up: false, remote_up: false, ..s },
                seq![cp::frame_wire(Code::TerminateAck, f.id, Seq::empty())],
            ),
            _ => (s, Seq::empty()),
        },
    }
}

impl Ipcp {
    /// A negotiation that has not started.
    pub fn new() -> (p: Ipcp)
        ensures
            p@ == fresh(),
    {
        let mut desired: Vec<Opt> = Vec::new();
        desired.push(ip_opt(OPT_IP_ADDRESS, Ipv4Addr::unspecified()));
        desired.push(ip_opt(OPT_PRIMARY_DNS, Ipv4Addr::unspecified()));
        desired.push(ip_opt(OPT_SECONDARY_DNS, Ipv4Addr::unspecified()));
        let p = Ipcp {
            identifier: 0,
            desired,
            last_sent_id: None,
            local_up: false,
            remote_up: false,
            negotiated: NegotiatedConfig { local_ip: None, peer_ip: None, dns1: None, dns2: None },
        };
        proof {
            assert(p@.desired =~= fresh().desired);
        }
        p
    }

    /// Whether both directions are configured.
    pub fn is_up(&self) -> (r: bool)
        ensures
            r == self@.is_open(),
    {
        self.local_up && self.remote_up
    }

    /// The addresses known so far.
    pub fn negotiated(&self) -> (c: NegotiatedConfig)
        ensures
            c == self@.negotiated,
    {
        self.negotiated
    }

    /// Sends the first proposal.
    pub fn start(&mut self) -> (out: Vec<u8>)
        ensures
            final(self)@ == old(self)@.requested(),
            out@ == old(self)@.request_wire(),
    {
        self.send_config_request()
    }

    fn send_config_request(&mut self) -> (out: Vec<u8>)
        ensures
            final(self)@ == old(self)@.requested(),
            out@ == old(self)@.request_wire(),
    {
        self.identifier = self.identifier.wrapping_add(1);
        self.last_sent_id = Some(self.identifier);
        let data = cp::encode_options(self.desired.as_slice());
        cp::encode(Code::ConfigureRequest, self.identifier, data.as_slice())
    }

    /// Takes in a received frame.
    pub fn receive(&mut self, data: &[u8]) -> (r: IpcpResult)
        ensures
            r.up == final(self)@.is_open(),
            (final(self)@, wire::strings_view(r.to_send@)) == step(old(self)@, data@),
    {
        let mut to_send: Vec<Vec<u8>> = Vec::new();
        let frame = match cp::decode(data) {
            Some(f) => f,
            None => {
                proof {
                    assert(wire::strings_view(to_send@) =~= Seq::<Seq<u8>>::empty());
                }
                return IpcpResult { to_send, up: self.is_up() };
            },
        };
        let ghost s = self@;
        match frame.code {
            Code::ConfigureRequest => {
                let peer_opts = cp::decode_options(frame.data.as_slice());
                let reject = self.evaluate_peer_options(peer_opts.as_slice());
                if reject.len() > 0 {
                    let body = cp::encode_options(reject.as_slice());
                    to_send.push(cp::encode(Code::ConfigureReject, frame.id, body.as_slice()));
                    self.remote_up = false;
                } else {
                    to_send.push(
                        cp::encode(Code::ConfigureAck, frame.id, frame.data.as_slice()),
                    );
                    self.remote_up = true;
                }
            },
            Code::ConfigureAck => {
                if self.last_sent_id == Some(frame.id) {
                    self.capture_accepted_values();
                    self.local_up = true;
                }
            },
            Code::ConfigureNak => {
                if self.last_sent_id == Some(frame.id) {
                    let opts = cp::decode_options(frame.data.as_slice());
                    cp::set_values(&mut self.desired, opts.as_slice());
                    self.local_up = false;
                    to_send.push(self.send_config_request());
                }
            },
            Code::ConfigureReject => {
                if self.last_sent_id == Some(frame.id) {
                    let opts = cp::decode_options(frame.data.as_slice());
                    cp::drop_kinds(&mut self.desired, opts.as_slice());
                    self.local_up = false;
                    to_send.push(self.send_config_request());
                }
            },
            Code::TerminateRequest => {
                let nothing: Vec<u8> = Vec::new();
                to_send.push(cp::encode(Code::TerminateAck, frame.id, nothing.as_slice()));
                self.local_up = false;
                self.remote_up = false;
            },
            _ => {},
        }
        proof {
            assert(wire::strings_view(to_send@) =~= step(s, data@).1);
            assert(self@ =~= step(s, data@).0);
        }
        IpcpResult { to_send, up: self.is_up() }
    }

    /// Finds the options of the peer to reject, and notes its address.
    fn evaluate_peer_options(&mut self, opts: &[Opt]) -> (reject: Vec<Opt>)
        ensures
            final(self)@ == (IpcpView {
                negotiated: NegotiatedConfig {
                    peer_ip: told_address(old(self)@.negotiated.peer_ip, cp::opts_view(opts@)),
                    ..old(self)@.negotiated
                },
                ..old(self)@
            }),
            cp::opts_view(reject@) == rejected(cp::opts_view(opts@)),
    {
        let ghost all = cp::opts_view(opts@);
        let ghost bad = |o: cp::OptView| !tells_address(o);
        let mut reject: Vec<Opt> = Vec::new();
        let mut i: usize = 0;
        proof {
            reveal(Seq::filter);
            assert(cp::opts_view(reject@) =~= all.take(0).filter(bad));
        }
        while i < opts.len()
            invariant
                i <= opts@.len(),
                all == cp::opts_view(opts@),
                bad == (|o: cp::OptView| !tells_address(o)),
                self@ == (IpcpView {
                    negotiated: NegotiatedConfig {
                        peer_ip: told_address(
                            old(self)@.negotiated.peer_ip,
                            all.take(i as int),
                        ),
                        ..old(self)@.negotiated
                    },
                    ..old(self)@
                }),
                cp::opts_view(reject@) == all.take(i as int).filter(bad),
            decreases opts@.len() - i,
        {
            let ghost reject0 = reject@;
            let ghost o = all[i as int];
            proof {
                reveal(Seq::filter);
                assert(all.take(i + 1).drop_last() =~= all.take(i as int));
                assert(all.take(i + 1).last() == o);
            }
            let opt = &opts[i];
            if opt.kind == OPT_IP_ADDRESS {
                match parse_ip_opt(opt) {
                    Some(addr) => {
                        self.negotiated.peer_ip = Some(addr);
                    },
                    None => {
                        reject.push(opt.clone());
                    },
                }
            } else {
                reject.push(opt.clone());
            }
            proof {
                if reject@.len() > reject0.len() {
                    assert(cp::opts_view(reject@) =~= cp::opts_view(reject0).push(o));
                }
                assert(cp::opts_view(reject@) =~= all.take(i + 1).filter(bad));
            }
            i += 1;
        }
        proof {
            assert(all.take(i as int) =~= all);
        }
        reject
    }

    /// Notes the addresses that the peer has just accepted.
    fn capture_accepted_values(&mut self)
        ensures
            final(self)@ == (IpcpView {
                negotiated: accepted_values(old(self)@.negotiated, old(self)@.desired),
                ..old(self)@
            }),
    {
        let ghost all = self@.desired;
        let mut i: usize = 0;
        while i < self.desired.len()
            invariant
                i <= all.len(),
                all == old(self)@.desired,
                self@ == (IpcpView {
                    negotiated: accepted_values(old(self)@.negotiated, all.take(i as int)),
                    ..old(self)@
                }),
            decreases all.len() - i,
        {
            proof {
                assert(all.take(i + 1).drop_last() =~= all.take(i as int));
                assert(all.take(i + 1).last() == all[i as int]);
                assert(all[i as int] == self.desired@[i as int]@);
            }
            let kind: u8 = self.desired[i].kind;
            if let Some(addr) = parse_ip_opt(&self.desired[i]) {
                if kind == OPT_IP_ADDRESS {
                    self.negotiated.local_ip = Some(addr);
                } else if kind == OPT_PRIMARY_DNS {
                    self.negotiated.dns1 = Some(addr);
                } else if kind == OPT_SECONDARY_DNS {
                    self.negotiated.dns2 = Some(addr);
                }
            }
            i += 1;
        }
        proof {
            assert(all.take(i as int) =~= all);
        }
    }
}

impl Default for Ipcp {
    fn default() -> (p: Ipcp)
        ensures
            p@ == fresh(),
    {
        Ipcp::new()
    }
}

/// Both directions are configured only after an acceptance of this side's
/// last proposal or of a proposal of the peer.
pub proof fn law_opens_only_on_agreement(s: IpcpView, data: Seq<u8>)
    requires
        !s.is_open(),
        step(s, data).0.is_open(),
    ensures
        cp::frame_read(data) matches Some(f) && {
            ||| f.code == Code::ConfigureAck && s.last_sent_id == Some(f.id) && s.remote_up
            ||| f.code == Code::ConfigureRequest && s.local_up && step(s, data).1 == seq![
                cp::frame_wire(Code::ConfigureAck, f.id, f.data),
            ]
        },
{
}

/// The addresses of this side change only when the peer accepts this side's
/// last proposal, and then to what was proposed.
pub proof fn law_addresses_change_on_acceptance_only(s: IpcpView, data: Seq<u8>)
    ensures
        ({
            let t = step(s, data).0;
            let changed = t.negotiated.local_ip != s.negotiated.local_ip || t.negotiated.dns1
                != s.negotiated.dns1 || t.negotiated.dns2 != s.negotiated.dns2;
            changed ==> {
                &&& cp::frame_read(data) matches Some(f)
                &&& f.code == Code::ConfigureAck
                &&& s.last_sent_id == Some(f.id)
                &&& t.negotiated == accepted_values(s.negotiated, s.desired)
            }
        }),
{
}

/// An answer to anything but this side's last proposal changes nothing.
pub proof fn law_stale_answers_are_ignored(s: IpcpView, f: cp::FrameView, data: Seq<u8>)
    requires
        cp::frame_read(data) == Some(f),
        f.code == Code::ConfigureAck || f.code == Code::ConfigureNak || f.code
            == Code::ConfigureReject,
        s.last_sent_id != Some(f.id),
    ensures
        step(s, data) == (s, Seq::<Seq<u8>>::empty()),
{
}

/// A request to terminate is acknowledged and closes both directions.
pub proof fn law_terminate_closes(s: IpcpView, id: u8, data: Seq<u8>)
    requires
        data.len() <= 0xfffb,
    ensures
        ({
            let (t, out) = step(s, cp::frame_wire(Code::TerminateRequest, id, data));
            !t.is_open() && out == seq![cp::frame_wire(Code::TerminateAck, id, Seq::empty())]
        }),
{
    cp::law_frame_round_trip(Code::TerminateRequest, id, data, Seq::empty());
    let wire = cp::frame_wire(Code::TerminateRequest, id, data);
    assert(wire + Seq::<u8>::empty() =~= wire);
}

/// Every proposal of the peer gets exactly one answer, under its identifier,
/// and is accepted exactly where it holds nothing but addresses.
pub proof fn law_every_proposal_is_answered(s: IpcpView, f: cp::FrameView, data: Seq<u8>)
    requires
        cp::frame_read(data) == Some(f),
        f.code == Code::ConfigureRequest,
    ensures
        step(s, data).1.len() == 1,
        step(s, data).0.remote_up <==> step(s, data).1[0] == cp::frame_wire(
            Code::ConfigureAck,
            f.id,
            f.data,
        ),
        step(s, data).0.remote_up <==> forall|i: int|
            0 <= i < cp::options_read(f.data).len() ==> tells_address(
                #[trigger] cp::options_read(f.data)[i],
            ),
{
    let opts = cp::options_read(f.data);
    let bad = |o: cp::OptView| !tells_address(o);
    let (t, out) = step(s, data);
    if rejected(opts).len() == 0 {
        assert forall|i: int| 0 <= i < opts.len() implies tells_address(#[trigger] opts[i]) by {
            if bad(opts[i]) {
                opts.lemma_filter_contains(bad, i);
            }
        }
    } else {
        let o = rejected(opts)[0];
        opts.lemma_filter_pred(bad, 0);
        opts.lemma_filter_contains_rev(bad, o);
        let i = choose|i: int| 0 <= i < opts.len() && opts[i] == o;
        assert(!tells_address(opts[i]));
    }
    assert(out[0][0] == Code::ConfigureAck.code() <==> t.remote_up);
    assert(cp::frame_wire(Code::ConfigureAck, f.id, f.data)[0] == Code::ConfigureAck.code());
}

/// What the peer assigns is what this side ends up with: the addresses of a
/// refusal that suggests them, once the next proposal is accepted.
pub proof fn law_assigned_addresses_are_used(
    s: IpcpView,
    ip: Ipv4Addr,
    dns1: Ipv4Addr,
    dns2: Ipv4Addr,
    nak: Seq<u8>,
    ack: Seq<u8>,
)
    requires
        s.desired.map_values(|o: cp::OptView| o.kind) == seq![
            OPT_IP_ADDRESS,
            OPT_PRIMARY_DNS,
            OPT_SECONDARY_DNS,
        ],
        cp::frame_read(nak) matches Some(f) && f.code == Code::ConfigureNak && s.last_sent_id
            == Some(f.id) && cp::options_read(f.data) == seq![
            addr_option(OPT_IP_ADDRESS, ip),
            addr_option(OPT_PRIMARY_DNS, dns1),
            addr_option(OPT_SECONDARY_DNS, dns2),
        ],
        cp::frame_read(ack) matches Some(g) && g.code == Code::ConfigureAck && step(
            s,
            nak,
        ).0.last_sent_id == Some(g.id),
    ensures
        ({
            let t = step(step(s, nak).0, ack).0;
            t.local_up && t.negotiated == (NegotiatedConfig {
                local_ip: Some(ip),
                peer_ip: s.negotiated.peer_ip,
                dns1: Some(dns1),
                dns2: Some(dns2),
            })
        }),
{
    let o1 = addr_option(OPT_IP_ADDRESS, ip);
    let o2 = addr_option(OPT_PRIMARY_DNS, dns1);
    let o3 = addr_option(OPT_SECONDARY_DNS, dns2);
    let all = seq![o1, o2, o3];
    let want = s.desired;
    let kinds = want.map_values(|o: cp::OptView| o.kind);
    assert(kinds.len() == want.len());
    assert(want[0].kind == kinds[0] && want[1].kind == kinds[1] && want[2].kind == kinds[2]);
    assert(all.drop_first() =~= seq![o2, o3]);
    assert(seq![o2, o3].drop_first() =~= seq![o3]);
    assert(seq![o3].drop_first() =~= Seq::empty());
    let w1 = seq![o1, want[1], want[2]];
    assert(cp::with_value(want, o1) =~= w1);
    let w2 = seq![o1, o2, want[2]];
    assert(w1.drop_first() =~= seq![want[1], want[2]]);
    assert(cp::with_value(w1.drop_first(), o2) =~= seq![o2, want[2]]);
    assert(cp::with_value(w1, o2) =~= w2);
    assert(w2.drop_first() =~= seq![o2, want[2]]);
    assert(w2.drop_first().drop_first() =~= seq![want[2]]);
    assert(cp::with_value(seq![want[2]], o3) =~= seq![o3]);
    assert(cp::with_value(w2.drop_first(), o3) =~= seq![o2, o3]);
    assert(cp::with_value(w2, o3) =~= all);
    assert(cp::with_values(all, Seq::empty()) == all);
    assert(cp::with_values(w2, seq![o3]) == all);
    assert(cp::with_values(w1, seq![o2, o3]) == all);
    assert(cp::with_values(want, all) == all);
    let known = s.negotiated;
    assert(all.drop_last() =~= seq![o1, o2]);
    assert(seq![o1, o2].drop_last() =~= seq![o1]);
    assert(seq![o1].drop_last() =~= Seq::empty());
    assert(accepted_values(known, Seq::empty()) == known);
    assert(accepted_values(known, seq![o1]) == (NegotiatedConfig { local_ip: Some(ip), ..known }));
    assert(accepted_values(known, seq![o1, o2]) == (NegotiatedConfig {
        local_ip: Some(ip),
        dns1: Some(dns1),
        ..known
    }));
}

/// The first proposal of a negotiation, byte for byte: a Configure-Request with
/// identifier 1 that asks for an address and two name servers. Before it,
/// nothing is agreed on.
pub proof fn law_first_proposal()
    ensures
        fresh().request_wire() == seq![
            1u8, 1, 0, 22, 3, 6, 0, 0, 0, 0, 129, 6, 0, 0, 0, 0, 131, 6, 0, 0, 0, 0,
        ],
        fresh().requested().last_sent_id == Some(1u8),
        fresh().last_sent_id is None,
        !fresh().local_up && !fresh().remote_up,
        fresh().negotiated == (NegotiatedConfig {
            local_ip: None,
            peer_ip: None,
            dns1: None,
            dns2: None,
        }),
{
    let d = fresh().desired;
    let tail = d.drop_first();
    let last = tail.drop_first();
    assert(last.drop_first() =~= Seq::empty());
    assert(cp::options_wire(last.drop_first()) =~= Seq::empty());
    assert(cp::options_wire(last) =~= seq![131u8, 6, 0, 0, 0, 0]);
    assert(cp::options_wire(tail) =~= seq![129u8, 6, 0, 0, 0, 0, 131, 6, 0, 0, 0, 0]);
    assert(cp::options_wire(d) =~= seq![
        3u8, 6, 0, 0, 0, 0, 129, 6, 0, 0, 0, 0, 131, 6, 0, 0, 0, 0,
    ]);
    assert(fresh().request_wire() =~= seq![
        1u8, 1, 0, 22, 3, 6, 0, 0, 0, 0, 129, 6, 0, 0, 0, 0, 131, 6, 0, 0, 0, 0,
    ]);
}

/// A proposal carries the next identifier and reads back as the options that
/// this side wants; sending it records that identifier and changes nothing
/// else.
pub proof fn law_proposals_read_back(s: IpcpView)
    requires
        forall|i: int| 0 <= i < s.desired.len() ==> (#[trigger] s.desired[i]).data.len() <= 253,
        cp::options_wire(s.desired).len() <= 0xfffb,
    ensures
        ({
            let id = ((s.identifier + 1) % 256) as u8;
            let t = s.requested();
            &&& cp::frame_read(s.request_wire()) matches Some(f) && f.code == Code::ConfigureRequest
                && f.id == id && cp::options_read(f.data) == s.desired
            &&& t.identifier == id
            &&& t.last_sent_id == Some(id)
            &&& t.desired == s.desired
            &&& t.local_up == s.local_up
            &&& t.remote_up == s.remote_up
            &&& t.negotiated == s.negotiated
        }),
{
    let data = cp::options_wire(s.desired);
    let id = lcp::next_id(s.identifier);
    assert(id == ((s.identifier + 1) % 256) as u8);
    let w = cp::frame_wire(Code::ConfigureRequest, id, data);
    assert(cp::frame_read(w) == Some(cp::FrameView { code: Code::ConfigureRequest, id, data })) by {
        cp::law_frame_round_trip(Code::ConfigureRequest, id, data, Seq::empty());
        assert(w + Seq::<u8>::empty() =~= w);
    }
    assert(cp::options_read(data) == s.desired) by {
        cp::law_options_round_trip(s.desired, Seq::empty());
        assert(data + Seq::<u8>::empty() =~= data);
    }
    assert(s.request_wire() == w);
}

/// What is said to a proposal, in every case: it is rejected where it holds
/// anything but addresses of four bytes, and else acknowledged byte for byte,
/// always under its identifier. Either way only the peer's own address is
/// learned from it.
pub proof fn law_proposals_are_judged(s: IpcpView, f: cp::FrameView, data: Seq<u8>)
    requires
        cp::frame_read(data) == Some(f),
        f.code == Code::ConfigureRequest,
    ensures
        ({
            let opts = cp::options_read(f.data);
            let bad = exists|i: int|
                0 <= i < opts.len() && ((#[trigger] opts[i]).kind != 3 || opts[i].data.len() != 4);
            let (t, out) = step(s, data);
            &&& out.len() == 1
            &&& out[0][1] == f.id
            &&& bad ==> out[0][0] == 4 && out[0].skip(4) == cp::options_wire(rejected(opts))
            &&& !bad ==> out[0] == seq![2u8, f.id] + crate::wire::be16(4 + f.data.len()) + f.data
            &&& t.remote_up <==> !bad
            &&& t.identifier == s.identifier
            &&& t.desired == s.desired
            &&& t.last_sent_id == s.last_sent_id
            &&& t.local_up == s.local_up
            &&& t.negotiated.peer_ip == told_address(s.negotiated.peer_ip, opts)
            &&& t.negotiated.local_ip == s.negotiated.local_ip
            &&& t.negotiated.dns1 == s.negotiated.dns1
            &&& t.negotiated.dns2 == s.negotiated.dns2
        }),
{
    let opts = cp::options_read(f.data);
    law_every_proposal_is_answered(s, f, data);
    cp::law_codes_have_their_numbers(0);
    let w = cp::frame_wire(Code::ConfigureReject, f.id, cp::options_wire(rejected(opts)));
    cp::law_frame_layout(Code::ConfigureReject, f.id, cp::options_wire(rejected(opts)));
    cp::law_frame_layout(Code::ConfigureAck, f.id, f.data);
    assert(w.skip(4) =~= cp::options_wire(rejected(opts)));
}

/// Exactly the options that are no addresses of four bytes are rejected, in
/// order and as they came.
pub proof fn law_rejected_options_are_returned(opts: Seq<cp::OptView>, o: cp::OptView)
    ensures
        rejected(Seq::empty()) == Seq::<cp::OptView>::empty(),
        rejected(opts.push(o)) == if o.kind == 3 && o.data.len() == 4 {
            rejected(opts)
        } else {
            rejected(opts).push(o)
        },
{
    reveal(Seq::filter);
    assert(opts.push(o).drop_last() =~= opts);
    assert(rejected(Seq::empty()) =~= Seq::empty());
}

/// The last address that the peer tells is the one kept for it, octet for
/// octet.
pub proof fn law_last_told_address_counts(
    before: Option<Ipv4Addr>,
    opts: Seq<cp::OptView>,
    o: cp::OptView,
)
    ensures
        told_address(before, Seq::empty()) == before,
        told_address(before, opts.push(o)) == if o.kind == 3 && o.data.len() == 4 {
            Some(Ipv4Addr { a: o.data[0], b: o.data[1], c: o.data[2], d: o.data[3] })
        } else {
            told_address(before, opts)
        },
{
    assert(opts.push(o).drop_last() =~= opts);
}

/// What an accepted option sets: option 3 this side's address, 129 and 131 the
/// two name servers, each octet for octet, and anything else nothing.
pub proof fn law_accepted_options_set_addresses(
    c: NegotiatedConfig,
    opts: Seq<cp::OptView>,
    o: cp::OptView,
)
    ensures
        accepted_values(c, Seq::empty()) == c,
        ({
            let before = accepted_values(c, opts);
            let after = accepted_values(c, opts.push(o));
            let four = o.data.len() == 4;
            let addr = Some(
                Ipv4Addr { a: o.data[0], b: o.data[1], c: o.data[2], d: o.data[3] },
            );
            &&& after.local_ip == if four && o.kind == 3 {
                addr
            } else {
                before.local_ip
            }
            &&& after.dns1 == if four && o.kind == 129 {
                addr
            } else {
                before.dns1
            }
            &&& after.dns2 == if four && o.kind == 131 {
                addr
            } else {
                before.dns2
            }
            &&& after.peer_ip == before.peer_ip
        }),
{
    assert(opts.push(o).drop_last() =~= opts);
}

/// An acceptance of this side's last proposal opens this side's direction and
/// takes over the addresses proposed; nothing is sent.
pub proof fn law_acceptance_is_noted(s: IpcpView, f: cp::FrameView, data: Seq<u8>)
    requires
        cp::frame_read(data) == Some(f),
        f.code == Code::ConfigureAck,
        s.last_sent_id == Some(f.id),
    ensures
        ({
            let (t, out) = step(s, data);
            &&& out.len() == 0
            &&& t.local_up
            &&& t.remote_up == s.remote_up
            &&& t.identifier == s.identifier
            &&& t.last_sent_id == s.last_sent_id
            &&& t.desired == s.desired
            &&& t.negotiated == accepted_values(s.negotiated, s.desired)
        }),
{
}

/// A suggestion is taken over and a rejection is heeded; either closes this
/// side's direction and brings a new proposal under the next identifier, with no
/// address agreed on.
pub proof fn law_counter_offers_are_followed(s: IpcpView, f: cp::FrameView, data: Seq<u8>)
    requires
        cp::frame_read(data) == Some(f),
        f.code == Code::ConfigureNak || f.code == Code::ConfigureReject,
        s.last_sent_id == Some(f.id),
    ensures
        ({
            let opts = cp::options_read(f.data);
            let (t, out) = step(s, data);
            let id = ((s.identifier + 1) % 256) as u8;
            &&& f.code == Code::ConfigureNak ==> t.desired == cp::with_values(s.desired, opts)
            &&& f.code == Code::ConfigureReject ==> t.desired == cp::without_kinds(s.desired, opts)
            &&& out == seq![
                cp::frame_wire(Code::ConfigureRequest, id, cp::options_wire(t.desired)),
            ]
            &&& t.identifier == id
            &&& t.last_sent_id == Some(id)
            &&& !t.local_up
            &&& t.remote_up == s.remote_up
            &&& t.negotiated == s.negotiated
        }),
{
}

/// A request to terminate closes both directions and is acknowledged; a frame
/// that is malformed or of any other code changes nothing and is not answered.
pub proof fn law_other_frames_are_ignored(s: IpcpView, data: Seq<u8>)
    ensures
        cp::frame_read(data) is None ==> step(s, data) == (s, Seq::<Seq<u8>>::empty()),
        cp::frame_read(data) matches Some(f) ==> {
            &&& f.code.code() == 0 || f.code.code() >= 6 ==> step(s, data) == (
                s,
                Seq::<Seq<u8>>::empty(),
            )
            &&& f.code == Code::TerminateRequest ==> step(s, data) == (
                IpcpView { local_up: false, remote_up: false, ..s },
                seq![cp::frame_wire(Code::TerminateAck, f.id, Seq::empty())],
            )
        },
{
    cp::law_codes_have_their_numbers(0);
}

/// Addresses are agreed on exactly where both directions are configured.
pub proof fn law_open_means_both_directions(s: IpcpView)
    ensures
        s.is_open() <==> s.local_up && s.remote_up,
{
}

} // verus!
