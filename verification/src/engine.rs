//! The client's side of an SSTP session, from the connection request through
//! the PPP negotiation to the final message that binds both, and the traffic
//! after that. The engine does no input or output: it takes decoded packets
//! and returns events.

use crate::chap_fsm;
use crate::chap_fsm::{PendingResponse, PendingView};
use crate::cmac;
use crate::cmac::HashAlgo;
use crate::cp;
use crate::crypto;
use crate::entropy;
use crate::ipcp;
use crate::ipcp::{Ipcp, IpcpView, NegotiatedConfig};
use crate::lcp;
use crate::lcp::{Lcp, LcpView};
use crate::mppe;
use crate::mppe::{MppeKeys, MppeKeysView};
use crate::packet;
use crate::packet::{Attr, AttrType, AttrView, MsgType, Packet, PacketView};
use crate::ppp;
use crate::ppp::Protocol;
use crate::text;
use crate::wire;
use vstd::prelude::*;

verus! {

/// What the owner of the transport has to do, or has to know.
pub enum EngineEvent {
    /// Bytes to write to the transport as they are.
    Send(Vec<u8>),
    /// A line for the log.
    Trace(String),
    /// An IPv4 packet out of the tunnel.
    DeliverIpPacket(Vec<u8>),
    /// The tunnel is ready for traffic.
    Established { negotiated: NegotiatedConfig, mppe_keys: MppeKeys },
    /// The server has ended the session.
    Disconnected,
    /// The session cannot go on; the transport is to be closed.
    Fatal(String),
}

/// What an event is.
#[verifier::ext_equal]
pub enum EventView {
    Send(Seq<u8>),
    Trace(Seq<char>),
    DeliverIpPacket(Seq<u8>),
    Established { negotiated: NegotiatedConfig, mppe_keys: MppeKeysView },
    Disconnected,
    Fatal(Seq<char>),
}

impl View for EngineEvent {
    type V = EventView;

    open spec fn view(&self) -> EventView {
        match *self {
            EngineEvent::Send(b) => EventView::Send(b@),
            EngineEvent::Trace(s) => EventView::Trace(s@),
            EngineEvent::DeliverIpPacket(b) => EventView::DeliverIpPacket(b@),
            EngineEvent::Established { negotiated, mppe_keys } => EventView::Established {
                negotiated,
                mppe_keys: mppe_keys@,
            },
            EngineEvent::Disconnected => EventView::Disconnected,
            EngineEvent::Fatal(s) => EventView::Fatal(s@),
        }
    }
}

/// What a list of events is.
pub open spec fn events_view(events: Seq<EngineEvent>) -> Seq<EventView> {
    events.map_values(|e: EngineEvent| e@)
}

/// How far a session has come.
#[derive(Debug, Clone, Copy, PartialEq, Eq, Structural)]
pub enum Phase {
    WaitConnectAck,
    Lcp,
    Chap,
    Ipcp,
    Established,
}

impl Phase {
    /// The name of this phase.
    pub open spec fn label(self) -> &'static str {
        match self {
            Phase::WaitConnectAck => "WaitConnectAck",
            Phase::Lcp => "Lcp",
            Phase::Chap => "Chap",
            Phase::Ipcp => "Ipcp",
            Phase::Established => "Established",
        }
    }

    /// The name of this phase.
    pub fn name(self) -> (s: &'static str)
        ensures
            s == self.label(),
    {
        match self {
            Phase::WaitConnectAck => "WaitConnectAck",
            Phase::Lcp => "Lcp",
            Phase::Chap => "Chap",
            Phase::Ipcp => "Ipcp",
            Phase::Established => "Established",
        }
    }
}

/// The client's side of one session.
pub struct Engine {
    username: String,
    password: String,
    cert_hash_sha1: [u8; 32],
    cert_hash_sha256: [u8; 32],
    lcp: Lcp,
    ipcp: Ipcp,
    phase: Phase,
    hash_algo: Option<HashAlgo>,
    server_nonce: Option<[u8; 32]>,
    pending_chap: Option<PendingResponse>,
    auth_challenge: Option<[u8; 16]>,
    mppe_keys: Option<MppeKeys>,
}

/// The state of a session.
#[verifier::ext_equal]
pub struct EngineView {
    pub username: Seq<char>,
    pub password: Seq<char>,
    /// The hash of the server's certificate under SHA-1, in thirty-two bytes.
    pub cert_hash_sha1: Seq<u8>,
    /// The hash of the server's certificate under SHA-256.
    pub cert_hash_sha256: Seq<u8>,
    pub lcp: LcpView,
    pub ipcp: IpcpView,
    pub phase: Phase,
    /// The hash that the server chose for the binding.
    pub hash_algo: Option<HashAlgo>,
    /// The nonce of the server for the binding.
    pub server_nonce: Option<Seq<u8>>,
    /// The response that the server has not answered yet.
    pub pending_chap: Option<PendingView>,
    /// The last challenge of the server.
    pub auth_challenge: Option<Seq<u8>>,
    /// The session keys, once the server has proved itself.
    pub mppe_keys: Option<MppeKeysView>,
}

impl View for Engine {
    type V = EngineView;

    closed spec fn view(&self) -> EngineView {
        EngineView {
            username: self.username@,
            password: self.password@,
            cert_hash_sha1: self.cert_hash_sha1@,
            cert_hash_sha256: self.cert_hash_sha256@,
            lcp: self.lcp@,
            ipcp: self.ipcp@,
            phase: self.phase,
            hash_algo: self.hash_algo,
            server_nonce: match self.server_nonce {
                Some(n) => Some(n@),
                None => None,
            },
            pending_chap: match self.pending_chap {
                Some(p) => Some(p@),
                None => None,
            },
            auth_challenge: match self.auth_challenge {
                Some(c) => Some(c@),
                None => None,
            },
            mppe_keys: match self.mppe_keys {
                Some(k) => Some(k@),
                None => None,
            },
        }
    }
}

/// A session that has not started.
pub open spec fn fresh(
    username: Seq<char>,
    password: Seq<char>,
    cert: Seq<u8>,
    magic: u32,
) -> EngineView {
    EngineView {
        username,
        password,
        cert_hash_sha1: crypto::sha1_of(cert) + crypto::zeros(12),
        cert_hash_sha256: crypto::sha256_of(cert),
        lcp: lcp::fresh(magic),
        ipcp: ipcp::fresh(),
        phase: Phase::WaitConnectAck,
        hash_algo: None,
        server_nonce: None,
        pending_chap: None,
        auth_challenge: None,
        mppe_keys: None,
    }
}

/// The packet that carries a payload of a PPP protocol.
pub open spec fn wrapped(proto: Protocol, payload: Seq<u8>) -> Seq<u8> {
    packet::data_wire(ppp::frame_wire(proto, payload))
}

/// Puts a payload of a PPP protocol into a packet.
pub fn wrap_data(proto: Protocol, payload: &[u8]) -> (out: Vec<u8>)
    ensures
        out@ == wrapped(proto, payload@),
{
    let frame = ppp::encode(proto, payload);
    packet::encode_data(frame.as_slice())
}

/// The reason that a refusal of the server gives.
pub open spec fn refusal(attrs: Seq<AttrView>) -> Seq<char> {
    match packet::first_of_type(attrs, AttrType::StatusInfo) {
        Some(data) => packet::status_sentence(data),
        None => "no status info given"@,
    }
}

/// The log line for a control frame that came in.
pub open spec fn recv_line(proto: Seq<char>, code: Seq<char>, id: u8, len: nat) -> Seq<char> {
    proto + " recv "@ + code + " id="@ + text::decimal(id as nat) + " ("@ + text::decimal(len)
}

/// The log line for a control frame that goes out.
pub open spec fn send_line(proto: Seq<char>, code: Seq<char>, id: u8) -> Seq<char> {
    proto + " send "@ + code + " id="@ + text::decimal(id as nat)
}

/// The events for one control frame that goes out.
pub open spec fn frame_events(label: Seq<char>, proto: Protocol, frame: Seq<u8>) -> Seq<EventView> {
    match cp::frame_read(frame) {
        Some(f) => seq![
            EventView::Trace(send_line(label, f.code.label(), f.id)),
            EventView::Send(wrapped(proto, frame)),
        ],
        None => seq![EventView::Send(wrapped(proto, frame))],
    }
}

/// The events for the control frames that go out, in order.
pub open spec fn frames_events(
    label: Seq<char>,
    proto: Protocol,
    frames: Seq<Seq<u8>>,
) -> Seq<EventView>
    decreases frames.len(),
{
    if frames.len() == 0 {
        Seq::empty()
    } else {
        frames_events(label, proto, frames.drop_last()) + frame_events(label, proto, frames.last())
    }
}

/// The state and the events after the server accepted the connection.
pub open spec fn ack_step(s: EngineView, attrs: Seq<AttrView>) -> (EngineView, Seq<EventView>) {
    if s.phase != Phase::WaitConnectAck {
        (s, Seq::empty())
    } else {
        match packet::first_of_type(attrs, AttrType::CryptoBindRequest) {
            None => (
                s,
                seq![
                    EventView::Fatal(
                        "CONNECT_ACK is missing its crypto-bind-request attribute"@,
                    ),
                ],
            ),
            Some(data) => if data.len() != 36 {
                (
                    s,
                    seq![
                        EventView::Fatal(
                            "crypto-bind-request attribute has the wrong length: "@ + text::decimal(
                                data.len(),
                            ),
                        ),
                    ],
                )
            } else {
                let algo = if (data[3] / 2) % 2 == 1 {
                    HashAlgo::Sha256
                } else {
                    HashAlgo::Sha1
                };
                (
                    EngineView {
                        hash_algo: Some(algo),
                        server_nonce: Some(data.subrange(4, 36)),
                        phase: Phase::Lcp,
                        lcp: s.lcp.requested(),
                        ..s
                    },
                    seq![
                        EventView::Trace(
                            "CONNECT_ACK ok (hash="@ + algo.label()@ + "), starting LCP"@,
                        ),
                        EventView::Send(wrapped(Protocol::Lcp, s.lcp.request_wire())),
                    ],
                )
            },
        }
    }
}

/// The state and the events after a control message.
pub open spec fn ctrl_step(s: EngineView, msg_type: MsgType, attrs: Seq<AttrView>) -> (
    EngineView,
    Seq<EventView>,
) {
    match msg_type {
        MsgType::ConnectAck => ack_step(s, attrs),
        MsgType::ConnectNak => (
            s,
            seq![EventView::Fatal("server sent CONNECT_NAK: "@ + refusal(attrs))],
        ),
        MsgType::Abort => (
            s,
            seq![EventView::Fatal("server aborted the connection: "@ + refusal(attrs))],
        ),
        MsgType::Disconnect => (
            s,
            seq![
                EventView::Send(packet::ctrl_wire(MsgType::DisconnectAck, Seq::empty())),
                EventView::Disconnected,
            ],
        ),
        MsgType::DisconnectAck => (s, seq![EventView::Disconnected]),
        MsgType::EchoRequest => (
            s,
            seq![EventView::Send(packet::ctrl_wire(MsgType::EchoReply, Seq::empty()))],
        ),
        _ => (s, Seq::empty()),
    }
}

/// The state and the events after a frame of the link negotiation.
pub open spec fn lcp_step(s: EngineView, payload: Seq<u8>, draws: Seq<u32>) -> (
    EngineView,
    Seq<EventView>,
) {
    let (next, frames) = lcp::step(s.lcp, payload, draws);
    let first = match cp::frame_read(payload) {
        Some(f) => recv_line("LCP"@, f.code.label(), f.id, f.data.len()) + " option bytes)"@,
        None => "LCP recv malformed frame ("@ + text::decimal(payload.len()) + " bytes)"@,
    };
    let events = seq![EventView::Trace(first)] + frames_events("LCP"@, Protocol::Lcp, frames);
    let t = EngineView { lcp: next, ..s };
    if next.is_open() && s.phase == Phase::Lcp {
        match next.peer_auth {
            Some(req) => if req.names_mschapv2() {
                (EngineView { phase: Phase::Chap, ..t }, events)
            } else {
                (
                    t,
                    seq![
                        EventView::Fatal(
                            "server requires an authentication method other than MS-CHAPv2, which is all we implement"@,
                        ),
                    ],
                )
            },
            None => (
                t,
                seq![
                    EventView::Fatal(
                        "server did not request PPP authentication; refusing to continue without it"@,
                    ),
                ],
            ),
        }
    } else {
        (t, events)
    }
}

/// The state and the events once a proof of the server has been judged: the
/// session keys where it held, and what the server said where it did not.
pub open spec fn conclusion(s: EngineView, outcome: Result<MppeKeysView, Seq<char>>) -> (
    EngineView,
    Seq<EventView>,
) {
    match outcome {
        Err(said) => (
            s,
            seq![
                EventView::Fatal(
                    "server's CHAP authenticator response did not verify -- it may not actually know our password (possible MITM); server said: "@
                        + said + "; aborting"@,
                ),
            ],
        ),
        Ok(keys) => (
            EngineView {
                mppe_keys: Some(keys),
                phase: Phase::Ipcp,
                ipcp: s.ipcp.requested(),
                ..s
            },
            seq![
                EventView::Trace("CHAP success verified, starting IPCP"@),
                EventView::Send(wrapped(Protocol::Ipcp, s.ipcp.request_wire())),
            ],
        ),
    }
}

/// The state and the events after a challenge of the server.
pub open spec fn challenge_step(
    s: EngineView,
    f: chap_fsm::FrameView,
    line: Seq<char>,
    peer_challenge: Seq<u8>,
) -> (EngineView, Seq<EventView>) {
    match chap_fsm::challenge_parts(f.data) {
        None => (s, seq![EventView::Fatal("malformed CHAP challenge"@)]),
        Some((value, name)) => if value.len() != 16 {
            (
                s,
                seq![
                    EventView::Fatal(
                        "CHAP challenge value must be 16 bytes, got "@ + text::decimal(value.len()),
                    ),
                ],
            )
        } else {
            let (wire, pending) = chap_fsm::response_parts(
                f.id,
                value,
                s.username,
                s.password,
                peer_challenge,
            );
            (
                EngineView { auth_challenge: Some(value), pending_chap: Some(pending), ..s },
                seq![
                    EventView::Trace(line),
                    EventView::Trace(
                        "CHAP send Response id="@ + text::decimal(f.id as nat) + " for user="@
                            + text::debug_quoted(s.username),
                    ),
                    EventView::Send(wrapped(Protocol::Chap, wire)),
                ],
            )
        },
    }
}

/// The state and the events after a success message of the server.
pub open spec fn success_step(s: EngineView, f: chap_fsm::FrameView, line: Seq<char>) -> (
    EngineView,
    Seq<EventView>,
) {
    let t = EngineView { pending_chap: None, ..s };
    match (s.pending_chap, s.auth_challenge) {
        (Some(pending), Some(challenge)) => {
            let said = text::utf8_lossy(f.data);
            if chap_fsm::text_proves(
                said,
                chap_fsm::expected_proof(s.password, pending, challenge, s.username),
            ) {
                let (u, events) = conclusion(
                    t,
                    Ok(mppe::keys_of(s.password, pending.nt_response, false)),
                );
                (u, seq![EventView::Trace(line)] + events)
            } else {
                conclusion(t, Err(text::debug_quoted(said)))
            }
        },
        _ => (
            t,
            seq![
                EventView::Fatal(
                    "received CHAP success with no pending response to verify it against"@,
                ),
            ],
        ),
    }
}

/// The state and the events after a frame of the authentication.
pub open spec fn chap_step(s: EngineView, payload: Seq<u8>, peer_challenge: Seq<u8>) -> (
    EngineView,
    Seq<EventView>,
) {
    match chap_fsm::frame_read(payload) {
        None => (s, seq![EventView::Fatal("malformed CHAP frame"@)]),
        Some(f) => {
            let line = recv_line("CHAP"@, f.code.label(), f.id, f.data.len()) + " data bytes)"@;
            match f.code {
                chap_fsm::Code::Challenge => challenge_step(s, f, line, peer_challenge),
                chap_fsm::Code::Success => success_step(s, f, line),
                chap_fsm::Code::Failure => (
                    s,
                    seq![
                        EventView::Trace(line),
                        EventView::Fatal(
                            "CHAP authentication failed: "@ + text::utf8_lossy(f.data),
                        ),
                    ],
                ),
                _ => (
                    s,
                    seq![
                        EventView::Trace(line),
                        EventView::Fatal("unexpected CHAP code from server: "@ + f.code.label()),
                    ],
                ),
            }
        },
    }
}

/// The hash of the server's certificate under the chosen hash.
pub open spec fn cert_hash(s: EngineView, algo: HashAlgo) -> Seq<u8> {
    match algo {
        HashAlgo::Sha1 => s.cert_hash_sha1,
        HashAlgo::Sha256 => s.cert_hash_sha256,
    }
}

/// The state and the events after a frame of the address negotiation.
pub open spec fn ipcp_step(s: EngineView, payload: Seq<u8>) -> (EngineView, Seq<EventView>) {
    let (next, frames) = ipcp::step(s.ipcp, payload);
    let first = match cp::frame_read(payload) {
        Some(f) => seq![
            EventView::Trace(
                recv_line("IPCP"@, f.code.label(), f.id, f.data.len()) + " option bytes)"@,
            ),
        ],
        None => Seq::empty(),
    };
    let events = first + frames_events("IPCP"@, Protocol::Ipcp, frames);
    let t = EngineView { ipcp: next, ..s };
    if next.is_open() && s.phase == Phase::Ipcp {
        match (s.hash_algo, s.server_nonce, s.mppe_keys) {
            (Some(algo), Some(nonce), Some(keys)) => (
                EngineView { phase: Phase::Established, ..t },
                events + seq![
                    EventView::Send(
                        cmac::bound_message(
                            algo,
                            nonce,
                            cert_hash(s, algo),
                            keys.send_key,
                            keys.recv_key,
                        ),
                    ),
                    EventView::Established { negotiated: next.negotiated, mppe_keys: keys },
                ],
            ),
            _ => (
                t,
                seq![
                    EventView::Fatal(
                        "PPP negotiation finished before the server accepted the connection"@,
                    ),
                ],
            ),
        }
    } else {
        (t, events)
    }
}

/// The state and the events after a PPP frame.
pub open spec fn frame_step(
    s: EngineView,
    frame: Seq<u8>,
    draws: Seq<u32>,
    peer_challenge: Seq<u8>,
) -> (EngineView, Seq<EventView>) {
    match ppp::frame_read(frame) {
        None => (s, Seq::empty()),
        Some((proto, payload)) => match proto {
            Protocol::Lcp => lcp_step(s, payload, draws),
            Protocol::Chap => chap_step(s, payload, peer_challenge),
            Protocol::Ipcp => ipcp_step(s, payload),
            Protocol::Ip => (s, seq![EventView::DeliverIpPacket(payload)]),
            _ => {
                let id = lcp::next_id(s.lcp.identifier);
                (
                    EngineView { lcp: LcpView { identifier: id, ..s.lcp }, ..s },
                    seq![
                        EventView::Send(
                            wrapped(
                                Protocol::Lcp,
                                cp::frame_wire(cp::Code::ProtocolReject, id, ppp::stripped(frame)),
                            ),
                        ),
                    ],
                )
            },
        },
    }
}

/// The state and the events after a packet.
pub open spec fn step(
    s: EngineView,
    pkt: PacketView,
    draws: Seq<u32>,
    peer_challenge: Seq<u8>,
) -> (EngineView, Seq<EventView>) {
    match pkt {
        PacketView::Ctrl { msg_type, attrs } => ctrl_step(s, msg_type, attrs),
        PacketView::Data(frame) => frame_step(s, frame, draws, peer_challenge),
    }
}

/// How many random numbers the answer to a packet needs.
pub open spec fn draws_for(s: EngineView, pkt: PacketView) -> nat {
    match pkt {
        PacketView::Data(frame) => match ppp::frame_read(frame) {
            Some((proto, payload)) => if proto == Protocol::Lcp {
                lcp::draws_for(s.lcp, payload)
            } else {
                0
            },
            None => 0,
        },
        _ => 0,
    }
}

fn one(e: EngineEvent) -> (v: Vec<EngineEvent>)
    ensures
        events_view(v@) == seq![e@],
{
    let mut v: Vec<EngineEvent> = Vec::new();
    v.push(e);
    proof {
        assert(events_view(v@) =~= seq![e@]);
    }
    v
}

fn none() -> (v: Vec<EngineEvent>)
    ensures
        events_view(v@) == Seq::<EventView>::empty(),
{
    let v: Vec<EngineEvent> = Vec::new();
    proof {
        assert(events_view(v@) =~= Seq::empty());
    }
    v
}

fn fatal(message: &str) -> (v: Vec<EngineEvent>)
    ensures
        events_view(v@) == seq![EventView::Fatal(message@)],
{
    let mut s = String::new();
    text::push_str(&mut s, message);
    proof {
        assert(s@ =~= message@);
    }
    one(EngineEvent::Fatal(s))
}

fn fatal_with(message: &str, detail: &str) -> (v: Vec<EngineEvent>)
    ensures
        events_view(v@) == seq![EventView::Fatal(message@ + detail@)],
{
    let mut s = String::new();
    text::push_str(&mut s, message);
    text::push_str(&mut s, detail);
    proof {
        assert(s@ =~= message@ + detail@);
    }
    one(EngineEvent::Fatal(s))
}

fn push_event(v: &mut Vec<EngineEvent>, e: EngineEvent)
    ensures
        events_view(final(v)@) == events_view(old(v)@).push(e@),
{
    v.push(e);
    proof {
        assert(events_view(v@) =~= events_view(old(v)@).push(e@));
    }
}

fn number(n: usize) -> (s: String)
    ensures
        s@ == text::decimal(n as nat),
{
    let mut s = String::new();
    text::push_decimal(&mut s, n as u64);
    proof {
        assert(s@ =~= text::decimal(n as nat));
    }
    s
}

/// Starts the log line for a control frame that came in.
fn push_recv(s: &mut String, proto: &str, id: u8, len: usize, label: &str)
    ensures
        final(s)@ == old(s)@ + recv_line(proto@, label@, id, len as nat),
{
    text::push_str(s, proto);
    text::push_str(s, " recv ");
    text::push_str(s, label);
    text::push_str(s, " id=");
    text::push_decimal(s, id as u64);
    text::push_str(s, " (");
    text::push_decimal(s, len as u64);
    proof {
        assert(s@ =~= old(s)@ + recv_line(proto@, label@, id, len as nat));
    }
}

/// The log line for a negotiation frame that came in.
fn negotiation_line(proto: &str, frame: &cp::Frame) -> (s: String)
    ensures
        s@ == recv_line(proto@, frame.code.label(), frame.id, frame.data@.len())
            + " option bytes)"@,
{
    let mut label = String::new();
    frame.code.push_label(&mut label);
    proof {
        assert(label@ =~= frame.code.label());
    }
    let mut s = String::new();
    push_recv(&mut s, proto, frame.id, frame.data.len(), label.as_str());
    text::push_str(&mut s, " option bytes)");
    proof {
        assert(s@ =~= recv_line(proto@, frame.code.label(), frame.id, frame.data@.len())
            + " option bytes)"@);
    }
    s
}

/// Adds the events for the control frames that go out.
fn add_frames(v: &mut Vec<EngineEvent>, label: &str, proto: Protocol, frames: &Vec<Vec<u8>>)
    ensures
        events_view(final(v)@) == events_view(old(v)@) + frames_events(
            label@,
            proto,
            wire::strings_view(frames@),
        ),
{
    let ghost start = events_view(v@);
    let ghost all = wire::strings_view(frames@);
    let mut i: usize = 0;
    proof {
        assert(start + frames_events(label@, proto, all.take(0)) =~= start);
    }
    while i < frames.len()
        invariant
            i <= frames@.len(),
            all == wire::strings_view(frames@),
            events_view(v@) == start + frames_events(label@, proto, all.take(i as int)),
        decreases frames@.len() - i,
    {
        let ghost before = events_view(v@);
        let frame = frames[i].as_slice();
        if let Some(f) = cp::decode(frame) {
            let mut s = String::new();
            text::push_str(&mut s, label);
            text::push_str(&mut s, " send ");
            f.code.push_label(&mut s);
            text::push_str(&mut s, " id=");
            text::push_decimal(&mut s, f.id as u64);
            proof {
                assert(s@ =~= send_line(label@, f.code.label(), f.id));
            }
            push_event(v, EngineEvent::Trace(s));
        }
        push_event(v, EngineEvent::Send(wrap_data(proto, frame)));
        proof {
            assert(all[i as int] == frame@);
            assert(all.take(i + 1).drop_last() =~= all.take(i as int));
            assert(all.take(i + 1).last() == frame@);
            assert(events_view(v@) =~= before + frame_events(label@, proto, frame@));
            assert(events_view(v@) =~= start + frames_events(label@, proto, all.take(i + 1)));
        }
        i += 1;
    }
    proof {
        assert(all.take(i as int) =~= all);
    }
}

/// The reason that a refusal of the server gives.
fn refusal_text(attrs: &[Attr]) -> (s: String)
    ensures
        s@ == refusal(packet::attrs_view(attrs@)),
{
    match packet::describe_status(attrs) {
        Some(s) => s,
        None => {
            let mut s = String::new();
            text::push_str(&mut s, "no status info given");
            proof {
                assert(s@ =~= "no status info given"@);
            }
            s
        },
    }
}

/// A message without attributes.
fn bare(msg_type: MsgType) -> (out: Vec<u8>)
    ensures
        out@ == packet::ctrl_wire(msg_type, Seq::empty()),
{
    let attrs: [(AttrType, &[u8]); 0] = [];
    proof {
        assert(packet::pairs_view(attrs@) =~= Seq::empty());
    }
    packet::encode_ctrl(msg_type, attrs.as_slice())
}

/// The thirty-two bytes behind the first four.
fn nonce_of(data: &[u8]) -> (r: [u8; 32])
    requires
        data@.len() == 36,
    ensures
        r@ == data@.subrange(4, 36),
{
    let mut r: [u8; 32] = [0u8; 32];
    let mut i: usize = 0;
    while i < 32
        invariant
            i <= 32,
            data@.len() == 36,
            forall|j: int| 0 <= j < i ==> r@[j] == data@[4 + j],
        decreases 32 - i,
    {
        r[i] = data[4 + i];
        i += 1;
    }
    proof {
        assert(r@ =~= data@.subrange(4, 36));
    }
    r
}

impl Engine {
    /// A session for a user, under a random magic number. `server_cert_der` is
    /// the certificate that the server showed.
    pub fn new(username: &str, password: &str, server_cert_der: &[u8]) -> (e: Engine)
        ensures
            e@ == fresh(username@, password@, server_cert_der@, e@.lcp.magic),
    {
        Engine::with_magic(username, password, server_cert_der, entropy::random_u32())
    }

    /// A session for a user, under the given magic number.
    pub fn with_magic(
        username: &str,
        password: &str,
        server_cert_der: &[u8],
        magic: u32,
    ) -> (e: Engine)
        ensures
            e@ == fresh(username@, password@, server_cert_der@, magic),
    {
        let sha1 = crypto::sha1_digest(server_cert_der);
        let cert_hash_sha256 = crypto::sha256_digest(server_cert_der);
        Engine {
            username: username.to_owned(),
            password: password.to_owned(),
            cert_hash_sha1: crypto::pad32(&sha1),
            cert_hash_sha256,
            lcp: Lcp::with_magic(magic),
            ipcp: Ipcp::new(),
            phase: Phase::WaitConnectAck,
            hash_algo: None,
            server_nonce: None,
            pending_chap: None,
            auth_challenge: None,
            mppe_keys: None,
        }
    }

    /// A description for logs, which says nothing of the password.
    pub fn debug_text(&self) -> (s: String)
        ensures
            s@ == "Engine { username: "@ + text::debug_quoted(self@.username) + ", phase: "@
                + self@.phase.label()@ + ", .. }"@,
    {
        let mut s = String::new();
        text::push_str(&mut s, "Engine { username: ");
        let name = text::quoted(self.username.as_str());
        text::push_str(&mut s, name.as_str());
        text::push_str(&mut s, ", phase: ");
        text::push_str(&mut s, self.phase.name());
        text::push_str(&mut s, ", .. }");
        proof {
            assert(s@ =~= "Engine { username: "@ + text::debug_quoted(self@.username)
                + ", phase: "@ + self@.phase.label()@ + ", .. }"@);
        }
        s
    }

    /// The request that opens the session: PPP is what it will carry.
    pub fn start(&self) -> (out: Vec<u8>)
        ensures
            out@ == packet::ctrl_wire(
                MsgType::ConnectRequest,
                seq![AttrView { attr_type: AttrType::EncapProtocol, data: seq![0u8, 1u8] }],
            ),
    {
        let proto: [u8; 2] = [0u8, 1u8];
        let attrs: [(AttrType, &[u8]); 1] = [(AttrType::EncapProtocol, proto.as_slice())];
        proof {
            assert(proto@ =~= seq![0u8, 1u8]);
            assert(packet::pairs_view(attrs@) =~= seq![
                AttrView { attr_type: AttrType::EncapProtocol, data: seq![0u8, 1u8] },
            ]);
        }
        packet::encode_ctrl(MsgType::ConnectRequest, attrs.as_slice())
    }

    /// The message by which the user ends the session.
    pub fn build_disconnect(&self) -> (out: Vec<u8>)
        ensures
            out@ == packet::ctrl_wire(MsgType::Disconnect, Seq::empty()),
    {
        bare(MsgType::Disconnect)
    }

    /// The message that asks an idle server for a sign of life.
    pub fn build_echo_request(&self) -> (out: Vec<u8>)
        ensures
            out@ == packet::ctrl_wire(MsgType::EchoRequest, Seq::empty()),
    {
        bare(MsgType::EchoRequest)
    }

    /// How many random numbers the answer to a packet needs.
    pub fn draws_needed(&self, pkt: &Packet) -> (n: usize)
        ensures
            n == draws_for(self@, pkt@),
    {
        match pkt {
            Packet::Data(frame) => match ppp::decode(frame.as_slice()) {
                Some((Protocol::Lcp, payload)) => self.lcp.draws_needed(payload),
                _ => 0,
            },
            _ => 0,
        }
    }

    /// Takes in a packet. The random values of the answer are drawn here.
    pub fn on_packet(&mut self, pkt: Packet) -> (events: Vec<EngineEvent>)
        ensures
            exists|draws: Seq<u32>, peer_challenge: Seq<u8>|
                draws.len() == draws_for(old(self)@, pkt@) && peer_challenge.len() == 16 && (
                final(self)@,
                events_view(events@),
                ) == #[trigger] step(old(self)@, pkt@, draws, peer_challenge),
    {
        let count: usize = self.draws_needed(&pkt);
        let draws = entropy::random_numbers(count);
        let is_chap = match &pkt {
            Packet::Data(frame) => matches!(ppp::decode(frame.as_slice()), Some((Protocol::Chap, _))),
            _ => false,
        };
        let peer_challenge: [u8; 16] = if is_chap {
            entropy::random_block()
        } else {
            [0u8; 16]
        };
        self.on_packet_with(pkt, draws.as_slice(), &peer_challenge)
    }

    /// Takes in a packet, with the random values of the answer given: numbers
    /// for looped magic numbers, and a challenge of the client's own.
    pub fn on_packet_with(
        &mut self,
        pkt: Packet,
        draws: &[u32],
        peer_challenge: &[u8; 16],
    ) -> (events: Vec<EngineEvent>)
        requires
            draws@.len() == draws_for(old(self)@, pkt@),
        ensures
            (final(self)@, events_view(events@)) == step(
                old(self)@,
                pkt@,
                draws@,
                peer_challenge@,
            ),
    {
        match pkt {
            Packet::Ctrl { msg_type, attrs } => self.on_ctrl(msg_type, attrs.as_slice()),
            Packet::Data(frame) => self.on_ppp_frame(frame.as_slice(), draws, peer_challenge),
        }
    }

    fn on_ctrl(&mut self, msg_type: MsgType, attrs: &[Attr]) -> (events: Vec<EngineEvent>)
        ensures
            (final(self)@, events_view(events@)) == ctrl_step(
                old(self)@,
                msg_type,
                packet::attrs_view(attrs@),
            ),
    {
        match msg_type {
            MsgType::ConnectAck => self.on_connect_ack(attrs),
            MsgType::ConnectNak => {
                let reason = refusal_text(attrs);
                fatal_with("server sent CONNECT_NAK: ", reason.as_str())
            },
            MsgType::Abort => {
                let reason = refusal_text(attrs);
                fatal_with("server aborted the connection: ", reason.as_str())
            },
            MsgType::Disconnect => {
                let mut v = one(EngineEvent::Send(bare(MsgType::DisconnectAck)));
                push_event(&mut v, EngineEvent::Disconnected);
                proof {
                    assert(events_view(v@) =~= ctrl_step(
                        self@,
                        msg_type,
                        packet::attrs_view(attrs@),
                    ).1);
                }
                v
            },
            MsgType::DisconnectAck => one(EngineEvent::Disconnected),
            MsgType::EchoRequest => one(EngineEvent::Send(bare(MsgType::EchoReply))),
            _ => none(),
        }
    }

    fn on_connect_ack(&mut self, attrs: &[Attr]) -> (events: Vec<EngineEvent>)
        ensures
            (final(self)@, events_view(events@)) == ack_step(
                old(self)@,
                packet::attrs_view(attrs@),
            ),
    {
        if self.phase != Phase::WaitConnectAck {
            return none();
        }
        let data = match packet::find_attr(attrs, AttrType::CryptoBindRequest) {
            Some(d) => d,
            None => return fatal("CONNECT_ACK is missing its crypto-bind-request attribute"),
        };
        if data.len() != 36 {
            let n = number(data.len());
            return fatal_with(
                "crypto-bind-request attribute has the wrong length: ",
                n.as_str(),
            );
        }
        let hash_byte: u8 = data[3];
        assert((hash_byte & 2u8 != 0) == ((hash_byte / 2) % 2 == 1)) by (bit_vector);
        let algo = if hash_byte & 0x02 != 0 {
            HashAlgo::Sha256
        } else {
            HashAlgo::Sha1
        };
        self.hash_algo = Some(algo);
        self.server_nonce = Some(nonce_of(data.as_slice()));
        self.phase = Phase::Lcp;
        let request = self.lcp.start();
        let mut s = String::new();
        text::push_str(&mut s, "CONNECT_ACK ok (hash=");
        text::push_str(&mut s, algo.name());
        text::push_str(&mut s, "), starting LCP");
        proof {
            assert(s@ =~= "CONNECT_ACK ok (hash="@ + algo.label()@ + "), starting LCP"@);
        }
        let mut v = one(EngineEvent::Trace(s));
        push_event(&mut v, EngineEvent::Send(wrap_data(Protocol::Lcp, request.as_slice())));
        proof {
            let (t, events) = ack_step(old(self)@, packet::attrs_view(attrs@));
            assert(events_view(v@) =~= events);
            assert(self@ =~= t);
        }
        v
    }

    fn on_ppp_frame(
        &mut self,
        frame: &[u8],
        draws: &[u32],
        peer_challenge: &[u8; 16],
    ) -> (events: Vec<EngineEvent>)
        requires
            draws@.len() == draws_for(old(self)@, PacketView::Data(frame@)),
        ensures
            (final(self)@, events_view(events@)) == frame_step(
                old(self)@,
                frame@,
                draws@,
                peer_challenge@,
            ),
    {
        let (proto, payload) = match ppp::decode(frame) {
            Some(x) => x,
            None => return none(),
        };
        match proto {
            Protocol::Lcp => self.handle_lcp(payload, draws),
            Protocol::Chap => self.handle_chap(payload, peer_challenge),
            Protocol::Ipcp => self.handle_ipcp(payload),
            Protocol::Ip => one(
                EngineEvent::DeliverIpPacket(vstd::slice::slice_to_vec(payload)),
            ),
            _ => {
                let reject = self.lcp.build_protocol_reject(ppp::strip_address_control(frame));
                let v = one(EngineEvent::Send(wrap_data(Protocol::Lcp, reject.as_slice())));
                proof {
                    let (t, events) = frame_step(old(self)@, frame@, draws@, peer_challenge@);
                    assert(self@ =~= t);
                    assert(events_view(v@) =~= events);
                }
                v
            },
        }
    }

    fn handle_lcp(&mut self, payload: &[u8], draws: &[u32]) -> (events: Vec<EngineEvent>)
        requires
            draws@.len() == lcp::draws_for(old(self)@.lcp, payload@),
        ensures
            (final(self)@, events_view(events@)) == lcp_step(old(self)@, payload@, draws@),
    {
        let line = match cp::decode(payload) {
            Some(frame) => negotiation_line("LCP", &frame),
            None => {
                let mut s = String::new();
                text::push_str(&mut s, "LCP recv malformed frame (");
                text::push_decimal(&mut s, payload.len() as u64);
                text::push_str(&mut s, " bytes)");
                proof {
                    assert(s@ =~= "LCP recv malformed frame ("@ + text::decimal(payload@.len())
                        + " bytes)"@);
                }
                s
            },
        };
        let mut v = one(EngineEvent::Trace(line));
        let result = self.lcp.receive_with(payload, draws);
        add_frames(&mut v, "LCP", Protocol::Lcp, &result.to_send);
        if result.up && self.phase == Phase::Lcp {
            match self.lcp.peer_auth_requirement() {
                Some(req) => {
                    if req.is_mschapv2() {
                        self.phase = Phase::Chap;
                    } else {
                        return fatal(
                            "server requires an authentication method other than MS-CHAPv2, which is all we implement",
                        );
                    }
                },
                None => {
                    return fatal(
                        "server did not request PPP authentication; refusing to continue without it",
                    );
                },
            }
        }
        v
    }

    /// Takes in the judgement on a proof of the server: the session keys where
    /// it held, and what the server said where it did not.
    pub fn conclude_chap(&mut self, outcome: Result<MppeKeys, String>) -> (events: Vec<EngineEvent>)
        ensures
            (final(self)@, events_view(events@)) == conclusion(
                old(self)@,
                match outcome {
                    Ok(keys) => Ok(keys@),
                    Err(said) => Err(said@),
                },
            ),
    {
        match outcome {
            Err(said) => {
                let mut s = String::new();
                text::push_str(
                    &mut s,
                    "server's CHAP authenticator response did not verify -- it may not actually know our password (possible MITM); server said: ",
                );
                text::push_str(&mut s, said.as_str());
                text::push_str(&mut s, "; aborting");
                proof {
                    assert(s@
                        =~= "server's CHAP authenticator response did not verify -- it may not actually know our password (possible MITM); server said: "@
                        + said@ + "; aborting"@);
                }
                one(EngineEvent::Fatal(s))
            },
            Ok(keys) => {
                self.mppe_keys = Some(keys);
                self.phase = Phase::Ipcp;
                let request = self.ipcp.start();
                let mut line = String::new();
                text::push_str(&mut line, "CHAP success verified, starting IPCP");
                proof {
                    assert(line@ =~= "CHAP success verified, starting IPCP"@);
                }
                let mut v = one(EngineEvent::Trace(line));
                push_event(&mut v, EngineEvent::Send(wrap_data(Protocol::Ipcp, request.as_slice())));
                proof {
                    let (t, events) = conclusion(old(self)@, Ok(keys@));
                    assert(self@ =~= t);
                    assert(events_view(v@) =~= events);
                }
                v
            },
        }
    }

    fn handle_challenge(
        &mut self,
        frame: &chap_fsm::Frame,
        line: String,
        peer_challenge: &[u8; 16],
    ) -> (events: Vec<EngineEvent>)
        ensures
            (final(self)@, events_view(events@)) == challenge_step(
                old(self)@,
                frame@,
                line@,
                peer_challenge@,
            ),
    {
        let info = match chap_fsm::parse_challenge(frame) {
            Some(i) => i,
            None => return fatal("malformed CHAP challenge"),
        };
        let auth_challenge = match chap_fsm::block16(info.value.as_slice()) {
            Some(c) => c,
            None => {
                let n = number(info.value.len());
                return fatal_with("CHAP challenge value must be 16 bytes, got ", n.as_str());
            },
        };
        match chap_fsm::build_response_with(
            &info,
            self.username.as_str(),
            self.password.as_str(),
            peer_challenge,
        ) {
            Ok((wire, pending)) => {
                self.auth_challenge = Some(auth_challenge);
                self.pending_chap = Some(pending);
                let mut s = String::new();
                text::push_str(&mut s, "CHAP send Response id=");
                text::push_decimal(&mut s, frame.id as u64);
                text::push_str(&mut s, " for user=");
                let name = text::quoted(self.username.as_str());
                text::push_str(&mut s, name.as_str());
                proof {
                    assert(s@ =~= "CHAP send Response id="@ + text::decimal(frame.id as nat)
                        + " for user="@ + text::debug_quoted(self@.username));
                }
                let mut v = one(EngineEvent::Trace(line));
                push_event(&mut v, EngineEvent::Trace(s));
                push_event(&mut v, EngineEvent::Send(wrap_data(Protocol::Chap, wire.as_slice())));
                proof {
                    let (t, events) = challenge_step(
                        old(self)@,
                        frame@,
                        line@,
                        peer_challenge@,
                    );
                    assert(self@ =~= t);
                    assert(events_view(v@) =~= events);
                }
                v
            },
            Err(_) => {
                proof {
                    assert(info.value@.len() == 16);
                }
                none()
            },
        }
    }

    fn handle_success(&mut self, frame: &chap_fsm::Frame, line: String) -> (events: Vec<
        EngineEvent,
    >)
        ensures
            (final(self)@, events_view(events@)) == success_step(old(self)@, frame@, line@),
    {
        let pending = self.pending_chap.take();
        let (pending, auth_challenge) = match (pending, self.auth_challenge) {
            (Some(p), Some(c)) => (p, c),
            _ => {
                proof {
                    assert(self@ =~= success_step(old(self)@, frame@, line@).0);
                }
                return fatal(
                    "received CHAP success with no pending response to verify it against",
                );
            },
        };
        proof {
            assert(self@ =~= (EngineView { pending_chap: None, ..old(self)@ }));
        }
        if !chap_fsm::verify_success(
            frame.data.as_slice(),
            self.password.as_str(),
            &pending,
            &auth_challenge,
            self.username.as_str(),
        ) {
            let said = text::lossy(frame.data.as_slice());
            let quote = text::quoted(said.as_str());
            return self.conclude_chap(Err(quote));
        }
        let keys = mppe::mppe_get_keys(self.password.as_str(), &pending.nt_response, false);
        let mut v = one(EngineEvent::Trace(line));
        let mut rest = self.conclude_chap(Ok(keys));
        let ghost head = v@;
        let ghost tail = rest@;
        v.append(&mut rest);
        proof {
            assert(events_view(v@) =~= events_view(head) + events_view(tail));
        }
        v
    }

    fn handle_chap(&mut self, payload: &[u8], peer_challenge: &[u8; 16]) -> (events: Vec<
        EngineEvent,
    >)
        ensures
            (final(self)@, events_view(events@)) == chap_step(
                old(self)@,
                payload@,
                peer_challenge@,
            ),
    {
        let frame = match chap_fsm::decode(payload) {
            Some(f) => f,
            None => return fatal("malformed CHAP frame"),
        };
        let mut label = String::new();
        frame.code.push_label(&mut label);
        proof {
            assert(label@ =~= frame.code.label());
        }
        let mut line = String::new();
        push_recv(&mut line, "CHAP", frame.id, frame.data.len(), label.as_str());
        text::push_str(&mut line, " data bytes)");
        let ghost want = recv_line("CHAP"@, frame.code.label(), frame.id, frame.data@.len())
            + " data bytes)"@;
        proof {
            assert(line@ =~= want);
        }
        match frame.code {
            chap_fsm::Code::Challenge => self.handle_challenge(&frame, line, peer_challenge),
            chap_fsm::Code::Success => self.handle_success(&frame, line),
            chap_fsm::Code::Failure => {
                let mut s = String::new();
                text::push_str(&mut s, "CHAP authentication failed: ");
                let said = text::lossy(frame.data.as_slice());
                text::push_str(&mut s, said.as_str());
                proof {
                    assert(s@ =~= "CHAP authentication failed: "@ + text::utf8_lossy(frame.data@));
                }
                let mut v = one(EngineEvent::Trace(line));
                push_event(&mut v, EngineEvent::Fatal(s));
                proof {
                    assert(events_view(v@) =~= chap_step(self@, payload@, peer_challenge@).1);
                }
                v
            },
            _ => {
                let mut s = String::new();
                text::push_str(&mut s, "unexpected CHAP code from server: ");
                text::push_str(&mut s, label.as_str());
                proof {
                    assert(s@ =~= "unexpected CHAP code from server: "@ + frame.code.label());
                }
                let mut v = one(EngineEvent::Trace(line));
                push_event(&mut v, EngineEvent::Fatal(s));
                proof {
                    assert(events_view(v@) =~= chap_step(self@, payload@, peer_challenge@).1);
                }
                v
            },
        }
    }

    fn handle_ipcp(&mut self, payload: &[u8]) -> (events: Vec<EngineEvent>)
        ensures
            (final(self)@, events_view(events@)) == ipcp_step(old(self)@, payload@),
    {
        let mut v = match cp::decode(payload) {
            Some(frame) => one(EngineEvent::Trace(negotiation_line("IPCP", &frame))),
            None => none(),
        };
        let result = self.ipcp.receive(payload);
        add_frames(&mut v, "IPCP", Protocol::Ipcp, &result.to_send);
        proof {
            assert(self@ =~= (EngineView { ipcp: self@.ipcp, ..old(self)@ }));
        }
        if result.up && self.phase == Phase::Ipcp {
            let (algo, nonce, keys) = match (self.hash_algo, self.server_nonce, self.mppe_keys) {
                (Some(a), Some(n), Some(k)) => (a, n, k),
                _ => return fatal(
                    "PPP negotiation finished before the server accepted the connection",
                ),
            };
            self.phase = Phase::Established;
            let cert_hash = match algo {
                HashAlgo::Sha1 => self.cert_hash_sha1,
                HashAlgo::Sha256 => self.cert_hash_sha256,
            };
            let connected = cmac::build_connected_message(
                algo,
                &nonce,
                &cert_hash,
                &keys.send_key,
                &keys.recv_key,
            );
            push_event(&mut v, EngineEvent::Send(connected));
            push_event(
                &mut v,
                EngineEvent::Established { negotiated: self.ipcp.negotiated(), mppe_keys: keys },
            );
            proof {
                assert(events_view(v@) =~= ipcp_step(old(self)@, payload@).1);
                assert(self@ =~= ipcp_step(old(self)@, payload@).0);
            }
        }
        v
    }
}

/// What holds of every session: nothing but MS-CHAPv2 is on record, the choice
/// of a hash comes with a nonce and precedes the link negotiation, there are
/// session keys from the address negotiation on, and a response waits for its
/// answer only where there was a challenge.
pub open spec fn is_consistent(s: EngineView) -> bool {
    &&& lcp::records_only_mschapv2(s.lcp)
    &&& s.hash_algo is Some <==> s.server_nonce is Some
    &&& s.server_nonce matches Some(n) ==> n.len() == 32
    &&& s.auth_challenge matches Some(c) ==> c.len() == 16
    &&& s.pending_chap is Some ==> s.auth_challenge is Some
    &&& s.phase == Phase::Lcp || s.phase == Phase::Chap || s.phase == Phase::Established
        ==> s.hash_algo is Some
    &&& s.phase == Phase::Ipcp || s.phase == Phase::Established ==> s.mppe_keys is Some
}

/// A session starts consistent, and no packet makes it anything else.
pub proof fn law_sessions_stay_consistent(
    username: Seq<char>,
    password: Seq<char>,
    cert: Seq<u8>,
    magic: u32,
    s: EngineView,
    pkt: PacketView,
    draws: Seq<u32>,
    peer_challenge: Seq<u8>,
)
    requires
        is_consistent(s),
    ensures
        is_consistent(fresh(username, password, cert, magic)),
        is_consistent(step(s, pkt, draws, peer_challenge).0),
{
    if let PacketView::Data(frame) = pkt {
        if let Some((proto, payload)) = ppp::frame_read(frame) {
            lcp::law_only_mschapv2_is_recorded(s.lcp, magic, payload, draws);
        }
    }
}

/// No packet changes who the user is or which certificate the server showed.
pub proof fn law_identity_never_changes(
    s: EngineView,
    pkt: PacketView,
    draws: Seq<u32>,
    peer_challenge: Seq<u8>,
)
    ensures
        ({
            let t = step(s, pkt, draws, peer_challenge).0;
            &&& t.username == s.username
            &&& t.password == s.password
            &&& t.cert_hash_sha1 == s.cert_hash_sha1
            &&& t.cert_hash_sha256 == s.cert_hash_sha256
        }),
{
}

/// Whether a packet is a success message of the server whose proof holds.
pub open spec fn proves_itself(s: EngineView, pkt: PacketView) -> bool {
    &&& pkt matches PacketView::Data(frame)
    &&& ppp::frame_read(frame) matches Some((proto, payload))
    &&& proto == Protocol::Chap
    &&& chap_fsm::frame_read(payload) matches Some(f)
    &&& f.code == chap_fsm::Code::Success
    &&& s.pending_chap matches Some(pending)
    &&& s.auth_challenge matches Some(challenge)
    &&& chap_fsm::text_proves(
        text::utf8_lossy(f.data),
        chap_fsm::expected_proof(s.password, pending, challenge, s.username),
    )
}

/// Session keys come from a proof of the server alone, and so does the step to
/// the address negotiation.
pub proof fn law_only_a_proof_advances(
    s: EngineView,
    pkt: PacketView,
    draws: Seq<u32>,
    peer_challenge: Seq<u8>,
)
    requires
        !proves_itself(s, pkt),
    ensures
        ({
            let t = step(s, pkt, draws, peer_challenge).0;
            &&& t.mppe_keys == s.mppe_keys
            &&& t.phase == Phase::Ipcp ==> s.phase == Phase::Ipcp
            &&& t.phase == Phase::Established ==> s.phase == Phase::Ipcp || s.phase
                == Phase::Established
        }),
{
}

/// Whether one phase comes right after another.
pub open spec fn follows(p: Phase, q: Phase) -> bool {
    match p {
        Phase::WaitConnectAck => q == Phase::Lcp,
        Phase::Lcp => q == Phase::Chap,
        Phase::Chap => q == Phase::Ipcp,
        Phase::Ipcp => q == Phase::Established,
        Phase::Established => false,
    }
}

/// A session goes through its phases in order, one at a time and never back,
/// as long as no proof of the server holds outside the authentication.
pub proof fn law_phases_come_in_order(
    s: EngineView,
    pkt: PacketView,
    draws: Seq<u32>,
    peer_challenge: Seq<u8>,
)
    requires
        proves_itself(s, pkt) ==> s.phase == Phase::Chap,
    ensures
        ({
            let t = step(s, pkt, draws, peer_challenge).0;
            t.phase == s.phase || follows(s.phase, t.phase)
        }),
{
}

/// A success message without a valid proof ends the session: the only event is
/// fatal, and no phase is entered and no key is made.
pub proof fn law_forged_success_is_fatal(
    s: EngineView,
    frame: Seq<u8>,
    payload: Seq<u8>,
    f: chap_fsm::FrameView,
    draws: Seq<u32>,
    peer_challenge: Seq<u8>,
)
    requires
        ppp::frame_read(frame) == Some((Protocol::Chap, payload)),
        chap_fsm::frame_read(payload) == Some(f),
        f.code == chap_fsm::Code::Success,
        !proves_itself(s, PacketView::Data(frame)),
    ensures
        ({
            let (t, events) = step(s, PacketView::Data(frame), draws, peer_challenge);
            &&& events.len() == 1
            &&& events[0] is Fatal
            &&& t == (EngineView { pending_chap: None, ..s })
        }),
{
}

/// The proof of a server that knows the password is accepted, whatever fields
/// follow it, and starts the address negotiation under the session keys.
pub proof fn law_genuine_server_is_accepted(
    s: EngineView,
    frame: Seq<u8>,
    payload: Seq<u8>,
    f: chap_fsm::FrameView,
    pending: PendingView,
    challenge: Seq<u8>,
    rest: Seq<char>,
    draws: Seq<u32>,
    peer_challenge: Seq<u8>,
)
    requires
        ppp::frame_read(frame) == Some((Protocol::Chap, payload)),
        chap_fsm::frame_read(payload) == Some(f),
        f.code == chap_fsm::Code::Success,
        s.pending_chap == Some(pending),
        s.auth_challenge == Some(challenge),
        rest.len() == 0 || text::is_white(rest[0]),
        text::utf8_lossy(f.data) == chap_fsm::expected_proof(
            s.password,
            pending,
            challenge,
            s.username,
        ) + rest,
    ensures
        ({
            let (t, events) = step(s, PacketView::Data(frame), draws, peer_challenge);
            &&& t.phase == Phase::Ipcp
            &&& t.mppe_keys == Some(mppe::keys_of(s.password, pending.nt_response, false))
            &&& events.last() == EventView::Send(wrapped(Protocol::Ipcp, s.ipcp.request_wire()))
        }),
{
    chap_fsm::law_genuine_proof_is_accepted(
        crate::chap::authenticator_digest(
            s.password,
            pending.nt_response,
            pending.peer_challenge,
            challenge,
            s.username,
        ),
        rest,
    );
}

proof fn lemma_frames_are_not_established(label: Seq<char>, proto: Protocol, frames: Seq<Seq<u8>>)
    ensures
        forall|i: int|
            0 <= i < frames_events(label, proto, frames).len() ==> !(#[trigger] frames_events(
                label,
                proto,
                frames,
            )[i] is Established),
    decreases frames.len(),
{
    if frames.len() > 0 {
        lemma_frames_are_not_established(label, proto, frames.drop_last());
    }
}

proof fn lemma_lcp_never_announces(s: EngineView, payload: Seq<u8>, draws: Seq<u32>, i: int)
    requires
        0 <= i < lcp_step(s, payload, draws).1.len(),
    ensures
        !(lcp_step(s, payload, draws).1[i] is Established),
{
    let frames = lcp::step(s.lcp, payload, draws).1;
    lemma_frames_are_not_established("LCP"@, Protocol::Lcp, frames);
    let events = lcp_step(s, payload, draws).1;
    if 1 <= i {
        assert(events[i] == frames_events("LCP"@, Protocol::Lcp, frames)[i - 1]);
    }
}

proof fn lemma_chap_never_announces(
    s: EngineView,
    payload: Seq<u8>,
    peer_challenge: Seq<u8>,
    i: int,
)
    requires
        0 <= i < chap_step(s, payload, peer_challenge).1.len(),
    ensures
        !(chap_step(s, payload, peer_challenge).1[i] is Established),
{
}

proof fn lemma_ipcp_announces_last(s: EngineView, payload: Seq<u8>, i: int)
    requires
        0 <= i < ipcp_step(s, payload).1.len(),
        ipcp_step(s, payload).1[i] is Established,
    ensures
        i == ipcp_step(s, payload).1.len() - 1,
        i >= 1,
        ipcp_step(s, payload).0.phase == Phase::Established,
        s.phase == Phase::Ipcp,
        ipcp::step(s.ipcp, payload).0.is_open(),
        s.hash_algo is Some,
        s.server_nonce is Some,
        s.mppe_keys is Some,
{
    let frames = ipcp::step(s.ipcp, payload).1;
    lemma_frames_are_not_established("IPCP"@, Protocol::Ipcp, frames);
    let sent = frames_events("IPCP"@, Protocol::Ipcp, frames);
    let events = ipcp_step(s, payload).1;
    let first: int = if cp::frame_read(payload) is Some {
        1
    } else {
        0
    };
    if first <= i < first + sent.len() {
        assert(events[i] is Fatal || events[i] == sent[i - first]);
    }
}

/// The tunnel is announced only when everything is in place: the server chose
/// a hash, proved itself and agreed on addresses. The message that binds the
/// session is then sent right before the announcement.
pub proof fn law_established_comes_last(
    s: EngineView,
    pkt: PacketView,
    draws: Seq<u32>,
    peer_challenge: Seq<u8>,
    i: int,
)
    requires
        0 <= i < step(s, pkt, draws, peer_challenge).1.len(),
        step(s, pkt, draws, peer_challenge).1[i] is Established,
    ensures
        ({
            let (t, events) = step(s, pkt, draws, peer_challenge);
            &&& s.phase == Phase::Ipcp
            &&& t.phase == Phase::Established
            &&& t.ipcp.is_open()
            &&& i == events.len() - 1
            &&& i >= 1
            &&& s.hash_algo matches Some(algo)
            &&& s.server_nonce matches Some(nonce)
            &&& s.mppe_keys matches Some(keys)
            &&& events[i - 1] == EventView::Send(
                cmac::bound_message(
                    algo,
                    nonce,
                    cert_hash(s, algo),
                    keys.send_key,
                    keys.recv_key,
                ),
            )
            &&& events[i] == EventView::Established {
                negotiated: t.ipcp.negotiated,
                mppe_keys: keys,
            }
        }),
{
    if let PacketView::Data(frame) = pkt {
        if let Some((proto, payload)) = ppp::frame_read(frame) {
            if proto == Protocol::Ipcp {
                lemma_ipcp_announces_last(s, payload, i);
            } else if proto == Protocol::Lcp {
                lemma_lcp_never_announces(s, payload, draws, i);
            } else if proto == Protocol::Chap {
                lemma_chap_never_announces(s, payload, peer_challenge, i);
            }
        }
    }
}

/// A link that opens without authentication ends the session.
pub proof fn law_no_authentication_is_fatal(
    s: EngineView,
    frame: Seq<u8>,
    payload: Seq<u8>,
    draws: Seq<u32>,
    peer_challenge: Seq<u8>,
)
    requires
        s.phase == Phase::Lcp,
        ppp::frame_read(frame) == Some((Protocol::Lcp, payload)),
        lcp::step(s.lcp, payload, draws).0.is_open(),
        lcp::step(s.lcp, payload, draws).0.peer_auth is None,
    ensures
        ({
            let (t, events) = step(s, PacketView::Data(frame), draws, peer_challenge);
            t.phase == Phase::Lcp && events.len() == 1 && events[0] is Fatal
        }),
{
}

/// In every state an echo request is answered, a disconnect is acknowledged
/// and reported, and neither changes the session.
pub proof fn law_housekeeping_is_always_answered(
    s: EngineView,
    attrs: Seq<AttrView>,
    draws: Seq<u32>,
    peer_challenge: Seq<u8>,
)
    ensures
        step(
            s,
            PacketView::Ctrl { msg_type: MsgType::EchoRequest, attrs },
            draws,
            peer_challenge,
        ) == (
            s,
            seq![EventView::Send(packet::ctrl_wire(MsgType::EchoReply, Seq::empty()))],
        ),
        step(
            s,
            PacketView::Ctrl { msg_type: MsgType::Disconnect, attrs },
            draws,
            peer_challenge,
        ) == (
            s,
            seq![
                EventView::Send(packet::ctrl_wire(MsgType::DisconnectAck, Seq::empty())),
                EventView::Disconnected,
            ],
        ),
        step(
            s,
            PacketView::Ctrl { msg_type: MsgType::DisconnectAck, attrs },
            draws,
            peer_challenge,
        ) == (s, seq![EventView::Disconnected]),
{
}

/// An IP packet comes out of the tunnel as it went in.
pub proof fn law_ip_packets_are_delivered(
    s: EngineView,
    ip: Seq<u8>,
    draws: Seq<u32>,
    peer_challenge: Seq<u8>,
)
    ensures
        step(s, PacketView::Data(ppp::frame_wire(Protocol::Ip, ip)), draws, peer_challenge) == (
            s,
            seq![EventView::DeliverIpPacket(ip)],
        ),
{
    ppp::law_frame_round_trip(Protocol::Ip, ip);
}

/// A frame of a protocol that is not spoken here is rejected, and the
/// rejection carries it from its protocol number on.
pub proof fn law_unknown_protocols_are_rejected(
    s: EngineView,
    v: u16,
    payload: Seq<u8>,
    draws: Seq<u32>,
    peer_challenge: Seq<u8>,
)
    requires
        Protocol::of_code(v) == Protocol::Unknown(v) || v == Protocol::Pap.code(),
    ensures
        ({
            let (t, events) = step(
                s,
                PacketView::Data(ppp::frame_wire(Protocol::Unknown(v), payload)),
                draws,
                peer_challenge,
            );
            let id = lcp::next_id(s.lcp.identifier);
            &&& t.phase == s.phase
            &&& events == seq![
                EventView::Send(
                    wrapped(
                        Protocol::Lcp,
                        cp::frame_wire(
                            cp::Code::ProtocolReject,
                            id,
                            wire::be16(v as nat) + payload,
                        ),
                    ),
                ),
            ]
        }),
{
    ppp::law_frame_round_trip(Protocol::Unknown(v), payload);
    let frame = ppp::frame_wire(Protocol::Unknown(v), payload);
    assert(ppp::stripped(frame) =~= wire::be16(v as nat) + payload);
}

/// What the server says in accepting the connection is what the session uses.
/// The request of the binding is four bytes and the nonce; the session keeps
/// exactly that nonce, and the hash by the second lowest bit of the fourth byte.
/// It then proposes the link options, and nothing else of it changes.
pub proof fn law_acceptance_sets_the_binding(
    s: EngineView,
    attrs: Seq<AttrView>,
    i: int,
    head: Seq<u8>,
    nonce: Seq<u8>,
    draws: Seq<u32>,
    peer_challenge: Seq<u8>,
)
    requires
        s.phase == Phase::WaitConnectAck,
        0 <= i < attrs.len(),
        attrs[i].attr_type == AttrType::CryptoBindRequest,
        forall|j: int|
            0 <= j < i ==> (#[trigger] attrs[j]).attr_type != AttrType::CryptoBindRequest,
        head.len() == 4,
        nonce.len() == 32,
        attrs[i].data == head + nonce,
    ensures
        ({
            let (t, events) = step(
                s,
                PacketView::Ctrl { msg_type: MsgType::ConnectAck, attrs },
                draws,
                peer_challenge,
            );
            &&& t.server_nonce == Some(nonce)
            &&& (head[3] / 2) % 2 == 1 ==> t.hash_algo == Some(HashAlgo::Sha256)
            &&& (head[3] / 2) % 2 == 0 ==> t.hash_algo == Some(HashAlgo::Sha1)
            &&& t.phase == Phase::Lcp
            &&& t.lcp == s.lcp.requested()
            &&& t.ipcp == s.ipcp
            &&& t.pending_chap == s.pending_chap
            &&& t.auth_challenge == s.auth_challenge
            &&& t.mppe_keys == s.mppe_keys
            &&& events.len() == 2
            &&& events[0] is Trace
            &&& events[1] == EventView::Send(wrapped(Protocol::Lcp, s.lcp.request_wire()))
        }),
{
    packet::law_first_attribute_is_found(attrs, AttrType::CryptoBindRequest, i);
    let data = head + nonce;
    assert(data.subrange(4, 36) =~= nonce);
}

/// An acceptance without a request of the binding, or with one that is not
/// thirty-six bytes long, ends the session; one that comes later is ignored.
/// None of them changes the session.
pub proof fn law_bad_acceptance_is_fatal(
    s: EngineView,
    attrs: Seq<AttrView>,
    i: int,
    draws: Seq<u32>,
    peer_challenge: Seq<u8>,
)
    ensures
        ({
            let (t, events) = step(
                s,
                PacketView::Ctrl { msg_type: MsgType::ConnectAck, attrs },
                draws,
                peer_challenge,
            );
            let kind = AttrType::CryptoBindRequest;
            &&& s.phase != Phase::WaitConnectAck ==> t == s && events.len() == 0
            &&& s.phase == Phase::WaitConnectAck && (forall|j: int|
                0 <= j < attrs.len() ==> (#[trigger] attrs[j]).attr_type != kind) ==> t == s
                && events == seq![
                EventView::Fatal("CONNECT_ACK is missing its crypto-bind-request attribute"@),
            ]
            &&& s.phase == Phase::WaitConnectAck && 0 <= i < attrs.len() && attrs[i].attr_type
                == kind && (forall|j: int|
                0 <= j < i ==> (#[trigger] attrs[j]).attr_type != kind) && attrs[i].data.len() != 36
                ==> t == s && events == seq![
                EventView::Fatal(
                    "crypto-bind-request attribute has the wrong length: "@ + text::decimal(
                        attrs[i].data.len(),
                    ),
                ),
            ]
        }),
{
    packet::law_first_attribute_is_found(attrs, AttrType::CryptoBindRequest, i);
}

/// The hash and the nonce, once set, stay what they are until the end.
pub proof fn law_binding_is_set_once(
    s: EngineView,
    pkt: PacketView,
    draws: Seq<u32>,
    peer_challenge: Seq<u8>,
)
    requires
        s.phase != Phase::WaitConnectAck || !(pkt matches PacketView::Ctrl { msg_type, .. }
            && msg_type == MsgType::ConnectAck),
    ensures
        step(s, pkt, draws, peer_challenge).0.server_nonce == s.server_nonce,
        step(s, pkt, draws, peer_challenge).0.hash_algo == s.hash_algo,
{
}

/// Whether a message is the final one of a handshake: at their places the number
/// of the chosen hash, the nonce, the hash of the certificate under that hash,
/// and the code over all of it.
#[verifier::opaque]
pub open spec fn is_final_message(
    s: EngineView,
    m: Seq<u8>,
    nonce: Seq<u8>,
    keys: MppeKeysView,
) -> bool {
    let seed = vstd::utf8::encode_utf8("SSTP inner method derived CMK"@);
    let key = keys.send_key + keys.recv_key;
    let covered = m.subrange(0, 80) + Seq::new(32, |i: int| 0u8);
    &&& m.len() == 112
    &&& m.subrange(0, 15) == seq![0x10u8, 1, 0, 112, 0, 4, 0, 1, 0, 3, 0, 104, 0, 0, 0]
    &&& m.subrange(16, 48) == nonce
    &&& s.hash_algo is Some
    &&& s.hash_algo == Some(HashAlgo::Sha1) ==> m[15] == 1 && m.subrange(48, 80)
        == s.cert_hash_sha1 && m.subrange(80, 112) == crypto::hmac_sha1_of(
        crypto::hmac_sha1_of(key, seed + seq![20u8, 0, 1]),
        covered,
    ) + Seq::new(12, |i: int| 0u8)
    &&& s.hash_algo == Some(HashAlgo::Sha256) ==> m[15] == 2 && m.subrange(48, 80)
        == s.cert_hash_sha256 && m.subrange(80, 112) == crypto::hmac_sha256_of(
        crypto::hmac_sha256_of(key, seed + seq![32u8, 0, 1]),
        covered,
    )
}

/// The message that ends the handshake carries, at their places, the number of
/// the chosen hash, the server's own nonce, and the hash of the certificate
/// under that hash.
#[verifier::spinoff_prover]
#[verifier::rlimit(40)]
pub proof fn law_final_message_answers_the_server(
    s: EngineView,
    pkt: PacketView,
    draws: Seq<u32>,
    peer_challenge: Seq<u8>,
    nonce: Seq<u8>,
    keys: MppeKeysView,
)
    requires
        step(s, pkt, draws, peer_challenge).1.len() > 0,
        step(s, pkt, draws, peer_challenge).1.last() is Established,
        s.server_nonce == Some(nonce),
        s.mppe_keys == Some(keys),
        nonce.len() == 32,
        s.cert_hash_sha1.len() == 32,
        s.cert_hash_sha256.len() == 32,
        forall|k: Seq<u8>, d: Seq<u8>| (#[trigger] crypto::hmac_sha1_of(k, d)).len() == 20,
        forall|k: Seq<u8>, d: Seq<u8>| (#[trigger] crypto::hmac_sha256_of(k, d)).len() == 32,
    ensures
        ({
            let events = step(s, pkt, draws, peer_challenge).1;
            &&& events.len() >= 2
            &&& events[events.len() - 2] matches EventView::Send(m)
            &&& is_final_message(s, m, nonce, keys)
            &&& events.last() matches EventView::Established { mppe_keys, .. } && mppe_keys == keys
        }),
{
    let events = step(s, pkt, draws, peer_challenge).1;
    law_established_comes_last(s, pkt, draws, peer_challenge, events.len() - 1);
    lemma_binding_of_a_session(s, s.hash_algo->0, nonce, keys);
}

proof fn lemma_binding_of_a_session(
    s: EngineView,
    algo: HashAlgo,
    nonce: Seq<u8>,
    keys: MppeKeysView,
)
    requires
        s.hash_algo == Some(algo),
        nonce.len() == 32,
        s.cert_hash_sha1.len() == 32,
        s.cert_hash_sha256.len() == 32,
        forall|k: Seq<u8>, d: Seq<u8>| (#[trigger] crypto::hmac_sha1_of(k, d)).len() == 20,
        forall|k: Seq<u8>, d: Seq<u8>| (#[trigger] crypto::hmac_sha256_of(k, d)).len() == 32,
    ensures
        is_final_message(
            s,
            cmac::bound_message(algo, nonce, cert_hash(s, algo), keys.send_key, keys.recv_key),
            nonce,
            keys,
        ),
{
    reveal(is_final_message);
    cmac::law_code_covers_the_message(
        algo,
        nonce,
        cert_hash(s, algo),
        keys.send_key,
        keys.recv_key,
    );
}

/// A session starts with the certificate's two hashes and the credentials as
/// they were given.
pub proof fn law_new_sessions(
    username: Seq<char>,
    password: Seq<char>,
    cert: Seq<u8>,
    magic: u32,
)
    ensures
        ({
            let s = fresh(username, password, cert, magic);
            &&& s.username == username
            &&& s.password == password
            &&& s.cert_hash_sha1 == crypto::sha1_of(cert) + Seq::new(12, |i: int| 0u8)
            &&& s.cert_hash_sha256 == crypto::sha256_of(cert)
            &&& s.phase == Phase::WaitConnectAck
            &&& s.hash_algo is None && s.server_nonce is None
            &&& s.pending_chap is None && s.auth_challenge is None && s.mppe_keys is None
            &&& s.lcp.magic == magic
            &&& !s.lcp.is_open() && !s.ipcp.is_open()
        }),
{
    assert(crypto::zeros(12) =~= Seq::new(12, |i: int| 0u8));
}

/// A challenge is answered under its own identifier: the last event sends a
/// packet whose PPP payload reads back as a response with that identifier, and
/// that response holds the client's challenge, the response to both challenges
/// for the user's name and password, and the name. What is kept for the proof of
/// the server is what was sent.
#[verifier::spinoff_prover]
#[verifier::rlimit(40)]
pub proof fn law_challenges_are_answered(
    s: EngineView,
    id: u8,
    value: Seq<u8>,
    name: Seq<u8>,
    draws: Seq<u32>,
    peer_challenge: Seq<u8>,
)
    requires
        value.len() == 16,
        peer_challenge.len() == 16,
        name.len() <= 0xffff - 21,
        crate::chap::nt_response_of(value, peer_challenge, s.username, s.password).len() == 24,
        vstd::utf8::encode_utf8(s.username).len() <= 0xffff - 54,
    ensures
        ({
            let challenge = seq![1u8, id] + wire::be16(21 + name.len()) + seq![16u8] + value + name;
            let (t, events) = step(
                s,
                PacketView::Data(seq![0xffu8, 3, 0xc2, 0x23] + challenge),
                draws,
                peer_challenge,
            );
            let nt = crate::chap::nt_response_of(value, peer_challenge, s.username, s.password);
            &&& events.len() > 0
            &&& events.last() matches EventView::Send(sent)
            &&& forall|j: int| 0 <= j < events.len() - 1 ==> #[trigger] events[j] is Trace
            &&& sent.len() > 8
            &&& sent.subrange(0, 2) == seq![0x10u8, 0]
            &&& sent.subrange(4, 8) == seq![0xffu8, 3, 0xc2, 0x23]
            &&& chap_fsm::frame_read(sent.skip(8)) matches Some(f)
            &&& f.code == chap_fsm::Code::Response
            &&& f.id == id
            &&& f.data == seq![49u8] + peer_challenge + seq![0u8, 0, 0, 0, 0, 0, 0, 0] + nt
                + seq![0u8] + vstd::utf8::encode_utf8(s.username)
            &&& t.auth_challenge == Some(value)
            &&& t.pending_chap == Some(PendingView { peer_challenge, nt_response: nt })
            &&& t.phase == s.phase
            &&& t.mppe_keys == s.mppe_keys
            &&& t.lcp == s.lcp
            &&& t.ipcp == s.ipcp
        }),
{
    let challenge = seq![1u8, id] + wire::be16(21 + name.len()) + seq![16u8] + value + name;
    let frame = seq![0xffu8, 3, 0xc2, 0x23] + challenge;
    let w = chap_fsm::response_parts(id, value, s.username, s.password, peer_challenge).0;
    lemma_challenge_step(s, frame, challenge, id, value, name, draws, peer_challenge);
    chap_fsm::law_response_layout(id, value, s.username, s.password, peer_challenge);
    lemma_wrapped(Protocol::Chap, w);
}

proof fn lemma_challenge_step(
    s: EngineView,
    frame: Seq<u8>,
    challenge: Seq<u8>,
    id: u8,
    value: Seq<u8>,
    name: Seq<u8>,
    draws: Seq<u32>,
    peer_challenge: Seq<u8>,
)
    requires
        value.len() == 16,
        name.len() <= 0xffff - 21,
        challenge == seq![1u8, id] + wire::be16(21 + name.len()) + seq![16u8] + value + name,
        frame == seq![0xffu8, 3, 0xc2, 0x23] + challenge,
    ensures
        ({
            let (t, events) = step(s, PacketView::Data(frame), draws, peer_challenge);
            let (w, pending) = chap_fsm::response_parts(
                id,
                value,
                s.username,
                s.password,
                peer_challenge,
            );
            &&& events.len() == 3
            &&& events[0] is Trace
            &&& events[1] is Trace
            &&& events[2] == EventView::Send(wrapped(Protocol::Chap, w))
            &&& t == (EngineView { auth_challenge: Some(value), pending_chap: Some(pending), ..s })
        }),
{
    lemma_challenge_is_read(id, value, name);
}

proof fn lemma_challenge_is_read(id: u8, value: Seq<u8>, name: Seq<u8>)
    requires
        value.len() == 16,
        name.len() <= 0xffff - 21,
    ensures
        ({
            let challenge = seq![1u8, id] + wire::be16(21 + name.len()) + seq![16u8] + value + name;
            let data = seq![16u8] + value + name;
            &&& ppp::frame_read(seq![0xffu8, 3, 0xc2, 0x23] + challenge) == Some(
                (Protocol::Chap, challenge),
            )
            &&& chap_fsm::frame_read(challenge) == Some(
                chap_fsm::FrameView { code: chap_fsm::Code::Challenge, id, data },
            )
            &&& chap_fsm::challenge_parts(data) == Some((value, name))
        }),
{
    let data = seq![16u8] + value + name;
    let challenge = seq![1u8, id] + wire::be16(21 + name.len()) + seq![16u8] + value + name;
    let payload = chap_fsm::frame_wire(chap_fsm::Code::Challenge, id, data);
    assert(payload =~= challenge);
    assert(ppp::frame_read(seq![0xffu8, 3, 0xc2, 0x23] + challenge) == Some(
        (Protocol::Chap, challenge),
    )) by {
        ppp::law_protocols_have_their_numbers(0);
        ppp::law_frame_layout(Protocol::Chap, payload);
        assert(seq![0xffu8, 3, 0xc2, 0x23] + challenge =~= ppp::frame_wire(
            Protocol::Chap,
            payload,
        ));
        ppp::law_frame_round_trip(Protocol::Chap, payload);
    }
    chap_fsm::law_frame_round_trip(chap_fsm::Code::Challenge, id, data, Seq::empty());
    assert(payload + Seq::<u8>::empty() =~= payload);
    chap_fsm::law_challenge_round_trip(value, name);
    assert(data =~= seq![value.len() as u8] + value + name);
}

proof fn lemma_wrapped(proto: Protocol, payload: Seq<u8>)
    ensures
        ({
            let w = wrapped(proto, payload);
            &&& w.len() == 8 + payload.len()
            &&& w.subrange(0, 2) == seq![0x10u8, 0]
            &&& w.subrange(4, 8) == seq![0xffu8, 3] + wire::be16(proto.code() as nat)
            &&& w.skip(8) == payload
            &&& proto == Protocol::Chap ==> w.subrange(4, 8) == seq![0xffu8, 3, 0xc2, 0x23]
        }),
{
    let frame = ppp::frame_wire(proto, payload);
    let w = wrapped(proto, payload);
    packet::law_data_layout(frame);
    ppp::law_frame_layout(proto, payload);
    ppp::law_protocols_have_their_numbers(0);
    assert(w.subrange(0, 2) =~= seq![0x10u8, 0]);
    assert(w.subrange(4, 8) =~= seq![0xffu8, 3] + wire::be16(proto.code() as nat));
    assert(w.skip(8) =~= payload);
    if proto == Protocol::Chap {
        assert(w.subrange(4, 8) =~= seq![0xffu8, 3, 0xc2, 0x23]);
    }
}

/// A payload on the wire: the packet's header with the length of the whole, the
/// PPP header with the number of the protocol, and the payload.
pub proof fn law_wrapped_layout(proto: Protocol, payload: Seq<u8>)
    ensures
        wrapped(proto, payload) == seq![0x10u8, 0] + wire::be16(8 + payload.len()) + seq![
            0xffu8,
            3,
        ] + wire::be16(proto.code() as nat) + payload,
{
    assert(wrapped(proto, payload) =~= seq![0x10u8, 0] + wire::be16(8 + payload.len()) + seq![
        0xffu8,
        3,
    ] + wire::be16(proto.code() as nat) + payload);
}

/// A challenge that is cut short, or whose value is not sixteen bytes long, ends
/// the session and changes nothing of it.
pub proof fn law_bad_challenges_are_fatal(
    s: EngineView,
    frame: Seq<u8>,
    payload: Seq<u8>,
    f: chap_fsm::FrameView,
    draws: Seq<u32>,
    peer_challenge: Seq<u8>,
)
    requires
        ppp::frame_read(frame) == Some((Protocol::Chap, payload)),
        chap_fsm::frame_read(payload) == Some(f),
        f.code == chap_fsm::Code::Challenge,
        f.data.len() < 17 || f.data[0] != 16,
    ensures
        ({
            let (t, events) = step(s, PacketView::Data(frame), draws, peer_challenge);
            &&& t == s
            &&& f.data.len() == 0 || f.data.len() <= f.data[0] ==> events == seq![
                EventView::Fatal("malformed CHAP challenge"@),
            ]
            &&& f.data.len() > 0 && f.data.len() > f.data[0] ==> events == seq![
                EventView::Fatal(
                    "CHAP challenge value must be 16 bytes, got "@ + text::decimal(
                        f.data[0] as nat,
                    ),
                ),
            ]
        }),
{
    chap_fsm::law_short_challenges_are_not_read(f.data);
}

/// A refusal of the authentication, a code that a server has no business to
/// send, and a malformed frame end the session and change nothing of it.
pub proof fn law_failed_authentication_is_fatal(
    s: EngineView,
    frame: Seq<u8>,
    payload: Seq<u8>,
    draws: Seq<u32>,
    peer_challenge: Seq<u8>,
)
    requires
        ppp::frame_read(frame) == Some((Protocol::Chap, payload)),
    ensures
        ({
            let (t, events) = step(s, PacketView::Data(frame), draws, peer_challenge);
            &&& chap_fsm::frame_read(payload) is None ==> t == s && events == seq![
                EventView::Fatal("malformed CHAP frame"@),
            ]
            &&& chap_fsm::frame_read(payload) matches Some(f) ==> {
                &&& f.code == chap_fsm::Code::Failure ==> t == s && events.len() == 2 && events[0]
                    is Trace && events[1] == EventView::Fatal(
                    "CHAP authentication failed: "@ + text::utf8_lossy(f.data),
                )
                &&& f.code is Response || f.code is Unknown ==> t == s && events.len() == 2
                    && events[0] is Trace && events[1] == EventView::Fatal(
                    "unexpected CHAP code from server: "@ + f.code.label(),
                )
            }
        }),
{
}

/// A success message that holds leaves the session with the keys of the client
/// for the response that was sent, waiting for no further proof, and with the
/// address proposal sent.
pub proof fn law_proof_makes_the_keys(
    s: EngineView,
    frame: Seq<u8>,
    pending: PendingView,
    draws: Seq<u32>,
    peer_challenge: Seq<u8>,
)
    requires
        proves_itself(s, PacketView::Data(frame)),
        s.pending_chap == Some(pending),
    ensures
        ({
            let (t, events) = step(s, PacketView::Data(frame), draws, peer_challenge);
            &&& t.phase == Phase::Ipcp
            &&& t.pending_chap is None
            &&& t.auth_challenge == s.auth_challenge
            &&& t.mppe_keys == Some(mppe::keys_of(s.password, pending.nt_response, false))
            &&& t.ipcp == s.ipcp.requested()
            &&& t.lcp == s.lcp
            &&& events.len() == 3
            &&& events[0] is Trace && events[1] is Trace
            &&& events[2] == EventView::Send(wrapped(Protocol::Ipcp, s.ipcp.request_wire()))
        }),
{
}

/// A refused or aborted connection ends the session with the server's reason,
/// and the messages that only a client sends are ignored; none of them changes
/// the session.
pub proof fn law_refusals_are_fatal(
    s: EngineView,
    msg_type: MsgType,
    attrs: Seq<AttrView>,
    i: int,
    draws: Seq<u32>,
    peer_challenge: Seq<u8>,
)
    requires
        msg_type != MsgType::ConnectAck,
    ensures
        ({
            let (t, events) = step(
                s,
                PacketView::Ctrl { msg_type, attrs },
                draws,
                peer_challenge,
            );
            let silent = forall|j: int|
                0 <= j < attrs.len() ==> (#[trigger] attrs[j]).attr_type != AttrType::StatusInfo;
            let first = 0 <= i < attrs.len() && attrs[i].attr_type == AttrType::StatusInfo && (
            forall|j: int|
                0 <= j < i ==> (#[trigger] attrs[j]).attr_type != AttrType::StatusInfo);
            &&& t == s
            &&& msg_type == MsgType::ConnectNak && silent ==> events == seq![
                EventView::Fatal("server sent CONNECT_NAK: "@ + "no status info given"@),
            ]
            &&& msg_type == MsgType::Abort && silent ==> events == seq![
                EventView::Fatal("server aborted the connection: "@ + "no status info given"@),
            ]
            &&& msg_type == MsgType::ConnectNak && first ==> events == seq![
                EventView::Fatal(
                    "server sent CONNECT_NAK: "@ + packet::status_sentence(attrs[i].data),
                ),
            ]
            &&& msg_type == MsgType::Abort && first ==> events == seq![
                EventView::Fatal(
                    "server aborted the connection: "@ + packet::status_sentence(attrs[i].data),
                ),
            ]
            &&& msg_type == MsgType::ConnectRequest || msg_type == MsgType::Connected || msg_type
                == MsgType::EchoReply || msg_type is Unknown ==> events.len() == 0
        }),
{
    packet::law_first_attribute_is_found(attrs, AttrType::StatusInfo, i);
}

/// The packets among events, in order.
pub open spec fn sent(events: Seq<EventView>) -> Seq<Seq<u8>>
    decreases events.len(),
{
    if events.len() == 0 {
        Seq::empty()
    } else {
        match events.last() {
            EventView::Send(b) => sent(events.drop_last()).push(b),
            _ => sent(events.drop_last()),
        }
    }
}

proof fn lemma_sent_adds(a: Seq<EventView>, b: Seq<EventView>)
    ensures
        sent(a + b) == sent(a) + sent(b),
    decreases b.len(),
{
    if b.len() == 0 {
        assert(a + b =~= a);
        assert(sent(a) + sent(b) =~= sent(a));
    } else {
        assert((a + b).drop_last() =~= a + b.drop_last());
        assert((a + b).last() == b.last());
        lemma_sent_adds(a, b.drop_last());
        assert(sent(a + b) =~= sent(a) + sent(b));
    }
}

proof fn lemma_frames_are_sent(label: Seq<char>, proto: Protocol, frames: Seq<Seq<u8>>)
    ensures
        sent(frames_events(label, proto, frames)) == frames.map_values(
            |f: Seq<u8>| wrapped(proto, f),
        ),
        forall|i: int|
            0 <= i < frames_events(label, proto, frames).len() ==> (#[trigger] frames_events(
                label,
                proto,
                frames,
            )[i] is Trace || frames_events(label, proto, frames)[i] is Send),
    decreases frames.len(),
{
    let want = frames.map_values(|f: Seq<u8>| wrapped(proto, f));
    if frames.len() == 0 {
        assert(want =~= Seq::empty());
    } else {
        let front = frames.drop_last();
        let last = frame_events(label, proto, frames.last());
        lemma_frames_are_sent(label, proto, front);
        lemma_sent_adds(frames_events(label, proto, front), last);
        lemma_sent_last(last);
        assert(want =~= front.map_values(|f: Seq<u8>| wrapped(proto, f)).push(
            wrapped(proto, frames.last()),
        ));
        assert(sent(last) == seq![wrapped(proto, frames.last())]);
        assert(sent(frames_events(label, proto, frames)) =~= want);
    }
}

proof fn lemma_sent_last(events: Seq<EventView>)
    requires
        events.len() == 1 || events.len() == 2 && events[0] is Trace,
    ensures
        events.last() matches EventView::Send(b) ==> sent(events) == seq![b],
        !(events.last() is Send) ==> sent(events) == Seq::<Seq<u8>>::empty(),
{
    reveal_with_fuel(sent, 3);
    if let EventView::Send(b) = events.last() {
        assert(sent(events) =~= seq![b]);
    }
}

/// A frame of the link negotiation goes to it whole, and all that it answers is
/// sent, in order and with nothing else, unless the session ends there. The
/// session goes on to the authentication exactly when the link opens with
/// MS-CHAPv2 on record.
pub proof fn law_link_frames_are_passed_on(
    s: EngineView,
    payload: Seq<u8>,
    draws: Seq<u32>,
    peer_challenge: Seq<u8>,
)
    ensures
        ({
            let (t, events) = step(
                s,
                PacketView::Data(seq![0xffu8, 3, 0xc0, 0x21] + payload),
                draws,
                peer_challenge,
            );
            let (link, frames) = lcp::step(s.lcp, payload, draws);
            let open = s.phase == Phase::Lcp && link.local_up && link.remote_up;
            let agreed = link.peer_auth == Some(
                lcp::PeerAuthRequirement { protocol: 0xc223, algorithm: 0x81 },
            );
            &&& t.lcp == link
            &&& t.ipcp == s.ipcp
            &&& t.mppe_keys == s.mppe_keys
            &&& t.pending_chap == s.pending_chap
            &&& t.auth_challenge == s.auth_challenge
            &&& !open || agreed ==> sent(events) == frames.map_values(
                |f: Seq<u8>| wrapped(Protocol::Lcp, f),
            ) && forall|i: int|
                0 <= i < events.len() ==> (#[trigger] events[i] is Trace || events[i] is Send)
            &&& open && !agreed ==> t.phase == Phase::Lcp && events.len() == 1 && events[0] is Fatal
            &&& open && agreed ==> t.phase == Phase::Chap
            &&& !open ==> t.phase == s.phase
        }),
{
    ppp::law_protocols_have_their_numbers(0);
    ppp::law_frame_layout(Protocol::Lcp, payload);
    ppp::law_frame_round_trip(Protocol::Lcp, payload);
    assert(seq![0xffu8, 3, 0xc0, 0x21] + payload =~= ppp::frame_wire(Protocol::Lcp, payload));
    let (link, frames) = lcp::step(s.lcp, payload, draws);
    let out = frames_events("LCP"@, Protocol::Lcp, frames);
    lemma_frames_are_sent("LCP"@, Protocol::Lcp, frames);
    let first = step(
        s,
        PacketView::Data(ppp::frame_wire(Protocol::Lcp, payload)),
        draws,
        peer_challenge,
    ).1.subrange(0, 1);
    lemma_sent_last(first);
    lemma_sent_adds(first, out);
    let events = lcp_step(s, payload, draws).1;
    let open = s.phase == Phase::Lcp && link.local_up && link.remote_up;
    if !open || link.peer_auth == Some(
        lcp::PeerAuthRequirement { protocol: 0xc223, algorithm: 0x81 },
    ) {
        assert(events =~= first + out);
        assert(Seq::<Seq<u8>>::empty() + sent(out) =~= sent(out));
        assert forall|i: int| 0 <= i < events.len() implies (#[trigger] events[i] is Trace
            || events[i] is Send) by {
            if i > 0 {
                assert(events[i] == out[i - 1]);
            }
        }
    }
}

/// A frame of the address negotiation goes to it whole, and all that it answers
/// is sent, in order. When addresses are agreed on in their phase, with the
/// hash, the nonce and the keys in place, the final message follows and the
/// tunnel is announced with exactly those addresses.
pub proof fn law_address_frames_are_passed_on(
    s: EngineView,
    payload: Seq<u8>,
    draws: Seq<u32>,
    peer_challenge: Seq<u8>,
)
    ensures
        ({
            let (t, events) = step(
                s,
                PacketView::Data(seq![0xffu8, 3, 0x80, 0x21] + payload),
                draws,
                peer_challenge,
            );
            let (net, frames) = ipcp::step(s.ipcp, payload);
            let open = s.phase == Phase::Ipcp && net.local_up && net.remote_up;
            let ready = s.hash_algo is Some && s.server_nonce is Some && s.mppe_keys is Some;
            let answers = frames.map_values(|f: Seq<u8>| wrapped(Protocol::Ipcp, f));
            &&& t.ipcp == net
            &&& t.lcp == s.lcp
            &&& t.mppe_keys == s.mppe_keys
            &&& t.pending_chap == s.pending_chap
            &&& t.auth_challenge == s.auth_challenge
            &&& !open ==> t.phase == s.phase && sent(events) == answers && forall|i: int|
                0 <= i < events.len() ==> (#[trigger] events[i] is Trace || events[i] is Send)
            &&& open && ready ==> t.phase == Phase::Established && events.len() >= 2
                && sent(events).len() == answers.len() + 1 && sent(events).drop_last() == answers
                && events[events.len() - 2] is Send && events.last() == (EventView::Established {
                negotiated: net.negotiated,
                mppe_keys: s.mppe_keys->0,
            })
            &&& open && !ready ==> t.phase == s.phase && events.len() == 1 && events[0] is Fatal
        }),
{
    ppp::law_protocols_have_their_numbers(0);
    ppp::law_frame_layout(Protocol::Ipcp, payload);
    ppp::law_frame_round_trip(Protocol::Ipcp, payload);
    assert(seq![0xffu8, 3, 0x80, 0x21] + payload =~= ppp::frame_wire(Protocol::Ipcp, payload));
    let (net, frames) = ipcp::step(s.ipcp, payload);
    let out = frames_events("IPCP"@, Protocol::Ipcp, frames);
    lemma_frames_are_sent("IPCP"@, Protocol::Ipcp, frames);
    let events = ipcp_step(s, payload).1;
    let open = s.phase == Phase::Ipcp && net.local_up && net.remote_up;
    let ready = s.hash_algo is Some && s.server_nonce is Some && s.mppe_keys is Some;
    let first: Seq<EventView> = if cp::frame_read(payload) is Some {
        events.subrange(0, 1)
    } else {
        Seq::empty()
    };
    lemma_sent_adds(first, out);
    if first.len() == 1 && (!open || ready) {
        lemma_sent_last(first);
    }
    assert(Seq::<Seq<u8>>::empty() + sent(out) =~= sent(out));
    if !open {
        assert(events =~= first + out);
        assert forall|i: int| 0 <= i < events.len() implies (#[trigger] events[i] is Trace
            || events[i] is Send) by {
            if i >= first.len() {
                assert(events[i] == out[i - first.len()]);
            }
        }
    } else if ready {
        let tail = events.skip((first + out).len() as int);
        assert(events =~= first + out + tail);
        lemma_sent_adds(first + out, tail);
        assert(tail.len() == 2 && tail[0] is Send && tail[1] is Established);
        assert(tail.drop_last() =~= seq![tail[0]]);
        lemma_sent_last(seq![tail[0]]);
        assert(sent(tail).len() == 1);
        assert(sent(events).drop_last() =~= sent(first + out));
    }
}

/// An unreadable frame is dropped, and a frame of another protocol is rejected
/// under the next identifier with nothing but that identifier changed.
pub proof fn law_strange_frames_change_little(
    s: EngineView,
    frame: Seq<u8>,
    draws: Seq<u32>,
    peer_challenge: Seq<u8>,
)
    ensures
        ({
            let (t, events) = step(s, PacketView::Data(frame), draws, peer_challenge);
            let id = ((s.lcp.identifier + 1) % 256) as u8;
            &&& ppp::frame_read(frame) is None ==> t == s && events.len() == 0
            &&& ppp::frame_read(frame) matches Some((proto, payload)) ==> {
                &&& proto.code() == 0x21 ==> t == s && events == seq![
                    EventView::DeliverIpPacket(payload),
                ]
                &&& proto is Unknown || proto == Protocol::Pap ==> t == (EngineView {
                    lcp: LcpView { identifier: id, ..s.lcp },
                    ..s
                })
            }
        }),
{
    ppp::law_protocols_have_their_numbers(0);
    if let Some((proto, payload)) = ppp::frame_read(frame) {
        ppp::law_every_frame_is_read(frame);
    }
}

} // verus!
