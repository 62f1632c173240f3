//! A whole connection as a state machine: what arrives from the transport, the
//! tunnel interface, the idle timer and the user goes in, and what is to be
//! written, delivered, reported or closed comes out.

use crate::addr::Ipv4Addr;
use crate::engine;
use crate::engine::{Engine, EngineEvent, EngineView, EventView};
use crate::entropy;
use crate::http;
use crate::http::ParseError;
use crate::ipcp::NegotiatedConfig;
use crate::packet;
use crate::packet::{DecodeError, MsgType, PacketReader};
use crate::ppp::Protocol;
use crate::text;
use crate::utun::UtunError;
use crate::wire;
use vstd::prelude::*;
use vstd::utf8::encode_utf8;

verus! {

/// Seconds of silence after which the server is asked for a sign of life.
pub const IDLE_TIMEOUT_SECS: u64 = 60;

/// How many such questions may go unanswered.
pub const MAX_UNANSWERED_ECHOES: u32 = 4;

/// Seconds that the server is given to acknowledge a disconnect.
pub const FAREWELL_SECS: u64 = 3;

/// What a connection tells its owner.
#[derive(Debug)]
pub enum Event {
    /// A milestone for the log.
    Progress(String),
    /// The interface is configured and ready for traffic.
    Connected { interface: String, negotiated: NegotiatedConfig },
    /// The tunnel has ended.
    Disconnected,
    /// The connection failed; nothing follows.
    Error(String),
}

/// What an event is.
#[verifier::ext_equal]
pub enum ReportView {
    Progress(Seq<char>),
    Connected { interface: Seq<char>, negotiated: NegotiatedConfig },
    Disconnected,
    Error(Seq<char>),
}

impl View for Event {
    type V = ReportView;

    open spec fn view(&self) -> ReportView {
        match *self {
            Event::Progress(m) => ReportView::Progress(m@),
            Event::Connected { interface, negotiated } => ReportView::Connected {
                interface: interface@,
                negotiated,
            },
            Event::Disconnected => ReportView::Disconnected,
            Event::Error(e) => ReportView::Error(e@),
        }
    }
}

/// Why a connection failed. Errors of the system come in their own words.
#[derive(Debug)]
pub enum ConnectError {
    Tcp(String, String),
    Tls(String),
    NoCertificate,
    InvalidServerName(String),
    Utun(UtunError),
    Protocol(String),
}

impl ConnectError {
    /// The error in words.
    pub open spec fn text(self) -> Seq<char> {
        match self {
            ConnectError::Tcp(server, e) => "could not reach "@ + server@ + ": "@ + e@,
            ConnectError::Tls(e) => "TLS handshake failed: "@ + e@,
            ConnectError::NoCertificate => "server presented no certificate"@,
            ConnectError::InvalidServerName(server) => "invalid server address "@ + server@,
            ConnectError::Utun(e) => "utun interface error: "@ + e.text(),
            ConnectError::Protocol(m) => m@,
        }
    }

    /// The error in words.
    pub fn message(&self) -> (s: String)
        ensures
            s@ == self.text(),
    {
        match self {
            ConnectError::Tcp(server, e) => {
                let s = text::join3("could not reach ", server.as_str(), ": ");
                text::join2(s.as_str(), e.as_str())
            },
            ConnectError::Tls(e) => text::join2("TLS handshake failed: ", e.as_str()),
            ConnectError::NoCertificate => text::owned("server presented no certificate"),
            ConnectError::InvalidServerName(server) => text::join2(
                "invalid server address ",
                server.as_str(),
            ),
            ConnectError::Utun(e) => {
                let m = e.message();
                text::join2("utun interface error: ", m.as_str())
            },
            ConnectError::Protocol(m) => text::owned(m.as_str()),
        }
    }
}

/// The last event of a connection.
pub fn final_event(outcome: Result<(), ConnectError>) -> (e: Event)
    ensures
        match outcome {
            Ok(_) => e is Disconnected,
            Err(f) => e matches Event::Error(m) && m@ == f.text(),
        },
{
    match outcome {
        Ok(_) => Event::Disconnected,
        Err(f) => Event::Error(f.message()),
    }
}

/// A server address without its port: what stands before the last colon, or
/// all of it where there is none.
pub open spec fn host_part(server: Seq<char>) -> Seq<char>
    decreases server.len(),
{
    if !server.contains(':') {
        server
    } else if server.last() == ':' {
        server.drop_last()
    } else {
        host_part(server.drop_last())
    }
}

proof fn lemma_host_part(server: Seq<char>, i: int)
    requires
        0 <= i < server.len(),
        server[i] == ':',
        forall|j: int| i < j < server.len() ==> server[j] != ':',
    ensures
        host_part(server) == server.take(i),
    decreases server.len(),
{
    assert(server.contains(server[i]));
    if i == server.len() - 1 {
        assert(server.drop_last() =~= server.take(i));
    } else {
        lemma_host_part(server.drop_last(), i);
        assert(server.drop_last().take(i) =~= server.take(i));
    }
}

/// The host of a server address, unless it is empty.
pub fn host_of(server: &str) -> (r: Result<String, ConnectError>)
    ensures
        match r {
            Ok(h) => h@ == host_part(server@) && h@.len() > 0,
            Err(e) => host_part(server@).len() == 0 && (e matches ConnectError::InvalidServerName(s)
                && s@ == server@),
        },
{
    let chars = text::to_chars(server);
    let mut i: usize = chars.len();
    while i > 0
        invariant
            i <= chars@.len(),
            chars@ == server@,
            forall|j: int| i <= j < server@.len() ==> server@[j] != ':',
        decreases i,
    {
        if chars[i - 1] == ':' {
            proof {
                lemma_host_part(server@, i - 1);
            }
            if i == 1 {
                return Err(ConnectError::InvalidServerName(text::owned(server)));
            }
            let host = text::from_chars(&chars.as_slice()[0..i - 1]);
            proof {
                assert(host@ =~= server@.take(i - 1));
            }
            return Ok(host);
        }
        i -= 1;
    }
    proof {
        assert(!server@.contains(':'));
    }
    if chars.len() == 0 {
        return Err(ConnectError::InvalidServerName(text::owned(server)));
    }
    Ok(text::owned(server))
}

/// What a write is for.
#[derive(Debug, Clone, Copy, PartialEq, Eq, Structural)]
pub enum WriteKind {
    HttpRequest,
    ConnectRequest,
    Data,
    Keepalive,
}

impl WriteKind {
    /// How the failure of such a write is put.
    pub open spec fn failure(self) -> &'static str {
        match self {
            WriteKind::HttpRequest => "could not send SSTP HTTP request: ",
            WriteKind::ConnectRequest => "could not send CONNECT_REQ: ",
            WriteKind::Data => "write failed: ",
            WriteKind::Keepalive => "keepalive write failed: ",
        }
    }

    /// The failure of such a write, with the words of the system.
    pub fn failed(self, reason: &str) -> (e: ConnectError)
        ensures
            e matches ConnectError::Protocol(m) && m@ == self.failure()@ + reason@,
    {
        let head = match self {
            WriteKind::HttpRequest => "could not send SSTP HTTP request: ",
            WriteKind::ConnectRequest => "could not send CONNECT_REQ: ",
            WriteKind::Data => "write failed: ",
            WriteKind::Keepalive => "keepalive write failed: ",
        };
        ConnectError::Protocol(text::join2(head, reason))
    }
}

/// What happens to a connection.
pub enum Input {
    /// Bytes from the transport; none means that it was closed.
    Received(Vec<u8>),
    /// Reading from the transport failed.
    ReadFailed(String),
    /// The idle timer ran out.
    IdleTick,
    /// A packet from the tunnel interface.
    FromTunnel(Vec<u8>),
    /// The user wants to end the session.
    DisconnectRequested,
}

/// What an input is.
#[verifier::ext_equal]
pub enum InputView {
    Received(Seq<u8>),
    ReadFailed(Seq<char>),
    IdleTick,
    FromTunnel(Seq<u8>),
    DisconnectRequested,
}

impl View for Input {
    type V = InputView;

    open spec fn view(&self) -> InputView {
        match *self {
            Input::Received(b) => InputView::Received(b@),
            Input::ReadFailed(e) => InputView::ReadFailed(e@),
            Input::IdleTick => InputView::IdleTick,
            Input::FromTunnel(b) => InputView::FromTunnel(b@),
            Input::DisconnectRequested => InputView::DisconnectRequested,
        }
    }
}

/// What is to be done, in order.
pub enum Step {
    /// Write to the transport.
    Write { bytes: Vec<u8>, kind: WriteKind },
    /// Report a milestone.
    Progress(String),
    /// Write a packet to the tunnel interface.
    Deliver(Vec<u8>),
    /// Open and configure a tunnel interface, and report the connection.
    OpenTunnel { local: Ipv4Addr, peer: Ipv4Addr, negotiated: NegotiatedConfig },
    /// Start the idle timer anew.
    ResetIdle,
    /// Write to the transport and wait a little for an answer; neither need
    /// succeed.
    Farewell(Vec<u8>),
    /// End the connection in order.
    Close,
    /// End the connection with a failure of the protocol.
    Fail(String),
}

/// What a step is.
#[verifier::ext_equal]
pub enum StepView {
    Write { bytes: Seq<u8>, kind: WriteKind },
    Progress(Seq<char>),
    Deliver(Seq<u8>),
    OpenTunnel { local: Ipv4Addr, peer: Ipv4Addr, negotiated: NegotiatedConfig },
    ResetIdle,
    Farewell(Seq<u8>),
    Close,
    Fail(Seq<char>),
}

impl View for Step {
    type V = StepView;

    open spec fn view(&self) -> StepView {
        match *self {
            Step::Write { bytes, kind } => StepView::Write { bytes: bytes@, kind },
            Step::Progress(m) => StepView::Progress(m@),
            Step::Deliver(p) => StepView::Deliver(p@),
            Step::OpenTunnel { local, peer, negotiated } => StepView::OpenTunnel {
                local,
                peer,
                negotiated,
            },
            Step::ResetIdle => StepView::ResetIdle,
            Step::Farewell(b) => StepView::Farewell(b@),
            Step::Close => StepView::Close,
            Step::Fail(m) => StepView::Fail(m@),
        }
    }
}

/// What a list of steps is.
pub open spec fn steps_view(v: Seq<Step>) -> Seq<StepView> {
    v.map_values(|s: Step| s@)
}

/// How far a connection has come.
#[derive(Debug, Clone, Copy, PartialEq, Eq, Structural)]
pub enum Stage {
    /// The request is out, and its response has not fully arrived.
    Handshake,
    /// Packets flow.
    Running,
    /// Over.
    Ended,
}

/// A connection.
pub struct Session {
    stage: Stage,
    http: Vec<u8>,
    reader: PacketReader,
    engine: Engine,
    unanswered: u32,
    tunnel: bool,
}

/// The state of a connection.
#[verifier::ext_equal]
pub struct SessionView {
    pub stage: Stage,
    /// What has arrived of the response to the request.
    pub http: Seq<u8>,
    /// What has arrived of the packets and not been taken out.
    pub stream: Seq<u8>,
    pub engine: EngineView,
    /// How many questions for a sign of life are unanswered.
    pub unanswered: u32,
    /// Whether there is a tunnel interface.
    pub tunnel: bool,
}

impl View for Session {
    type V = SessionView;

    closed spec fn view(&self) -> SessionView {
        SessionView {
            stage: self.stage,
            http: self.http@,
            stream: self.reader@,
            engine: self.engine@,
            unanswered: self.unanswered,
            tunnel: self.tunnel,
        }
    }
}

/// A connection over a transport that has just been secured.
pub open spec fn fresh(engine: EngineView) -> SessionView {
    SessionView {
        stage: Stage::Handshake,
        http: Seq::empty(),
        stream: Seq::empty(),
        engine,
        unanswered: 0,
        tunnel: false,
    }
}

/// The connection request of the engine.
pub open spec fn connect_request() -> Seq<u8> {
    packet::ctrl_wire(
        MsgType::ConnectRequest,
        seq![
            packet::AttrView {
                attr_type: packet::AttrType::EncapProtocol,
                data: seq![0u8, 1u8],
            },
        ],
    )
}

/// What a judged response does: packets begin, more bytes are awaited, or the
/// connection fails.
pub open spec fn settled(s: SessionView, outcome: Result<(u16, nat), http::ParseErrorView>) -> (
    SessionView,
    Seq<StepView>,
) {
    match outcome {
        Ok((_, offset)) => (
            SessionView { stage: Stage::Running, stream: s.http.skip(offset as int), ..s },
            seq![
                StepView::Progress(
                    "SSTP HTTP handshake completed, switching to binary framing"@,
                ),
                StepView::Write { bytes: connect_request(), kind: WriteKind::ConnectRequest },
                StepView::Progress("sent SSTP CONNECT_REQ, waiting for CONNECT_ACK..."@),
            ],
        ),
        Err(http::ParseErrorView::Incomplete) => (s, Seq::empty()),
        Err(e) => (
            SessionView { stage: Stage::Ended, ..s },
            seq![StepView::Fail("SSTP HTTP handshake failed: "@ + e.text())],
        ),
    }
}

/// What an input does before packets flow.
pub open spec fn handshake_step(s: SessionView, input: InputView) -> (SessionView, Seq<StepView>) {
    let over = SessionView { stage: Stage::Ended, ..s };
    match input {
        InputView::Received(bytes) => if bytes.len() == 0 {
            (over, seq![StepView::Fail("connection closed during HTTP handshake"@)])
        } else {
            let t = SessionView { http: s.http + bytes, ..s };
            settled(t, http::judged(t.http))
        },
        InputView::ReadFailed(e) => (
            over,
            seq![StepView::Fail("HTTP handshake read failed: "@ + e)],
        ),
        InputView::DisconnectRequested => (over, seq![StepView::Close]),
        _ => (s, Seq::empty()),
    }
}

/// What an input does while packets flow.
pub open spec fn running_step(s: SessionView, input: InputView) -> (SessionView, Seq<StepView>) {
    let over = SessionView { stage: Stage::Ended, ..s };
    match input {
        InputView::Received(bytes) => if bytes.len() == 0 {
            (over, seq![StepView::Close])
        } else {
            (
                SessionView { stream: s.stream + bytes, unanswered: 0, ..s },
                seq![StepView::ResetIdle],
            )
        },
        InputView::ReadFailed(e) => (over, seq![StepView::Fail("connection error: "@ + e)]),
        InputView::IdleTick => if s.unanswered >= MAX_UNANSWERED_ECHOES {
            (
                over,
                seq![StepView::Fail("no response from server after 4 keepalive echoes"@)],
            )
        } else {
            (
                SessionView { unanswered: (s.unanswered + 1) as u32, ..s },
                seq![
                    StepView::Write {
                        bytes: packet::ctrl_wire(MsgType::EchoRequest, Seq::empty()),
                        kind: WriteKind::Keepalive,
                    },
                ],
            )
        },
        InputView::FromTunnel(p) => (
            s,
            seq![
                StepView::Write { bytes: engine::wrapped(Protocol::Ip, p), kind: WriteKind::Data },
            ],
        ),
        InputView::DisconnectRequested => (
            over,
            seq![
                StepView::Farewell(packet::ctrl_wire(MsgType::Disconnect, Seq::empty())),
                StepView::Close,
            ],
        ),
    }
}

/// What an input does.
pub open spec fn input_step(s: SessionView, input: InputView) -> (SessionView, Seq<StepView>) {
    match s.stage {
        Stage::Handshake => handshake_step(s, input),
        Stage::Running => running_step(s, input),
        Stage::Ended => (s, Seq::empty()),
    }
}

/// What events of the engine amount to, given whether there is a tunnel: the
/// steps, whether there is one then, and whether the connection goes on. An
/// event that ends the connection hides those behind it.
pub open spec fn event_steps(events: Seq<EventView>, tunnel: bool) -> (Seq<StepView>, bool, bool)
    decreases events.len(),
{
    if events.len() == 0 {
        (Seq::empty(), tunnel, true)
    } else {
        let rest = events.drop_first();
        match events[0] {
            EventView::Send(bytes) => {
                let (steps, t, on) = event_steps(rest, tunnel);
                (seq![StepView::Write { bytes, kind: WriteKind::Data }] + steps, t, on)
            },
            EventView::Trace(m) => {
                let (steps, t, on) = event_steps(rest, tunnel);
                (seq![StepView::Progress(m)] + steps, t, on)
            },
            EventView::DeliverIpPacket(p) => {
                let (steps, t, on) = event_steps(rest, tunnel);
                if tunnel {
                    (seq![StepView::Deliver(p)] + steps, t, on)
                } else {
                    (steps, t, on)
                }
            },
            EventView::Established { negotiated, mppe_keys } => match (
                negotiated.local_ip,
                negotiated.peer_ip,
            ) {
                (Some(local), Some(peer)) => {
                    let (steps, t, on) = event_steps(rest, true);
                    (seq![StepView::OpenTunnel { local, peer, negotiated }] + steps, t, on)
                },
                _ => (
                    seq![
                        StepView::Fail("IPCP finished without both a local and peer address"@),
                    ],
                    tunnel,
                    false,
                ),
            },
            EventView::Disconnected => (seq![StepView::Close], tunnel, false),
            EventView::Fatal(m) => (seq![StepView::Fail(m)], tunnel, false),
        }
    }
}

/// What taking out the next packet does, where one has fully arrived.
pub open spec fn packet_step(s: SessionView, draws: Seq<u32>, peer_challenge: Seq<u8>) -> Option<
    (SessionView, Seq<StepView>),
> {
    if s.stage != Stage::Running {
        None
    } else {
        match packet::packet_read(s.stream) {
            Err(DecodeError::Incomplete) => None,
            Err(e) => Some(
                (
                    SessionView { stage: Stage::Ended, ..s },
                    seq![StepView::Fail("malformed SSTP packet: "@ + e.text())],
                ),
            ),
            Ok(pkt) => {
                let (next, events) = engine::step(s.engine, pkt, draws, peer_challenge);
                let (steps, tunnel, on) = event_steps(events, s.tunnel);
                Some(
                    (
                        SessionView {
                            stage: if on {
                                Stage::Running
                            } else {
                                Stage::Ended
                            },
                            stream: s.stream.skip(packet::claimed_len(s.stream) as int),
                            engine: next,
                            tunnel,
                            ..s
                        },
                        steps,
                    ),
                )
            },
        }
    }
}

/// How many random numbers the next packet needs.
pub open spec fn draws_for(s: SessionView) -> nat {
    match packet::packet_read(s.stream) {
        Ok(pkt) => engine::draws_for(s.engine, pkt),
        Err(_) => 0,
    }
}

fn one(s: Step) -> (v: Vec<Step>)
    ensures
        steps_view(v@) == seq![s@],
{
    let mut v: Vec<Step> = Vec::new();
    v.push(s);
    proof {
        assert(steps_view(v@) =~= seq![s@]);
    }
    v
}

fn none() -> (v: Vec<Step>)
    ensures
        steps_view(v@) == Seq::<StepView>::empty(),
{
    let v: Vec<Step> = Vec::new();
    proof {
        assert(steps_view(v@) =~= Seq::empty());
    }
    v
}

/// Turns events of the engine into steps: the steps, whether there is a tunnel
/// then, and whether the connection goes on.
pub fn steps_for(events: Vec<EngineEvent>, tunnel: bool) -> (r: (Vec<Step>, bool, bool))
    ensures
        (steps_view(r.0@), r.1, r.2) == event_steps(engine::events_view(events@), tunnel),
{
    let ghost all = engine::events_view(events@);
    let mut steps: Vec<Step> = Vec::new();
    let mut open = tunnel;
    let mut i: usize = 0;
    proof {
        assert(all.skip(0) =~= all);
        assert(steps_view(steps@) + event_steps(all, tunnel).0 =~= event_steps(all, tunnel).0);
    }
    while i < events.len()
        invariant
            i <= events@.len(),
            all == engine::events_view(events@),
            event_steps(all, tunnel) == ({
                let (s, t, on) = event_steps(all.skip(i as int), open);
                (steps_view(steps@) + s, t, on)
            }),
        decreases events@.len() - i,
    {
        let ghost before = steps_view(steps@);
        let ghost here = all.skip(i as int);
        proof {
            assert(here[0] == events@[i as int]@);
            assert(here.drop_first() =~= all.skip(i + 1));
        }
        match &events[i] {
            EngineEvent::Send(bytes) => {
                steps.push(
                    Step::Write {
                        bytes: vstd::slice::slice_to_vec(bytes.as_slice()),
                        kind: WriteKind::Data,
                    },
                );
            },
            EngineEvent::Trace(m) => {
                steps.push(Step::Progress(text::owned(m.as_str())));
            },
            EngineEvent::DeliverIpPacket(p) => {
                if open {
                    steps.push(Step::Deliver(vstd::slice::slice_to_vec(p.as_slice())));
                }
            },
            EngineEvent::Established { negotiated, mppe_keys } => {
                match (negotiated.local_ip, negotiated.peer_ip) {
                    (Some(local), Some(peer)) => {
                        steps.push(Step::OpenTunnel { local, peer, negotiated: *negotiated });
                        open = true;
                    },
                    _ => {
                        steps.push(
                            Step::Fail(
                                text::owned("IPCP finished without both a local and peer address"),
                            ),
                        );
                        proof {
                            assert(steps_view(steps@) =~= before + seq![steps@.last()@]);
                        }
                        return (steps, open, false);
                    },
                }
            },
            EngineEvent::Disconnected => {
                steps.push(Step::Close);
                proof {
                    assert(steps_view(steps@) =~= before + seq![StepView::Close]);
                }
                return (steps, open, false);
            },
            EngineEvent::Fatal(m) => {
                steps.push(Step::Fail(text::owned(m.as_str())));
                proof {
                    assert(steps_view(steps@) =~= before + seq![StepView::Fail(m@)]);
                }
                return (steps, open, false);
            },
        }
        proof {
            let tail = event_steps(all.skip(i + 1), open).0;
            if steps@.len() > before.len() {
                let last = steps@.last()@;
                assert(steps_view(steps@) =~= before + seq![last]);
                assert(before + (seq![last] + tail) =~= (before + seq![last]) + tail);
            } else {
                assert(steps_view(steps@) =~= before);
            }
        }
        i += 1;
    }
    proof {
        assert(all.skip(i as int).len() == 0);
        assert(steps_view(steps@) + Seq::<StepView>::empty() =~= steps_view(steps@));
    }
    (steps, open, true)
}

impl Session {
    /// A connection to `server` over a transport on which the server has shown
    /// `cert_der`, and the request to write first.
    pub fn open(server: &str, username: &str, password: &str, cert_der: &[u8]) -> (r: (
        Session,
        Vec<Step>,
    ))
        ensures
            r.0@ == fresh(
                engine::fresh(username@, password@, cert_der@, r.0@.engine.lcp.magic),
            ),
            exists|id: Seq<char>|
                entropy::is_uuid(id) && steps_view(r.1@) == seq![
                    StepView::Write {
                        bytes: encode_utf8(#[trigger] http::request_text(server@, id)),
                        kind: WriteKind::HttpRequest,
                    },
                ],
    {
        let engine = Engine::new(username, password, cert_der);
        let id = entropy::random_uuid();
        let bytes = http::build_request(server, id.as_str());
        let steps = one(Step::Write { bytes, kind: WriteKind::HttpRequest });
        (Session::with_engine(engine), steps)
    }

    /// A connection around an engine that has not started.
    pub fn with_engine(engine: Engine) -> (s: Session)
        ensures
            s@ == fresh(engine@),
    {
        Session {
            stage: Stage::Handshake,
            http: Vec::new(),
            reader: PacketReader::new(),
            engine,
            unanswered: 0,
            tunnel: false,
        }
    }

    /// How far the connection has come.
    pub fn stage(&self) -> (s: Stage)
        ensures
            s == self@.stage,
    {
        self.stage
    }

    /// Takes in the judgement on the response to the request.
    pub fn settle_handshake(&mut self, outcome: Result<(u16, usize), ParseError>) -> (steps: Vec<
        Step,
    >)
        requires
            outcome matches Ok(x) ==> x.1 <= old(self)@.http.len(),
        ensures
            (final(self)@, steps_view(steps@)) == settled(
                old(self)@,
                match outcome {
                    Ok(x) => Ok((x.0, x.1 as nat)),
                    Err(e) => Err(e@),
                },
            ),
    {
        match outcome {
            Ok((_, offset)) => {
                let all = self.http.as_slice();
                let rest = &all[offset..all.len()];
                proof {
                    assert(rest@ =~= self@.http.skip(offset as int));
                }
                let mut reader = PacketReader::new();
                reader.push(rest);
                proof {
                    assert(reader@ =~= rest@);
                }
                self.reader = reader;
                self.stage = Stage::Running;
                let mut v: Vec<Step> = Vec::new();
                v.push(
                    Step::Progress(
                        text::owned("SSTP HTTP handshake completed, switching to binary framing"),
                    ),
                );
                v.push(
                    Step::Write { bytes: self.engine.start(), kind: WriteKind::ConnectRequest },
                );
                v.push(
                    Step::Progress(
                        text::owned("sent SSTP CONNECT_REQ, waiting for CONNECT_ACK..."),
                    ),
                );
                proof {
                    let (t, meant) = settled(old(self)@, Ok((0u16, offset as nat)));
                    assert(self@ =~= t);
                    assert(steps_view(v@) =~= meant);
                }
                v
            },
            Err(ParseError::Incomplete) => none(),
            Err(e) => {
                self.stage = Stage::Ended;
                let m = e.message();
                one(Step::Fail(text::join2("SSTP HTTP handshake failed: ", m.as_str())))
            },
        }
    }

    /// Takes in an input.
    pub fn on_input(&mut self, input: Input) -> (steps: Vec<Step>)
        ensures
            (final(self)@, steps_view(steps@)) == input_step(old(self)@, input@),
    {
        match self.stage {
            Stage::Handshake => self.on_handshake(input),
            Stage::Running => self.on_running(input),
            Stage::Ended => none(),
        }
    }

    fn on_handshake(&mut self, input: Input) -> (steps: Vec<Step>)
        ensures
            (final(self)@, steps_view(steps@)) == handshake_step(old(self)@, input@),
    {
        match input {
            Input::Received(bytes) => {
                if bytes.len() == 0 {
                    self.stage = Stage::Ended;
                    return one(
                        Step::Fail(text::owned("connection closed during HTTP handshake")),
                    );
                }
                wire::append(&mut self.http, bytes.as_slice());
                let outcome = http::parse_response(self.http.as_slice());
                self.settle_handshake(outcome)
            },
            Input::ReadFailed(e) => {
                self.stage = Stage::Ended;
                one(Step::Fail(text::join2("HTTP handshake read failed: ", e.as_str())))
            },
            Input::DisconnectRequested => {
                self.stage = Stage::Ended;
                one(Step::Close)
            },
            _ => none(),
        }
    }

    fn on_running(&mut self, input: Input) -> (steps: Vec<Step>)
        ensures
            (final(self)@, steps_view(steps@)) == running_step(old(self)@, input@),
    {
        match input {
            Input::Received(bytes) => {
                if bytes.len() == 0 {
                    self.stage = Stage::Ended;
                    return one(Step::Close);
                }
                self.reader.push(bytes.as_slice());
                self.unanswered = 0;
                one(Step::ResetIdle)
            },
            Input::ReadFailed(e) => {
                self.stage = Stage::Ended;
                one(Step::Fail(text::join2("connection error: ", e.as_str())))
            },
            Input::IdleTick => {
                if self.unanswered >= MAX_UNANSWERED_ECHOES {
                    self.stage = Stage::Ended;
                    return one(
                        Step::Fail(text::owned("no response from server after 4 keepalive echoes")),
                    );
                }
                self.unanswered = self.unanswered + 1;
                one(
                    Step::Write {
                        bytes: self.engine.build_echo_request(),
                        kind: WriteKind::Keepalive,
                    },
                )
            },
            Input::FromTunnel(p) => one(
                Step::Write {
                    bytes: engine::wrap_data(Protocol::Ip, p.as_slice()),
                    kind: WriteKind::Data,
                },
            ),
            Input::DisconnectRequested => {
                self.stage = Stage::Ended;
                let mut v: Vec<Step> = Vec::new();
                v.push(Step::Farewell(self.engine.build_disconnect()));
                v.push(Step::Close);
                proof {
                    assert(steps_view(v@) =~= running_step(old(self)@, input@).1);
                }
                v
            },
        }
    }

    /// Takes out the next packet, where one has fully arrived. The random
    /// values of the answer are drawn by the engine.
    pub fn next_packet(&mut self) -> (r: Option<Vec<Step>>)
        ensures
            exists|draws: Seq<u32>, peer_challenge: Seq<u8>|
                draws.len() == draws_for(old(self)@) && peer_challenge.len() == 16 && (
                match #[trigger] packet_step(old(self)@, draws, peer_challenge) {
                    Some((t, steps)) => {
                        &&& final(self)@ == t
                        &&& r matches Some(v)
                        &&& steps_view(v@) == steps
                    },
                    None => r is None && final(self)@ == old(self)@,
                }),
    {
        let ghost any = Seq::new(draws_for(self@), |i: int| 0u32);
        let ghost block = Seq::new(16, |i: int| 0u8);
        let ghost s = self@;
        if self.stage != Stage::Running {
            proof {
                assert(packet_step(s, any, block) is None);
            }
            return None;
        }
        match self.reader.next_packet() {
            Ok(None) => {
                proof {
                    assert(self@ =~= s);
                    assert(packet_step(s, any, block) is None);
                }
                None
            },
            Err(e) => {
                self.stage = Stage::Ended;
                let m = e.message();
                let v = one(Step::Fail(text::join2("malformed SSTP packet: ", m.as_str())));
                proof {
                    let (t, steps) = packet_step(s, any, block)->Some_0;
                    assert(self@ =~= t);
                    assert(steps_view(v@) =~= steps);
                }
                Some(v)
            },
            Ok(Some(pkt)) => {
                let ghost before = self.engine@;
                let events = self.engine.on_packet(pkt);
                let ghost shown = engine::events_view(events@);
                let (v, tunnel, on) = steps_for(events, self.tunnel);
                self.tunnel = tunnel;
                if !on {
                    self.stage = Stage::Ended;
                }
                proof {
                    let (draws, peer_challenge) = choose|d: Seq<u32>, p: Seq<u8>|
                        d.len() == engine::draws_for(before, pkt@) && p.len() == 16 && (
                        self.engine@,
                        shown,
                        ) == #[trigger] engine::step(before, pkt@, d, p);
                    let (t, steps) = packet_step(s, draws, peer_challenge)->Some_0;
                    assert(self@ =~= t);
                    assert(steps_view(v@) =~= steps);
                }
                Some(v)
            },
        }
    }
}

/// The state after the idle timer has run out `n` times in silence.
pub open spec fn after_ticks(s: SessionView, n: nat) -> SessionView
    decreases n,
{
    if n == 0 {
        s
    } else {
        input_step(after_ticks(s, (n - 1) as nat), InputView::IdleTick).0
    }
}

/// In silence the server is asked four times for a sign of life; then the
/// connection is given up.
pub proof fn law_silence_is_given_up_after_four_echoes(s: SessionView, n: nat)
    requires
        s.stage == Stage::Running,
        s.unanswered == 0,
        n <= MAX_UNANSWERED_ECHOES,
    ensures
        after_ticks(s, n) == (SessionView { unanswered: n as u32, ..s }),
        n < MAX_UNANSWERED_ECHOES ==> input_step(after_ticks(s, n), InputView::IdleTick).1 == seq![
            StepView::Write {
                bytes: packet::ctrl_wire(MsgType::EchoRequest, Seq::empty()),
                kind: WriteKind::Keepalive,
            },
        ],
        n == MAX_UNANSWERED_ECHOES ==> ({
            let (t, steps) = input_step(after_ticks(s, n), InputView::IdleTick);
            t.stage == Stage::Ended && steps.len() == 1 && steps[0] is Fail
        }),
    decreases n,
{
    if n > 0 {
        law_silence_is_given_up_after_four_echoes(s, (n - 1) as nat);
    }
}

/// Whatever arrives counts as a sign of life.
pub proof fn law_any_byte_is_a_sign_of_life(s: SessionView, bytes: Seq<u8>)
    requires
        s.stage == Stage::Running,
        bytes.len() > 0,
    ensures
        ({
            let (t, steps) = input_step(s, InputView::Received(bytes));
            t.unanswered == 0 && t.stage == Stage::Running && steps == seq![StepView::ResetIdle]
        }),
{
}

/// A connection that has ended does nothing more.
pub proof fn law_the_end_is_final(
    s: SessionView,
    input: InputView,
    draws: Seq<u32>,
    peer_challenge: Seq<u8>,
)
    requires
        s.stage == Stage::Ended,
    ensures
        input_step(s, input) == (s, Seq::<StepView>::empty()),
        packet_step(s, draws, peer_challenge) is None,
{
}

/// A wish to disconnect always ends the connection in order, however far it has
/// come; once packets flow, the server is told.
pub proof fn law_a_disconnect_always_ends(s: SessionView)
    requires
        s.stage != Stage::Ended,
    ensures
        ({
            let (t, steps) = input_step(s, InputView::DisconnectRequested);
            &&& t.stage == Stage::Ended
            &&& steps.last() == StepView::Close
            &&& s.stage == Stage::Running ==> steps[0] == StepView::Farewell(
                packet::ctrl_wire(MsgType::Disconnect, Seq::empty()),
            )
        }),
{
}

/// Whether a step ends the connection.
pub open spec fn is_last(s: StepView) -> bool {
    s is Close || s is Fail
}

proof fn lemma_only_the_last_step_ends(events: Seq<EventView>, tunnel: bool, i: int)
    requires
        0 <= i < event_steps(events, tunnel).0.len(),
    ensures
        is_last(event_steps(events, tunnel).0[i]) <==> (i == event_steps(events, tunnel).0.len() - 1
            && !event_steps(events, tunnel).2),
    decreases events.len(),
{
    if events.len() > 0 {
        let rest = events.drop_first();
        let steps = event_steps(events, tunnel).0;
        let t2 = events[0] is Established || tunnel;
        let tail = event_steps(rest, t2).0;
        lemma_end_has_a_step(rest, t2);
        lemma_end_has_a_step(rest, tunnel);
        match events[0] {
            EventView::DeliverIpPacket(p) => {
                if tunnel {
                    if i > 0 {
                        lemma_only_the_last_step_ends(rest, tunnel, i - 1);
                        assert(steps[i] == tail[i - 1]);
                    }
                } else {
                    lemma_only_the_last_step_ends(rest, tunnel, i);
                }
            },
            EventView::Send(_) | EventView::Trace(_) => {
                if i > 0 {
                    lemma_only_the_last_step_ends(rest, tunnel, i - 1);
                    assert(steps[i] == event_steps(rest, tunnel).0[i - 1]);
                }
            },
            EventView::Established { negotiated, mppe_keys } => {
                if i > 0 && negotiated.local_ip is Some && negotiated.peer_ip is Some {
                    lemma_only_the_last_step_ends(rest, true, i - 1);
                    assert(steps[i] == tail[i - 1]);
                }
            },
            _ => {},
        }
    }
}

proof fn lemma_end_has_a_step(events: Seq<EventView>, tunnel: bool)
    ensures
        !event_steps(events, tunnel).2 ==> event_steps(events, tunnel).0.len() > 0,
    decreases events.len(),
{
    if events.len() > 0 {
        lemma_end_has_a_step(events.drop_first(), tunnel);
        lemma_end_has_a_step(events.drop_first(), true);
    }
}

/// Nothing is done after a step that ends the connection, and the connection
/// ends exactly where there is one.
pub proof fn law_nothing_follows_the_end(
    s: SessionView,
    draws: Seq<u32>,
    peer_challenge: Seq<u8>,
    i: int,
)
    requires
        packet_step(s, draws, peer_challenge) is Some,
        0 <= i < packet_step(s, draws, peer_challenge)->Some_0.1.len(),
    ensures
        ({
            let (t, steps) = packet_step(s, draws, peer_challenge)->Some_0;
            is_last(steps[i]) <==> (i == steps.len() - 1 && t.stage == Stage::Ended)
        }),
{
    if let Ok(pkt) = packet::packet_read(s.stream) {
        let events = engine::step(s.engine, pkt, draws, peer_challenge).1;
        lemma_only_the_last_step_ends(events, s.tunnel, i);
    }
}

proof fn lemma_no_delivery_without_tunnel(events: Seq<EventView>, i: int)
    requires
        0 <= i < event_steps(events, false).0.len(),
        event_steps(events, false).0[i] is Deliver,
    ensures
        exists|j: int| 0 <= j < i && #[trigger] event_steps(events, false).0[j] is OpenTunnel,
    decreases events.len(),
{
    if events.len() > 0 {
        let rest = events.drop_first();
        let steps = event_steps(events, false).0;
        match events[0] {
            EventView::DeliverIpPacket(_) => {
                lemma_no_delivery_without_tunnel(rest, i);
            },
            EventView::Send(_) | EventView::Trace(_) => {
                let tail = event_steps(rest, false).0;
                assert(steps[i] == tail[i - 1]);
                lemma_no_delivery_without_tunnel(rest, i - 1);
                let j = choose|j: int| 0 <= j < i - 1 && #[trigger] tail[j] is OpenTunnel;
                assert(steps[j + 1] == tail[j]);
            },
            EventView::Established { negotiated, mppe_keys } => {
                assert(steps[0] is OpenTunnel || steps[0] is Fail);
            },
            _ => {},
        }
    }
}

/// No packet is delivered before a tunnel interface has been opened.
pub proof fn law_no_delivery_before_a_tunnel(
    s: SessionView,
    draws: Seq<u32>,
    peer_challenge: Seq<u8>,
    i: int,
)
    requires
        !s.tunnel,
        packet_step(s, draws, peer_challenge) is Some,
        0 <= i < packet_step(s, draws, peer_challenge)->Some_0.1.len(),
        packet_step(s, draws, peer_challenge)->Some_0.1[i] is Deliver,
    ensures
        exists|j: int|
            0 <= j < i && #[trigger] packet_step(s, draws, peer_challenge)->Some_0.1[j]
                is OpenTunnel,
{
    if let Ok(pkt) = packet::packet_read(s.stream) {
        let events = engine::step(s.engine, pkt, draws, peer_challenge).1;
        lemma_no_delivery_without_tunnel(events, i);
        let steps = event_steps(events, false).0;
        let j = choose|j: int| 0 <= j < i && #[trigger] steps[j] is OpenTunnel;
        assert(packet_step(s, draws, peer_challenge)->Some_0.1[j] is OpenTunnel);
    }
}

/// What a peer sends into the tunnel is read back from it on the other side.
pub proof fn law_tunnel_round_trip(s: SessionView, ip: Seq<u8>, draws: Seq<u32>, peer: Seq<u8>)
    requires
        s.stage == Stage::Running,
        s.tunnel,
        s.stream == engine::wrapped(Protocol::Ip, ip),
        ip.len() <= 0xfff7,
    ensures
        ({
            let r = packet_step(s, draws, peer);
            &&& r is Some
            &&& r->Some_0.1 == seq![StepView::Deliver(ip)]
            &&& r->Some_0.0.stream == Seq::<u8>::empty()
        }),
{
    let frame = crate::ppp::frame_wire(Protocol::Ip, ip);
    packet::law_data_round_trip(frame, Seq::empty());
    assert(s.stream + Seq::<u8>::empty() =~= s.stream);
    engine::law_ip_packets_are_delivered(s.engine, ip, draws, peer);
    let events = seq![EventView::DeliverIpPacket(ip)];
    assert(events.drop_first() =~= Seq::empty());
    assert(event_steps(events.drop_first(), true) == (Seq::<StepView>::empty(), true, true));
    assert(event_steps(events, true).0 =~= seq![StepView::Deliver(ip)]);
    assert(s.stream.skip(packet::claimed_len(s.stream) as int) =~= Seq::empty());
}

/// Every byte that arrives while packets flow is kept, behind those that are
/// already there, and nothing else of the connection changes but the count of
/// unanswered questions.
pub proof fn law_received_bytes_are_kept(s: SessionView, bytes: Seq<u8>)
    requires
        s.stage == Stage::Running,
        bytes.len() > 0,
    ensures
        ({
            let (t, steps) = input_step(s, InputView::Received(bytes));
            &&& t.stream == s.stream + bytes
            &&& t.stage == Stage::Running
            &&& t.http == s.http
            &&& t.engine == s.engine
            &&& t.tunnel == s.tunnel
            &&& t.unanswered == 0
            &&& steps == seq![StepView::ResetIdle]
        }),
{
}

/// Where the transport cuts the bytes does not matter: two pieces leave the
/// connection as the whole does.
pub proof fn law_cuts_do_not_matter(s: SessionView, a: Seq<u8>, b: Seq<u8>)
    requires
        s.stage == Stage::Running,
        a.len() > 0,
        b.len() > 0,
    ensures
        input_step(input_step(s, InputView::Received(a)).0, InputView::Received(b)).0
            == input_step(s, InputView::Received(a + b)).0,
{
    assert(s.stream + a + b =~= s.stream + (a + b));
}

/// A packet that can be taken out is the same packet when more bytes have
/// arrived behind it: the same steps, and the same connection but for those
/// bytes.
pub proof fn law_later_bytes_wait(
    s: SessionView,
    more: Seq<u8>,
    draws: Seq<u32>,
    peer_challenge: Seq<u8>,
)
    requires
        packet_step(s, draws, peer_challenge) is Some,
    ensures
        ({
            let (t, steps) = packet_step(s, draws, peer_challenge)->Some_0;
            let r = packet_step(
                (SessionView { stream: s.stream + more, ..s }),
                draws,
                peer_challenge,
            );
            &&& r is Some
            &&& r->Some_0.1 == steps
            &&& r->Some_0.0 == (SessionView { stream: t.stream + more, ..t })
        }),
{
    match packet::packet_read(s.stream) {
        Ok(_) => {
            packet::law_tail_is_ignored(s.stream, more);
        },
        Err(_) => {
            let all = s.stream + more;
            packet::law_every_buffer_is_read(s.stream);
            packet::law_every_buffer_is_read(all);
            assert(s.stream[0] == all[0] && s.stream[1] == all[1] && s.stream[2] == all[2]
                && s.stream[3] == all[3]);
            let n = packet::claimed_len(s.stream) as int;
            if 8 <= n <= s.stream.len() {
                assert(all.subrange(8, n) =~= s.stream.subrange(8, n));
            }
            assert(packet::packet_read(all) == packet::packet_read(s.stream));
        },
    }
}

/// What the next packet does: it leaves the stream by the length that it
/// states, its effect on the session is that of the engine, and all events of
/// the engine are acted on. An incomplete one waits, and a malformed one ends
/// the connection.
pub proof fn law_packets_reach_the_engine(
    s: SessionView,
    draws: Seq<u32>,
    peer_challenge: Seq<u8>,
)
    requires
        s.stage == Stage::Running,
    ensures
        match packet::packet_read(s.stream) {
            Ok(pkt) => {
                let (next, events) = engine::step(s.engine, pkt, draws, peer_challenge);
                let (steps, tunnel, on) = event_steps(events, s.tunnel);
                &&& packet_step(s, draws, peer_challenge) matches Some((t, out))
                &&& out == steps
                &&& t.engine == next
                &&& t.tunnel == tunnel
                &&& t.stage == Stage::Running <==> on
                &&& !on ==> t.stage == Stage::Ended
                &&& t.stream == s.stream.skip(s.stream[2] as int * 256 + s.stream[3] as int)
                &&& t.http == s.http
                &&& t.unanswered == s.unanswered
            },
            Err(DecodeError::Incomplete) => packet_step(s, draws, peer_challenge) is None,
            Err(e) => {
                &&& packet_step(s, draws, peer_challenge) matches Some((t, out))
                &&& t.stage == Stage::Ended
                &&& out == seq![StepView::Fail("malformed SSTP packet: "@ + e.text())]
            },
        },
{
    packet::law_every_buffer_is_read(s.stream);
}

/// What each event of the engine amounts to, whatever comes before it: a packet
/// is written, a line is reported, an IP packet is delivered where there is a
/// tunnel, and the announcement opens the tunnel with both addresses of it.
pub proof fn law_events_become_steps(e: EventView, rest: Seq<EventView>, tunnel: bool)
    ensures
        event_steps(Seq::empty(), tunnel) == (Seq::<StepView>::empty(), tunnel, true),
        ({
            let all = event_steps(seq![e] + rest, tunnel);
            let then = event_steps(rest, tunnel);
            let open = event_steps(rest, true);
            match e {
                EventView::Send(bytes) => {
                    &&& all.0 == seq![StepView::Write { bytes, kind: WriteKind::Data }] + then.0
                    &&& all.1 == then.1
                    &&& all.2 == then.2
                },
                EventView::Trace(m) => {
                    &&& all.0 == seq![StepView::Progress(m)] + then.0
                    &&& all.1 == then.1
                    &&& all.2 == then.2
                },
                EventView::DeliverIpPacket(p) => {
                    &&& tunnel ==> all.0 == seq![StepView::Deliver(p)] + then.0
                    &&& !tunnel ==> all.0 == then.0
                    &&& all.1 == then.1
                    &&& all.2 == then.2
                },
                EventView::Established { negotiated, .. } => {
                    &&& negotiated.local_ip is Some && negotiated.peer_ip is Some ==> all.0 == seq![
                        StepView::OpenTunnel {
                            local: negotiated.local_ip->0,
                            peer: negotiated.peer_ip->0,
                            negotiated,
                        },
                    ] + open.0 && all.1 == open.1 && all.2 == open.2
                    &&& negotiated.local_ip is None || negotiated.peer_ip is None ==> all == (
                        seq![
                            StepView::Fail(
                                "IPCP finished without both a local and peer address"@,
                            ),
                        ],
                        tunnel,
                        false,
                    )
                },
                EventView::Disconnected => all == (seq![StepView::Close], tunnel, false),
                EventView::Fatal(m) => all == (seq![StepView::Fail(m)], tunnel, false),
            }
        }),
{
    assert((seq![e] + rest).drop_first() =~= rest);
}

/// Every packet of the tunnel interface is written, whatever its length, in one
/// packet around it, and the connection stays as it is.
pub proof fn law_tunnel_packets_are_written(s: SessionView, p: Seq<u8>)
    requires
        s.stage == Stage::Running,
    ensures
        input_step(s, InputView::FromTunnel(p)) == (
            s,
            seq![
                StepView::Write {
                    bytes: seq![0x10u8, 0] + wire::be16(8 + p.len()) + seq![0xffu8, 3, 0, 0x21] + p,
                    kind: WriteKind::Data,
                },
            ],
        ),
{
    crate::ppp::law_protocols_have_their_numbers(0);
    engine::law_wrapped_layout(Protocol::Ip, p);
    assert(wire::be16(0x21) =~= seq![0u8, 0x21]) by {
        wire::law_be16_is_positional(0x21, 0, 0);
    }
    assert(seq![0x10u8, 0] + wire::be16(8 + p.len()) + seq![0xffu8, 3, 0, 0x21] + p
        =~= engine::wrapped(Protocol::Ip, p));
}

/// A packet that goes into the tunnel on one side comes out of it on the other,
/// as it was and alone, when the bytes written here arrive there.
pub proof fn law_packets_cross_the_tunnel(
    here: SessionView,
    there: SessionView,
    p: Seq<u8>,
    bytes: Seq<u8>,
    draws: Seq<u32>,
    peer_challenge: Seq<u8>,
)
    requires
        here.stage == Stage::Running,
        there.stage == Stage::Running,
        there.tunnel,
        there.stream.len() == 0,
        p.len() <= 0xfff7,
        input_step(here, InputView::FromTunnel(p)).1 == seq![
            StepView::Write { bytes, kind: WriteKind::Data },
        ],
    ensures
        ({
            let t = input_step(there, InputView::Received(bytes)).0;
            let r = packet_step(t, draws, peer_challenge);
            &&& r is Some
            &&& r->Some_0.1 == seq![StepView::Deliver(p)]
            &&& r->Some_0.0.stream == Seq::<u8>::empty()
            &&& r->Some_0.0.engine == there.engine
            &&& r->Some_0.0.stage == Stage::Running
        }),
{
    let steps = input_step(here, InputView::FromTunnel(p)).1;
    assert(steps[0] == StepView::Write { bytes, kind: WriteKind::Data });
    assert(bytes == engine::wrapped(Protocol::Ip, p));
    engine::law_wrapped_layout(Protocol::Ip, p);
    let t = input_step(there, InputView::Received(bytes)).0;
    assert(there.stream + bytes =~= bytes);
    law_tunnel_round_trip(t, p, draws, peer_challenge);
    let frame = crate::ppp::frame_wire(Protocol::Ip, p);
    packet::law_data_round_trip(frame, Seq::empty());
    assert(bytes + Seq::<u8>::empty() =~= bytes);
    engine::law_ip_packets_are_delivered(t.engine, p, draws, peer_challenge);
    let events = seq![EventView::DeliverIpPacket(p)];
    assert(events =~= seq![EventView::DeliverIpPacket(p)] + Seq::<EventView>::empty());
    law_events_become_steps(EventView::DeliverIpPacket(p), Seq::empty(), true);
}

/// The messages that a connection writes of its own accord, byte for byte: the
/// request that opens it for PPP, the question for a sign of life, and the
/// farewell.
pub proof fn law_own_messages(s: SessionView)
    requires
        s.stage == Stage::Running,
    ensures
        connect_request() == seq![0x10u8, 1, 0, 14, 0, 1, 0, 1, 0, 1, 0, 6, 0, 1],
        s.unanswered < 4 ==> ({
            let (t, steps) = input_step(s, InputView::IdleTick);
            &&& t == (SessionView { unanswered: (s.unanswered + 1) as u32, ..s })
            &&& steps == seq![
                StepView::Write {
                    bytes: seq![0x10u8, 1, 0, 8, 0, 8, 0, 0],
                    kind: WriteKind::Keepalive,
                },
            ]
        }),
        s.unanswered >= 4 ==> ({
            let (t, steps) = input_step(s, InputView::IdleTick);
            &&& t == (SessionView { stage: Stage::Ended, ..s })
            &&& steps == seq![StepView::Fail("no response from server after 4 keepalive echoes"@)]
        }),
        input_step(s, InputView::DisconnectRequested) == (
            SessionView { stage: Stage::Ended, ..s },
            seq![StepView::Farewell(seq![0x10u8, 1, 0, 8, 0, 6, 0, 0]), StepView::Close],
        ),
        IDLE_TIMEOUT_SECS == 60,
        FAREWELL_SECS == 3,
{
    let a = packet::AttrView {
        attr_type: packet::AttrType::EncapProtocol,
        data: seq![0u8, 1u8],
    };
    packet::law_attrs_layout(a, Seq::empty());
    packet::law_attributes_have_their_numbers(0);
    packet::law_messages_have_their_numbers(0);
    assert(seq![a] + Seq::<packet::AttrView>::empty() =~= seq![a]);
    packet::law_ctrl_layout(MsgType::ConnectRequest, seq![a]);
    let w = packet::attrs_wire(seq![a]);
    assert(w.subrange(4, 6) == a.data);
    assert(w[4] == w.subrange(4, 6)[0] && w[5] == w.subrange(4, 6)[1]);
    assert(w =~= seq![0u8, 1, 0, 6, 0, 1]);
    let c = connect_request();
    assert(c.skip(8) == w);
    assert(c =~= c.take(8) + c.skip(8));
    assert(c.take(8) =~= seq![0x10u8, 1, 0, 14, 0, 1, 0, 1]);
    assert(c =~= seq![0x10u8, 1, 0, 14, 0, 1, 0, 1, 0, 1, 0, 6, 0, 1]);
    lemma_bare_message(MsgType::EchoRequest);
    lemma_bare_message(MsgType::Disconnect);
}

proof fn lemma_bare_message(m: MsgType)
    requires
        m.code() < 256,
    ensures
        packet::ctrl_wire(m, Seq::empty()) == seq![0x10u8, 1, 0, 8, 0, m.code() as u8, 0, 0],
{
    packet::law_ctrl_layout(m, Seq::empty());
    packet::law_attrs_layout(
        (packet::AttrView { attr_type: packet::AttrType::EncapProtocol, data: Seq::empty() }),
        Seq::empty(),
    );
    assert(packet::ctrl_wire(m, Seq::empty()) =~= seq![0x10u8, 1, 0, 8, 0, m.code() as u8, 0, 0]);
}

/// The end of the transport ends a running connection in order, and a failure
/// of it fails the connection; before packets flow both are failures.
pub proof fn law_transport_failures_end_it(s: SessionView, e: Seq<char>)
    ensures
        s.stage == Stage::Running ==> input_step(s, InputView::Received(Seq::empty())) == (
            SessionView { stage: Stage::Ended, ..s },
            seq![StepView::Close],
        ),
        s.stage == Stage::Running ==> input_step(s, InputView::ReadFailed(e)) == (
            SessionView { stage: Stage::Ended, ..s },
            seq![StepView::Fail("connection error: "@ + e)],
        ),
        s.stage == Stage::Handshake ==> input_step(s, InputView::Received(Seq::empty())) == (
            SessionView { stage: Stage::Ended, ..s },
            seq![StepView::Fail("connection closed during HTTP handshake"@)],
        ),
        s.stage == Stage::Handshake ==> input_step(s, InputView::ReadFailed(e)) == (
            SessionView { stage: Stage::Ended, ..s },
            seq![StepView::Fail("HTTP handshake read failed: "@ + e)],
        ),
{
}

/// Before packets flow, neither the idle timer nor the tunnel interface does
/// anything, and a wish to disconnect ends the connection without a word.
pub proof fn law_handshake_waits_for_the_server(s: SessionView, p: Seq<u8>)
    requires
        s.stage == Stage::Handshake,
    ensures
        input_step(s, InputView::IdleTick) == (s, Seq::<StepView>::empty()),
        input_step(s, InputView::FromTunnel(p)) == (s, Seq::<StepView>::empty()),
        input_step(s, InputView::DisconnectRequested) == (
            SessionView { stage: Stage::Ended, ..s },
            seq![StepView::Close],
        ),
{
}

/// A response that is incomplete is kept, and what comes next is judged with
/// it: two pieces do what the whole does.
pub proof fn law_responses_are_put_together(s: SessionView, a: Seq<u8>, b: Seq<u8>)
    requires
        s.stage == Stage::Handshake,
        a.len() > 0,
        b.len() > 0,
        forall|i: int|
            0 <= i && i + 4 <= (s.http + a).len() ==> (#[trigger] (s.http + a).skip(i)).take(4)
                != seq![13u8, 10, 13, 10],
    ensures
        input_step(s, InputView::Received(a)) == (
            SessionView { http: s.http + a, ..s },
            Seq::<StepView>::empty(),
        ),
        input_step(input_step(s, InputView::Received(a)).0, InputView::Received(b)) == input_step(
            s,
            InputView::Received(a + b),
        ),
{
    http::law_incomplete_until_the_blank_line(s.http + a);
    assert(s.http + a + b =~= s.http + (a + b));
}

/// An accepting response starts the packets with exactly what arrived behind
/// it, and the connection request is written; a refusing one fails the
/// connection and nothing is written.
pub proof fn law_packets_start_behind_the_response(
    s: SessionView,
    bytes: Seq<u8>,
    head: Seq<u8>,
    whole: Seq<u8>,
    body: Seq<u8>,
    line: Seq<char>,
    more: Seq<char>,
)
    requires
        s.stage == Stage::Handshake,
        bytes.len() > 0,
        s.http + bytes == whole + body,
        whole == head + seq![13u8, 10, 13, 10],
        forall|i: int|
            0 <= i < head.len() ==> (#[trigger] whole.skip(i)).take(4) != seq![13u8, 10, 13, 10],
        !line.contains('\n'),
        http::ends_a_line(line, more),
        text::utf8_lossy(head) == line + more,
    ensures
        ({
            let (t, steps) = input_step(s, InputView::Received(bytes));
            &&& http::status_code(line) == Some(200u16) ==> {
                &&& t.stage == Stage::Running
                &&& t.stream == body
                &&& t.engine == s.engine
                &&& t.tunnel == s.tunnel
                &&& t.unanswered == s.unanswered
                &&& steps.len() == 3
                &&& steps[0] is Progress && steps[2] is Progress
                &&& steps[1] == (StepView::Write {
                    bytes: seq![0x10u8, 1, 0, 14, 0, 1, 0, 1, 0, 1, 0, 6, 0, 1],
                    kind: WriteKind::ConnectRequest,
                })
            }
            &&& http::status_code(line) != Some(200u16) ==> {
                &&& t.stage == Stage::Ended
                &&& steps.len() == 1
                &&& steps[0] is Fail
            }
        }),
{
    http::law_responses_are_judged(head, whole, body, line, more);
    law_own_messages((SessionView { stage: Stage::Running, ..s }));
    assert((whole + body).skip(head.len() as int + 4) =~= body);
}

/// A connection starts in the handshake, with nothing received and no tunnel.
pub proof fn law_new_connections(e: EngineView)
    ensures
        fresh(e).stage == Stage::Handshake,
        fresh(e).engine == e,
        fresh(e).http.len() == 0 && fresh(e).stream.len() == 0,
        fresh(e).unanswered == 0,
        !fresh(e).tunnel,
{
}

/// The host of an address is what stands before its last colon, or all of it.
pub proof fn law_host_stands_before_the_port(host: Seq<char>, port: Seq<char>)
    requires
        !port.contains(':'),
    ensures
        host_part(host + seq![':'] + port) == host,
        host_part(port) == port,
{
    let server = host + seq![':'] + port;
    assert forall|j: int| host.len() < j < server.len() implies server[j] != ':' by {
        assert(server[j] == port[j - host.len() - 1]);
        assert(port.contains(port[j - host.len() - 1]));
    }
    lemma_host_part(server, host.len() as int);
    assert(server.take(host.len() as int) =~= host);
}

} // verus!
