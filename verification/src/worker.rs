//! The privileged worker, which owns the connection while a tunnel is up: what
//! it does on each event, as data for its owner to carry out.

use crate::addr::Ipv4Addr;
use crate::connection::{Event, ReportView};
use crate::ipc;
use crate::ipc::{StatusView, VpnStatusFile, WorkerState};
use crate::ipcp::NegotiatedConfig;
use crate::text;
use vstd::prelude::*;

verus! {

/// Milliseconds between two looks for a wish to disconnect.
pub const DISCONNECT_POLL_MS: u64 = 500;

/// The tool that changes routes.
pub const ROUTE_TOOL: &'static str = "/sbin/route";

/// What the worker has to do.
pub enum WorkerAction {
    Log(String),
    /// Run the tool that changes routes; it need not succeed.
    Route(Vec<String>),
    WriteStatus(VpnStatusFile),
    /// Ask the connection to end.
    Disconnect,
    /// Stop, with the error where there was one.
    Finish(Result<(), String>),
}

/// What an action is.
#[verifier::ext_equal]
pub enum ActionView {
    Log(Seq<char>),
    Route(Seq<Seq<char>>),
    WriteStatus(StatusView),
    Disconnect,
    Finish(Option<Seq<char>>),
}

impl View for WorkerAction {
    type V = ActionView;

    open spec fn view(&self) -> ActionView {
        match *self {
            WorkerAction::Log(s) => ActionView::Log(s@),
            WorkerAction::Route(v) => ActionView::Route(text::strs_view(v@)),
            WorkerAction::WriteStatus(s) => ActionView::WriteStatus(s@),
            WorkerAction::Disconnect => ActionView::Disconnect,
            WorkerAction::Finish(r) => ActionView::Finish(
                match r {
                    Ok(_) => None,
                    Err(e) => Some(e@),
                },
            ),
        }
    }
}

/// What a list of actions is.
pub open spec fn actions_view(v: Seq<WorkerAction>) -> Seq<ActionView> {
    v.map_values(|a: WorkerAction| a@)
}

/// The arguments that keep traffic to the server on the gateway from before.
pub open spec fn host_route_words(server_ip: Seq<char>, gateway: Seq<char>) -> Seq<Seq<char>> {
    seq!["-n"@, "add"@, "-host"@, server_ip, gateway]
}

/// The arguments that take that route away.
pub open spec fn drop_host_route_words(server_ip: Seq<char>) -> Seq<Seq<char>> {
    seq!["-n"@, "delete"@, "-host"@, server_ip]
}

/// The arguments that take the default route away.
pub open spec fn drop_default_words() -> Seq<Seq<char>> {
    seq!["-n"@, "delete"@, "default"@]
}

/// The arguments that point the default route at an interface.
pub open spec fn default_route_words(iface: Seq<char>) -> Seq<Seq<char>> {
    seq!["-n"@, "add"@, "default"@, "-interface"@, iface]
}

fn host_route_args(server_ip: &str, gateway: &str) -> (v: Vec<String>)
    ensures
        text::strs_view(v@) == host_route_words(server_ip@, gateway@),
{
    let mut v: Vec<String> = Vec::new();
    v.push(text::owned("-n"));
    v.push(text::owned("add"));
    v.push(text::owned("-host"));
    v.push(text::owned(server_ip));
    v.push(text::owned(gateway));
    proof {
        assert(text::strs_view(v@) =~= host_route_words(server_ip@, gateway@));
    }
    v
}

fn drop_host_route_args(server_ip: &str) -> (v: Vec<String>)
    ensures
        text::strs_view(v@) == drop_host_route_words(server_ip@),
{
    let mut v: Vec<String> = Vec::new();
    v.push(text::owned("-n"));
    v.push(text::owned("delete"));
    v.push(text::owned("-host"));
    v.push(text::owned(server_ip));
    proof {
        assert(text::strs_view(v@) =~= drop_host_route_words(server_ip@));
    }
    v
}

fn drop_default_args() -> (v: Vec<String>)
    ensures
        text::strs_view(v@) == drop_default_words(),
{
    let mut v: Vec<String> = Vec::new();
    v.push(text::owned("-n"));
    v.push(text::owned("delete"));
    v.push(text::owned("default"));
    proof {
        assert(text::strs_view(v@) =~= drop_default_words());
    }
    v
}

fn default_route_args(iface: &str) -> (v: Vec<String>)
    ensures
        text::strs_view(v@) == default_route_words(iface@),
{
    let mut v: Vec<String> = Vec::new();
    v.push(text::owned("-n"));
    v.push(text::owned("add"));
    v.push(text::owned("default"));
    v.push(text::owned("-interface"));
    v.push(text::owned(iface));
    proof {
        assert(text::strs_view(v@) =~= default_route_words(iface@));
    }
    v
}

/// An optional address in the form of a log.
pub open spec fn addr_text(a: Option<Ipv4Addr>) -> Seq<char> {
    match a {
        Some(x) => "Some("@ + x.dotted() + ")"@,
        None => "None"@,
    }
}

fn push_addr(out: &mut String, a: Option<Ipv4Addr>)
    ensures
        final(out)@ == old(out)@ + addr_text(a),
{
    match a {
        Some(x) => {
            text::push_str(out, "Some(");
            x.push_dotted(out);
            text::push_str(out, ")");
        },
        None => text::push_str(out, "None"),
    }
    proof {
        assert(out@ =~= old(out)@ + addr_text(a));
    }
}

/// The log line for a tunnel that is up.
pub open spec fn connected_line(iface: Seq<char>, c: NegotiatedConfig) -> Seq<char> {
    "connected: interface="@ + iface + " local="@ + addr_text(c.local_ip) + " peer="@ + addr_text(
        c.peer_ip,
    ) + " dns1="@ + addr_text(c.dns1) + " dns2="@ + addr_text(c.dns2)
}

fn format_connected(iface: &str, c: &NegotiatedConfig) -> (s: String)
    ensures
        s@ == connected_line(iface@, *c),
{
    let mut s = text::owned("connected: interface=");
    text::push_str(&mut s, iface);
    text::push_str(&mut s, " local=");
    push_addr(&mut s, c.local_ip);
    text::push_str(&mut s, " peer=");
    push_addr(&mut s, c.peer_ip);
    text::push_str(&mut s, " dns1=");
    push_addr(&mut s, c.dns1);
    text::push_str(&mut s, " dns2=");
    push_addr(&mut s, c.dns2);
    s
}

/// An optional address in dotted form.
pub open spec fn dotted(a: Option<Ipv4Addr>) -> Option<Seq<char>> {
    match a {
        Some(x) => Some(x.dotted()),
        None => None,
    }
}

fn to_dotted(a: Option<Ipv4Addr>) -> (r: Option<String>)
    ensures
        text::opt_view(r) == dotted(a),
{
    match a {
        Some(x) => Some(x.to_text()),
        None => None,
    }
}

/// The status of a worker whose tunnel is up.
pub open spec fn connected_status(iface: Seq<char>, c: NegotiatedConfig, pid: u32) -> StatusView {
    StatusView {
        state: Some(WorkerState::Connected),
        interface: Some(iface),
        local_ip: dotted(c.local_ip),
        peer_ip: dotted(c.peer_ip),
        dns1: dotted(c.dns1),
        dns2: dotted(c.dns2),
        message: None,
        pid: Some(pid),
    }
}

/// The worker while a connection lasts.
pub struct Worker {
    server_ip: String,
    gateway: Option<String>,
    pid: u32,
    route_protected: bool,
    disconnect_sent: bool,
}

/// The state of the worker.
#[verifier::ext_equal]
pub struct WorkerView {
    /// The address of the server.
    pub server_ip: Seq<char>,
    /// The gateway from before the tunnel, where it is known.
    pub gateway: Option<Seq<char>>,
    pub pid: u32,
    /// Whether there is a route that keeps traffic to the server out of the
    /// tunnel.
    pub route_protected: bool,
    /// Whether the connection has been asked to end.
    pub disconnect_sent: bool,
}

impl View for Worker {
    type V = WorkerView;

    closed spec fn view(&self) -> WorkerView {
        WorkerView {
            server_ip: self.server_ip@,
            gateway: text::opt_view(self.gateway),
            pid: self.pid,
            route_protected: self.route_protected,
            disconnect_sent: self.disconnect_sent,
        }
    }
}

/// The actions that take the protective route away, where there is one.
pub open spec fn unprotect(s: WorkerView) -> Seq<ActionView> {
    if s.route_protected {
        seq![ActionView::Route(drop_host_route_words(s.server_ip))]
    } else {
        Seq::empty()
    }
}

/// The actions at an end in order.
pub open spec fn closing(s: WorkerView) -> Seq<ActionView> {
    unprotect(s) + seq![
        ActionView::WriteStatus(
            StatusView { state: Some(WorkerState::Disconnected), ..ipc::blank_status() },
        ),
        ActionView::Finish(None),
    ]
}

/// What the worker does on an event of the connection. No event means that
/// none will come.
pub open spec fn event_step(s: WorkerView, event: Option<ReportView>) -> (
    WorkerView,
    Seq<ActionView>,
) {
    match event {
        Some(ReportView::Progress(m)) => (s, seq![ActionView::Log(m)]),
        Some(ReportView::Connected { interface, negotiated }) => {
            let protect = match s.gateway {
                Some(g) => ActionView::Route(host_route_words(s.server_ip, g)),
                None => ActionView::Log(
                    "no pre-VPN gateway known -- skipping the protective host route (best effort only)"@,
                ),
            };
            (
                WorkerView { route_protected: s.route_protected || s.gateway is Some, ..s },
                seq![
                    ActionView::Log(connected_line(interface, negotiated)),
                    protect,
                    ActionView::Route(drop_default_words()),
                    ActionView::Route(default_route_words(interface)),
                    ActionView::WriteStatus(connected_status(interface, negotiated, s.pid)),
                ],
            )
        },
        Some(ReportView::Disconnected) => (s, seq![ActionView::Log("disconnected"@)] + closing(s)),
        Some(ReportView::Error(e)) => (
            s,
            seq![ActionView::Log("connection error: "@ + e)] + unprotect(s) + seq![
                ActionView::Finish(Some(e)),
            ],
        ),
        None => (s, closing(s)),
    }
}

/// What the worker does on a look for a wish to disconnect.
pub open spec fn poll_step(s: WorkerView, requested: bool) -> (WorkerView, Seq<ActionView>) {
    if requested && !s.disconnect_sent {
        (
            WorkerView { disconnect_sent: true, ..s },
            seq![
                ActionView::Log("disconnect requested, tearing down gracefully..."@),
                ActionView::Disconnect,
            ],
        )
    } else {
        (s, Seq::empty())
    }
}

impl Worker {
    /// A worker for a connection to a server.
    pub fn new(server_ip: String, gateway: Option<String>, pid: u32) -> (w: Worker)
        ensures
            w@ == (WorkerView {
                server_ip: server_ip@,
                gateway: text::opt_view(gateway),
                pid,
                route_protected: false,
                disconnect_sent: false,
            }),
    {
        Worker { server_ip, gateway, pid, route_protected: false, disconnect_sent: false }
    }

    /// Whether there is still a point in looking for a wish to disconnect.
    pub fn is_polling(&self) -> (r: bool)
        ensures
            r == !self@.disconnect_sent,
    {
        !self.disconnect_sent
    }

    fn push_unprotect(&self, v: &mut Vec<WorkerAction>)
        ensures
            actions_view(final(v)@) == actions_view(old(v)@) + unprotect(self@),
    {
        if self.route_protected {
            v.push(WorkerAction::Route(drop_host_route_args(self.server_ip.as_str())));
        }
        proof {
            assert(actions_view(v@) =~= actions_view(old(v)@) + unprotect(self@));
        }
    }

    fn push_closing(&self, v: &mut Vec<WorkerAction>)
        ensures
            actions_view(final(v)@) == actions_view(old(v)@) + closing(self@),
    {
        self.push_unprotect(v);
        let ghost mid = actions_view(v@);
        let mut status = VpnStatusFile::default();
        status.state = Some(WorkerState::Disconnected);
        v.push(WorkerAction::WriteStatus(status));
        v.push(WorkerAction::Finish(Ok(())));
        proof {
            let last = seq![
                ActionView::WriteStatus(
                    StatusView { state: Some(WorkerState::Disconnected), ..ipc::blank_status() },
                ),
                ActionView::Finish(None),
            ];
            assert(actions_view(v@) =~= mid + last);
            assert(actions_view(v@) =~= actions_view(old(v)@) + closing(self@));
        }
    }

    /// Takes in an event of the connection. No event means that none will
    /// come.
    pub fn on_event(&mut self, event: Option<Event>) -> (v: Vec<WorkerAction>)
        ensures
            (final(self)@, actions_view(v@)) == event_step(
                old(self)@,
                match event {
                    Some(e) => Some(e@),
                    None => None,
                },
            ),
    {
        let mut v: Vec<WorkerAction> = Vec::new();
        match event {
            Some(Event::Progress(m)) => {
                v.push(WorkerAction::Log(m));
                proof {
                    assert(actions_view(v@) =~= seq![ActionView::Log(m@)]);
                }
            },
            Some(Event::Connected { interface, negotiated }) => {
                v.push(WorkerAction::Log(format_connected(interface.as_str(), &negotiated)));
                let protect = match &self.gateway {
                    Some(g) => {
                        WorkerAction::Route(host_route_args(self.server_ip.as_str(), g.as_str()))
                    },
                    None => WorkerAction::Log(
                        text::owned(
                            "no pre-VPN gateway known -- skipping the protective host route (best effort only)",
                        ),
                    ),
                };
                v.push(protect);
                if self.gateway.is_some() {
                    self.route_protected = true;
                }
                v.push(WorkerAction::Route(drop_default_args()));
                v.push(WorkerAction::Route(default_route_args(interface.as_str())));
                let ghost shown = interface@;
                v.push(
                    WorkerAction::WriteStatus(
                        VpnStatusFile {
                            state: Some(WorkerState::Connected),
                            interface: Some(interface),
                            local_ip: to_dotted(negotiated.local_ip),
                            peer_ip: to_dotted(negotiated.peer_ip),
                            dns1: to_dotted(negotiated.dns1),
                            dns2: to_dotted(negotiated.dns2),
                            message: None,
                            pid: Some(self.pid),
                        },
                    ),
                );
                proof {
                    let (t, meant) = event_step(
                        old(self)@,
                        Some(ReportView::Connected { interface: shown, negotiated }),
                    );
                    assert(actions_view(v@) =~= meant);
                    assert(self@ =~= t);
                }
            },
            Some(Event::Disconnected) => {
                v.push(WorkerAction::Log(text::owned("disconnected")));
                proof {
                    assert(actions_view(v@) =~= seq![ActionView::Log("disconnected"@)]);
                }
                self.push_closing(&mut v);
            },
            Some(Event::Error(e)) => {
                v.push(WorkerAction::Log(text::join2("connection error: ", e.as_str())));
                proof {
                    assert(actions_view(v@) =~= seq![ActionView::Log("connection error: "@ + e@)]);
                }
                self.push_unprotect(&mut v);
                let ghost mid = actions_view(v@);
                v.push(WorkerAction::Finish(Err(e)));
                proof {
                    assert(actions_view(v@) =~= mid + seq![ActionView::Finish(Some(e@))]);
                }
            },
            None => {
                self.push_closing(&mut v);
                proof {
                    assert(actions_view(v@) =~= closing(self@));
                }
            },
        }
        v
    }

    /// Takes in whether there is a wish to disconnect.
    pub fn on_poll(&mut self, requested: bool) -> (v: Vec<WorkerAction>)
        ensures
            (final(self)@, actions_view(v@)) == poll_step(old(self)@, requested),
    {
        let mut v: Vec<WorkerAction> = Vec::new();
        if requested && !self.disconnect_sent {
            self.disconnect_sent = true;
            v.push(
                WorkerAction::Log(text::owned("disconnect requested, tearing down gracefully...")),
            );
            v.push(WorkerAction::Disconnect);
        }
        proof {
            assert(actions_view(v@) =~= poll_step(old(self)@, requested).1);
        }
        v
    }
}

/// The password that the worker was handed, unless reading it failed or there
/// is none.
pub fn check_password(handed: Result<String, String>) -> (r: Result<String, String>)
    ensures
        match handed {
            Ok(p) => if p@.len() == 0 {
                r matches Err(e) && e@ == "empty password"@
            } else {
                r matches Ok(q) && q@ == p@
            },
            Err(e) => r matches Err(f) && f@ == "could not read password handoff file: "@ + e@,
        },
{
    match handed {
        Ok(p) => {
            if p.as_str().is_empty() {
                return Err(text::owned("empty password"));
            }
            Ok(p)
        },
        Err(e) => Err(text::join2("could not read password handoff file: ", e.as_str())),
    }
}

/// What the worker does when it starts.
pub open spec fn first_actions(server: Seq<char>, pid: u32) -> Seq<ActionView> {
    seq![
        ActionView::Log("worker starting, connecting to "@ + server + "..."@),
        ActionView::WriteStatus(
            StatusView {
                state: Some(WorkerState::Connecting),
                pid: Some(pid),
                ..ipc::blank_status()
            },
        ),
    ]
}

/// What the worker does when it starts.
pub fn starting(server: &str, pid: u32) -> (v: Vec<WorkerAction>)
    ensures
        actions_view(v@) == seq![
            ActionView::Log("worker starting, connecting to "@ + server@ + "..."@),
            ActionView::WriteStatus(
                StatusView {
                    state: Some(WorkerState::Connecting),
                    pid: Some(pid),
                    ..ipc::blank_status()
                },
            ),
        ],
        actions_view(v@) == first_actions(server@, pid),
{
    let mut status = VpnStatusFile::default();
    status.state = Some(WorkerState::Connecting);
    status.pid = Some(pid);
    let mut v: Vec<WorkerAction> = Vec::new();
    v.push(WorkerAction::Log(text::join3("worker starting, connecting to ", server, "...")));
    v.push(WorkerAction::WriteStatus(status));
    proof {
        assert(actions_view(v@) =~= seq![
            ActionView::Log("worker starting, connecting to "@ + server@ + "..."@),
            ActionView::WriteStatus(
                StatusView {
                    state: Some(WorkerState::Connecting),
                    pid: Some(pid),
                    ..ipc::blank_status()
                },
            ),
        ]);
    }
    v
}

/// What the worker does when it stops, by the error where there was one, and
/// its exit code.
pub open spec fn last_actions(error: Option<Seq<char>>) -> (Seq<ActionView>, int) {
    match error {
        None => (Seq::empty(), 0),
        Some(e) => (
            seq![
                ActionView::Log("worker error: "@ + e),
                ActionView::WriteStatus(
                    StatusView {
                        state: Some(WorkerState::Error),
                        message: Some(e),
                        ..ipc::blank_status()
                    },
                ),
            ],
            1,
        ),
    }
}

/// What the worker does when it stops, and its exit code.
pub fn stopping(outcome: Result<(), String>) -> (r: (Vec<WorkerAction>, i32))
    ensures
        match outcome {
            Ok(_) => r.0@.len() == 0 && r.1 == 0,
            Err(e) => r.1 == 1 && actions_view(r.0@) == seq![
                ActionView::Log("worker error: "@ + e@),
                ActionView::WriteStatus(
                    StatusView {
                        state: Some(WorkerState::Error),
                        message: Some(e@),
                        ..ipc::blank_status()
                    },
                ),
            ],
        },
        (actions_view(r.0@), r.1 as int) == last_actions(
            match outcome {
                Ok(_) => None,
                Err(e) => Some(e@),
            },
        ),
{
    let mut v: Vec<WorkerAction> = Vec::new();
    match outcome {
        Ok(_) => {
            proof {
                assert(actions_view(v@) =~= Seq::empty());
            }
            (v, 0)
        },
        Err(e) => {
            let ghost said = e@;
            v.push(WorkerAction::Log(text::join2("worker error: ", e.as_str())));
            let mut status = VpnStatusFile::default();
            status.state = Some(WorkerState::Error);
            status.message = Some(e);
            v.push(WorkerAction::WriteStatus(status));
            proof {
                assert(actions_view(v@) =~= seq![
                    ActionView::Log("worker error: "@ + said),
                    ActionView::WriteStatus(
                        StatusView {
                            state: Some(WorkerState::Error),
                            message: Some(said),
                            ..ipc::blank_status()
                        },
                    ),
                ]);
            }
            (v, 1)
        },
    }
}

/// Before the default route is pointed at the tunnel, traffic to the server is
/// kept on the gateway from before, wherever that is known.
pub proof fn law_server_is_protected_first(
    s: WorkerView,
    interface: Seq<char>,
    negotiated: NegotiatedConfig,
    gateway: Seq<char>,
)
    requires
        s.gateway == Some(gateway),
    ensures
        ({
            let (t, actions) = event_step(
                s,
                Some(ReportView::Connected { interface, negotiated }),
            );
            &&& t.route_protected
            &&& exists|i: int, j: int|
                0 <= i < j < actions.len() && #[trigger] actions[i] == ActionView::Route(
                    host_route_words(s.server_ip, gateway),
                ) && #[trigger] actions[j] == ActionView::Route(default_route_words(interface))
        }),
{
    let actions = event_step(s, Some(ReportView::Connected { interface, negotiated })).1;
    assert(actions[1] == ActionView::Route(host_route_words(s.server_ip, gateway)));
    assert(actions[3] == ActionView::Route(default_route_words(interface)));
}

/// Whether a worker stops among some actions.
pub open spec fn stops(actions: Seq<ActionView>) -> bool {
    actions.len() > 0 && actions.last() is Finish
}

/// However the worker stops, the protective route is taken away exactly where
/// there is one.
pub proof fn law_protection_ends_with_the_worker(s: WorkerView, event: Option<ReportView>)
    requires
        stops(event_step(s, event).1),
    ensures
        event_step(s, event).1.contains(ActionView::Route(drop_host_route_words(s.server_ip)))
            <==> s.route_protected,
{
    let actions = event_step(s, event).1;
    let drop = ActionView::Route(drop_host_route_words(s.server_ip));
    if s.route_protected {
        match event {
            None => {
                assert(actions[0] == drop);
            },
            _ => {
                assert(actions[1] == drop);
            },
        }
    }
}

/// The protective route is on record exactly from the moment it is made.
pub proof fn law_protection_is_recorded(s: WorkerView, event: Option<ReportView>)
    ensures
        event_step(s, event).0.route_protected <==> s.route_protected || (event matches Some(
            ReportView::Connected { .. },
        ) && s.gateway is Some),
{
}

/// The connection is asked to end at most once.
pub proof fn law_disconnect_is_asked_once(s: WorkerView, requested: bool)
    ensures
        poll_step(s, requested).1.contains(ActionView::Disconnect) ==> !s.disconnect_sent
            && poll_step(s, requested).0.disconnect_sent,
        s.disconnect_sent ==> poll_step(s, requested) == (s, Seq::<ActionView>::empty()),
{
}

/// What a worker does to the routes when the tunnel is up, word for word and in
/// order: the server keeps its way over the old gateway, the default route is
/// dropped and then led into the tunnel. The status then tells every address.
pub proof fn law_tunnel_takes_the_default_route(
    s: WorkerView,
    interface: Seq<char>,
    negotiated: NegotiatedConfig,
)
    ensures
        ({
            let (t, actions) = event_step(
                s,
                Some(ReportView::Connected { interface, negotiated }),
            );
            &&& actions.len() == 5
            &&& actions[0] is Log
            &&& s.gateway matches Some(g) ==> actions[1] == ActionView::Route(
                seq!["-n"@, "add"@, "-host"@, s.server_ip, g],
            )
            &&& s.gateway is None ==> actions[1] is Log
            &&& actions[2] == ActionView::Route(seq!["-n"@, "delete"@, "default"@])
            &&& actions[3] == ActionView::Route(
                seq!["-n"@, "add"@, "default"@, "-interface"@, interface],
            )
            &&& actions[4] matches ActionView::WriteStatus(w)
            &&& w.state == Some(WorkerState::Connected)
            &&& w.interface == Some(interface)
            &&& w.pid == Some(s.pid)
            &&& w.message is None
            &&& negotiated.local_ip matches Some(a) ==> w.local_ip == Some(a.dotted())
            &&& negotiated.peer_ip matches Some(a) ==> w.peer_ip == Some(a.dotted())
            &&& negotiated.dns1 matches Some(a) ==> w.dns1 == Some(a.dotted())
            &&& negotiated.dns2 matches Some(a) ==> w.dns2 == Some(a.dotted())
            &&& negotiated.local_ip is None ==> w.local_ip is None
            &&& negotiated.peer_ip is None ==> w.peer_ip is None
            &&& negotiated.dns1 is None ==> w.dns1 is None
            &&& negotiated.dns2 is None ==> w.dns2 is None
            &&& t.server_ip == s.server_ip && t.gateway == s.gateway && t.pid == s.pid
            &&& t.disconnect_sent == s.disconnect_sent
        }),
{
}

/// How a worker ends: in order, with a status that says nothing but that, after
/// a disconnect and when no events will come; with the error where there was
/// one. The protective route goes first, where there is one. A milestone is
/// logged and changes nothing.
pub proof fn law_workers_end_as_the_connection_does(s: WorkerView, e: Seq<char>)
    ensures
        event_step(s, Some(ReportView::Progress(e))) == (s, seq![ActionView::Log(e)]),
        ({
            let drop: Seq<ActionView> = if s.route_protected {
                seq![ActionView::Route(seq!["-n"@, "delete"@, "-host"@, s.server_ip])]
            } else {
                Seq::empty()
            };
            let over = StatusView {
                state: Some(WorkerState::Disconnected),
                interface: None,
                local_ip: None,
                peer_ip: None,
                dns1: None,
                dns2: None,
                message: None,
                pid: None,
            };
            &&& event_step(s, None) == (
                s,
                drop + seq![ActionView::WriteStatus(over), ActionView::Finish(None)],
            )
            &&& event_step(s, Some(ReportView::Disconnected)) == (
                s,
                seq![ActionView::Log("disconnected"@)] + (drop + seq![
                    ActionView::WriteStatus(over),
                    ActionView::Finish(None),
                ]),
            )
            &&& event_step(s, Some(ReportView::Error(e))) == (
                s,
                seq![ActionView::Log("connection error: "@ + e)] + drop + seq![
                    ActionView::Finish(Some(e)),
                ],
            )
        }),
{
    let drop: Seq<ActionView> = if s.route_protected {
        seq![ActionView::Route(seq!["-n"@, "delete"@, "-host"@, s.server_ip])]
    } else {
        Seq::empty()
    };
    assert(unprotect(s) =~= drop);
}

/// A wish to disconnect is passed on once, and what is not asked for is not
/// done.
pub proof fn law_wishes_are_passed_on(s: WorkerView)
    ensures
        poll_step(s, false) == (s, Seq::<ActionView>::empty()),
        !s.disconnect_sent ==> ({
            let (t, actions) = poll_step(s, true);
            &&& t == (WorkerView { disconnect_sent: true, ..s })
            &&& actions.len() == 2
            &&& actions[0] is Log
            &&& actions[1] is Disconnect
        }),
        s.disconnect_sent ==> poll_step(s, true) == (s, Seq::<ActionView>::empty()),
{
}

/// The log line of a tunnel that is up tells its interface and all four
/// addresses, each under its own name.
pub proof fn law_connected_line_tells_every_address(
    iface: Seq<char>,
    local: Ipv4Addr,
    peer: Ipv4Addr,
    dns1: Ipv4Addr,
)
    ensures
        connected_line(
            iface,
            (NegotiatedConfig {
                local_ip: Some(local),
                peer_ip: Some(peer),
                dns1: Some(dns1),
                dns2: None,
            }),
        ) == "connected: interface="@ + iface + " local="@ + ("Some("@ + local.dotted() + ")"@)
            + " peer="@ + ("Some("@ + peer.dotted() + ")"@) + " dns1="@ + ("Some("@ + dns1.dotted()
            + ")"@) + " dns2="@ + "None"@,
{
}

/// A worker tells first that it is connecting and which process it is, and last,
/// where it failed, what went wrong; only then does it exit with a failure.
pub proof fn law_first_and_last_words(server: Seq<char>, pid: u32, e: Seq<char>)
    ensures
        ({
            let first = first_actions(server, pid);
            &&& first.len() == 2
            &&& first[0] == ActionView::Log("worker starting, connecting to "@ + server + "..."@)
            &&& first[1] matches ActionView::WriteStatus(w)
            &&& w.state == Some(WorkerState::Connecting)
            &&& w.pid == Some(pid)
            &&& w.interface is None && w.message is None
        }),
        last_actions(None) == (Seq::<ActionView>::empty(), 0int),
        ({
            let (last, code) = last_actions(Some(e));
            &&& code == 1
            &&& last.len() == 2
            &&& last[0] == ActionView::Log("worker error: "@ + e)
            &&& last[1] matches ActionView::WriteStatus(w)
            &&& w.state == Some(WorkerState::Error)
            &&& w.message == Some(e)
            &&& w.pid is None && w.interface is None
        }),
{
}

} // verus!
