//! The default route: how it is read, when it counts as working, and how it is
//! brought back after a tunnel has gone.

use crate::elevate;
use crate::ipc;
use crate::ipc::{StatusView, VpnStatusFile};
use crate::text;
use vstd::prelude::*;

verus! {

/// How often bringing the route back is tried.
pub const MAX_ATTEMPTS: u32 = 4;

/// Seconds between two tries.
pub const RETRY_SECS: u64 = 2;

/// Where the gateway from before the tunnel is kept.
pub fn route_snapshot_path(home: Option<&str>) -> (s: String)
    ensures
        s@ == ipc::below(ipc::support_path(text::opt_str_view(home)), "pre-vpn-gateway.txt"@),
{
    let dir = ipc::support_dir(home);
    ipc::path_below(dir.as_str(), "pre-vpn-gateway.txt")
}

/// The value behind a key at the start of a line, white space aside.
pub open spec fn value_in(line: Seq<char>, key: Seq<char>) -> Option<Seq<char>> {
    let t = text::trimmed(line);
    if text::starts_with(t, key) {
        Some(text::trimmed(t.skip(key.len() as int)))
    } else {
        None
    }
}

/// The value in the first line that has the key.
pub open spec fn first_value(lines: Seq<Seq<char>>, key: Seq<char>) -> Option<Seq<char>>
    decreases lines.len(),
{
    if lines.len() == 0 {
        None
    } else {
        match value_in(lines[0], key) {
            Some(v) => Some(v),
            None => first_value(lines.drop_first(), key),
        }
    }
}

/// The gateway and the interface that a description of a route names.
pub open spec fn route_in(description: Seq<char>) -> Option<(Seq<char>, Seq<char>)> {
    let lines = text::lines(description);
    match (first_value(lines, "gateway: "@), first_value(lines, "interface: "@)) {
        (Some(g), Some(i)) => Some((g, i)),
        _ => None,
    }
}

fn find_value(lines: &Vec<Vec<char>>, key: &str) -> (r: Option<String>)
    ensures
        match r {
            Some(v) => first_value(text::texts_view(lines@), key@) == Some(v@),
            None => first_value(text::texts_view(lines@), key@) is None,
        },
{
    let ghost all = text::texts_view(lines@);
    let word = text::to_chars(key);
    let mut i: usize = 0;
    proof {
        assert(all.skip(0) =~= all);
    }
    while i < lines.len()
        invariant
            i <= lines@.len(),
            all == text::texts_view(lines@),
            word@ == key@,
            first_value(all, key@) == first_value(all.skip(i as int), key@),
        decreases lines@.len() - i,
    {
        proof {
            assert(all.skip(i as int)[0] == lines@[i as int]@);
            assert(all.skip(i as int).drop_first() =~= all.skip(i + 1));
        }
        let line = text::trim(lines[i].as_slice());
        if text::has_prefix(line, word.as_slice()) {
            let rest = &line[word.len()..line.len()];
            proof {
                assert(rest@ =~= line@.skip(key@.len() as int));
            }
            return Some(text::from_chars(text::trim(rest)));
        }
        i += 1;
    }
    None
}

/// The gateway and the interface that a description of a route names.
pub fn read_route(description: &str) -> (r: Option<(String, String)>)
    ensures
        match r {
            Some(x) => route_in(description@) == Some((x.0@, x.1@)),
            None => route_in(description@) is None,
        },
{
    let chars = text::to_chars(description);
    let lines = text::split_lines(chars.as_slice());
    let gateway = match find_value(&lines, "gateway: ") {
        Some(g) => g,
        None => return None,
    };
    let interface = match find_value(&lines, "interface: ") {
        Some(i) => i,
        None => return None,
    };
    Some((gateway, interface))
}

/// The default route, by what the `route` tool printed where it succeeded.
pub fn current_default_route(success: bool, stdout: &[u8]) -> (r: Option<(String, String)>)
    ensures
        match r {
            Some(x) => success && route_in(text::utf8_lossy(stdout@)) == Some((x.0@, x.1@)),
            None => !success || route_in(text::utf8_lossy(stdout@)) is None,
        },
{
    if !success {
        return None;
    }
    let description = text::lossy(stdout);
    read_route(description.as_str())
}

/// Whether an interface belongs to a live worker: its status names the
/// interface and a process that is alive.
pub open spec fn is_owned(iface: Seq<char>, status: Option<StatusView>, alive: bool) -> bool {
    match status {
        Some(s) => s.interface == Some(iface) && s.pid is Some && alive,
        None => false,
    }
}

/// Whether an interface belongs to a live worker. `alive` tells whether the
/// process in the status is alive.
pub fn owned_by_live_worker(iface: &str, status: &Option<VpnStatusFile>, alive: bool) -> (r: bool)
    ensures
        r == is_owned(iface@, ipc::status_view(*status), alive),
{
    match status {
        Some(s) => match &s.interface {
            Some(i) => text::same_text(i.as_str(), iface) && s.pid.is_some() && alive,
            None => false,
        },
        None => false,
    }
}

/// Whether an interface is a tunnel by its name.
pub open spec fn is_tunnel(iface: Seq<char>) -> bool {
    text::starts_with(iface, "utun"@)
}

/// Whether an interface is a tunnel by its name.
pub fn tunnel_name(iface: &str) -> (r: bool)
    ensures
        r == is_tunnel(iface@),
{
    let x = text::to_chars(iface);
    let y = text::to_chars("utun");
    text::has_prefix(x.as_slice(), y.as_slice())
}

/// Whether there is a working default route: there is one, it does not lead
/// into a tunnel without a live worker, and its interface exists.
pub open spec fn works(iface: Option<Seq<char>>, owned: bool, present: bool) -> bool {
    match iface {
        Some(i) => !(is_tunnel(i) && !owned) && present,
        None => false,
    }
}

/// Whether there is a working default route. `owned` tells whether its
/// interface belongs to a live worker, and `present` whether it exists.
pub fn has_default_route(iface: Option<&str>, owned: bool, present: bool) -> (r: bool)
    ensures
        r == works(text::opt_str_view(iface), owned, present),
{
    match iface {
        Some(i) => {
            if tunnel_name(i) && !owned {
                return false;
            }
            present
        },
        None => false,
    }
}

/// Whether the gateway of a route is worth keeping for later: it is, unless
/// the route leads into a tunnel of a live worker.
pub fn worth_saving(iface: &str, owned: bool) -> (r: bool)
    ensures
        r == !(is_tunnel(iface@) && owned),
{
    !(tunnel_name(iface) && owned)
}

/// The gateway in a kept file, where there is one.
pub open spec fn kept_gateway(content: Option<Seq<char>>) -> Option<Seq<char>> {
    match content {
        Some(c) => if text::trimmed(c).len() == 0 {
            None
        } else {
            Some(text::trimmed(c))
        },
        None => None,
    }
}

/// The gateway in a kept file, unless there is nothing in it.
pub fn load_route_snapshot(content: Option<&str>) -> (r: Option<String>)
    ensures
        match content {
            None => r is None,
            Some(c) => if text::trimmed(c@).len() == 0 {
                r is None
            } else {
                r matches Some(g) && g@ == text::trimmed(c@)
            },
        },
        text::opt_view(r) == kept_gateway(text::opt_str_view(content)),
{
    match content {
        Some(c) => {
            let chars = text::to_chars(c);
            let g = text::trim(chars.as_slice());
            if g.len() == 0 {
                return None;
            }
            Some(text::from_chars(g))
        },
        None => None,
    }
}

/// The commands that flush what the system has cached of names, after killing
/// a worker that is still alive.
pub open spec fn cleanup_text(live_pid: Option<u32>) -> Seq<char> {
    let flush =
        "dscacheutil -flushcache 2>/dev/null; killall -HUP mDNSResponder 2>/dev/null"@;
    match live_pid {
        Some(pid) => "kill -9 "@ + text::decimal(pid as nat) + " 2>/dev/null; "@ + flush,
        None => flush,
    }
}

/// The commands that flush what the system has cached of names, after killing
/// a worker that is still alive.
pub fn cleanup_fragment(live_pid: Option<u32>) -> (s: String)
    ensures
        s@ == cleanup_text(live_pid),
{
    let mut s = String::new();
    if let Some(pid) = live_pid {
        text::push_str(&mut s, "kill -9 ");
        text::push_decimal(&mut s, pid as u64);
        text::push_str(&mut s, " 2>/dev/null; ");
    }
    text::push_str(
        &mut s,
        "dscacheutil -flushcache 2>/dev/null; killall -HUP mDNSResponder 2>/dev/null",
    );
    proof {
        assert(s@ =~= cleanup_text(live_pid));
    }
    s
}

/// The commands that point the default route at a gateway.
pub open spec fn restore_text(gateway: Seq<char>) -> Seq<char> {
    "route -n add default "@ + elevate::shell_quoted(gateway)
        + " 2>/dev/null || route -n change default "@ + elevate::shell_quoted(gateway) + "; "@
}

/// A route in the form of a log.
pub open spec fn route_text(route: Option<(Seq<char>, Seq<char>)>) -> Seq<char> {
    match route {
        Some((g, i)) => "Some(("@ + text::debug_quoted(g) + ", "@ + text::debug_quoted(i) + "))"@,
        None => "None"@,
    }
}

/// The lines by which the state of the network is logged.
pub open spec fn diagnostics(
    context: Seq<char>,
    route: Option<(Seq<char>, Seq<char>)>,
    status: Option<StatusView>,
) -> Seq<char> {
    "[diagnostics: "@ + context + "]\ncurrent default route: "@ + route_text(route)
        + "\nrecorded vpn status: "@ + match status {
        Some(s) => "Some("@ + ipc::status_text(s) + ")"@,
        None => "None"@,
    }
}

/// The lines by which the state of the network is logged.
pub fn log_network_diagnostics(
    context: &str,
    route: &Option<(String, String)>,
    status: &Option<VpnStatusFile>,
) -> (s: String)
    ensures
        s@ == diagnostics(
            context@,
            match *route {
                Some(x) => Some((x.0@, x.1@)),
                None => None,
            },
            ipc::status_view(*status),
        ),
{
    let mut s = String::new();
    text::push_str(&mut s, "[diagnostics: ");
    text::push_str(&mut s, context);
    text::push_str(&mut s, "]\ncurrent default route: ");
    match route {
        Some(x) => {
            let g = text::quoted(x.0.as_str());
            let i = text::quoted(x.1.as_str());
            text::push_str(&mut s, "Some((");
            text::push_str(&mut s, g.as_str());
            text::push_str(&mut s, ", ");
            text::push_str(&mut s, i.as_str());
            text::push_str(&mut s, "))");
        },
        None => text::push_str(&mut s, "None"),
    }
    text::push_str(&mut s, "\nrecorded vpn status: ");
    match status {
        Some(x) => {
            text::push_str(&mut s, "Some(");
            let t = ipc::format_status(x);
            text::push_str(&mut s, t.as_str());
            text::push_str(&mut s, ")");
        },
        None => text::push_str(&mut s, "None"),
    }
    proof {
        assert(s@ =~= diagnostics(
            context@,
            match *route {
                Some(x) => Some((x.0@, x.1@)),
                None => None,
            },
            ipc::status_view(*status),
        ));
    }
    s
}

/// How a look at the default route is answered.
#[derive(Debug, Clone, Copy, PartialEq, Eq, Structural)]
pub enum HealStart {
    /// The route works: there is nothing to do.
    NotNeeded,
    /// The route is being brought back already.
    AlreadyHealing,
    /// Bring the route back.
    Begin,
}

/// Decides what to do about the default route.
pub fn heal_route_if_broken(route_ok: bool, already_healing: bool) -> (r: HealStart)
    ensures
        r == (if route_ok {
            HealStart::NotNeeded
        } else if already_healing {
            HealStart::AlreadyHealing
        } else {
            HealStart::Begin
        }),
{
    if route_ok {
        HealStart::NotNeeded
    } else if already_healing {
        HealStart::AlreadyHealing
    } else {
        HealStart::Begin
    }
}

/// What the user is told.
#[derive(Debug, Clone, Copy, PartialEq, Eq, Structural)]
pub enum Notice {
    Restored,
    RestoreFailed,
}

/// What is done to bring the route back, in order.
pub enum HealAction {
    Log(String),
    /// Log the state of the network.
    Diagnose(String),
    /// Run the command of this moment with administrator rights.
    Elevate,
    /// Look whether the route works, and go on with the answer.
    Recheck,
    /// Wait before the next try.
    Wait,
    Notify(Notice),
    /// Forget the kept gateway.
    ForgetSnapshot,
}

/// What an action is.
#[verifier::ext_equal]
pub enum HealActionView {
    Log(Seq<char>),
    Diagnose(Seq<char>),
    Elevate,
    Recheck,
    Wait,
    Notify(Notice),
    ForgetSnapshot,
}

impl View for HealAction {
    type V = HealActionView;

    open spec fn view(&self) -> HealActionView {
        match *self {
            HealAction::Log(s) => HealActionView::Log(s@),
            HealAction::Diagnose(s) => HealActionView::Diagnose(s@),
            HealAction::Elevate => HealActionView::Elevate,
            HealAction::Recheck => HealActionView::Recheck,
            HealAction::Wait => HealActionView::Wait,
            HealAction::Notify(n) => HealActionView::Notify(n),
            HealAction::ForgetSnapshot => HealActionView::ForgetSnapshot,
        }
    }
}

/// What a list of actions is.
pub open spec fn actions_view(v: Seq<HealAction>) -> Seq<HealActionView> {
    v.map_values(|a: HealAction| a@)
}

/// Bringing the route back.
pub struct Heal {
    gateway: Option<String>,
    attempt: u32,
    notify_on_recovery: bool,
}

/// The state of bringing the route back.
#[verifier::ext_equal]
pub struct HealView {
    /// The gateway to go back to, where one was kept.
    pub gateway: Option<Seq<char>>,
    /// The number of the present try.
    pub attempt: u32,
    /// Whether success is worth telling the user.
    pub notify_on_recovery: bool,
}

impl View for Heal {
    type V = HealView;

    closed spec fn view(&self) -> HealView {
        HealView {
            gateway: text::opt_view(self.gateway),
            attempt: self.attempt,
            notify_on_recovery: self.notify_on_recovery,
        }
    }
}

/// What is done first.
pub open spec fn opening(gateway: Option<Seq<char>>) -> Seq<HealActionView> {
    match gateway {
        None => seq![
            HealActionView::Log(
                "internet looks down and no pre-VPN gateway was saved to restore"@,
            ),
            HealActionView::Diagnose("heal: no snapshot available"@),
            HealActionView::Elevate,
        ],
        Some(g) => seq![
            HealActionView::Log(
                "default route missing after VPN teardown, restoring gateway "@ + g + "..."@,
            ),
            HealActionView::Elevate,
            HealActionView::Recheck,
        ],
    }
}

/// The command that is run with administrator rights.
pub open spec fn heal_command(gateway: Option<Seq<char>>, live_pid: Option<u32>) -> Seq<char> {
    match gateway {
        Some(g) => restore_text(g) + cleanup_text(live_pid),
        None => cleanup_text(live_pid),
    }
}

/// What is done after a try, and the state then.
pub open spec fn after_attempt(s: HealView, route_ok: bool) -> (HealView, Seq<HealActionView>) {
    if route_ok {
        let log = HealActionView::Log(
            "default route restored (attempt "@ + text::decimal(s.attempt as nat) + "/4)"@,
        );
        (
            s,
            if s.notify_on_recovery {
                seq![
                    log,
                    HealActionView::Notify(Notice::Restored),
                    HealActionView::ForgetSnapshot,
                ]
            } else {
                seq![log, HealActionView::ForgetSnapshot]
            },
        )
    } else if s.attempt < MAX_ATTEMPTS {
        (
            HealView { attempt: (s.attempt + 1) as u32, ..s },
            seq![HealActionView::Wait, HealActionView::Elevate, HealActionView::Recheck],
        )
    } else {
        (
            s,
            seq![
                HealActionView::Log(
                    "failed to restore default route automatically after retries, keeping snapshot for the next attempt"@,
                ),
                HealActionView::Diagnose("heal: restore failed after retries"@),
                HealActionView::Notify(Notice::RestoreFailed),
            ],
        )
    }
}

impl Heal {
    /// Starts bringing the route back, and what is done first.
    pub fn begin(snapshot: Option<String>, notify_on_recovery: bool) -> (r: (Heal, Vec<HealAction>))
        ensures
            r.0@ == (HealView { gateway: text::opt_view(snapshot), attempt: 1, notify_on_recovery }),
            actions_view(r.1@) == opening(text::opt_view(snapshot)),
    {
        let mut v: Vec<HealAction> = Vec::new();
        match &snapshot {
            None => {
                v.push(
                    HealAction::Log(
                        text::owned(
                            "internet looks down and no pre-VPN gateway was saved to restore",
                        ),
                    ),
                );
                v.push(HealAction::Diagnose(text::owned("heal: no snapshot available")));
                v.push(HealAction::Elevate);
            },
            Some(g) => {
                v.push(
                    HealAction::Log(
                        text::join3(
                            "default route missing after VPN teardown, restoring gateway ",
                            g.as_str(),
                            "...",
                        ),
                    ),
                );
                v.push(HealAction::Elevate);
                v.push(HealAction::Recheck);
            },
        }
        proof {
            assert(actions_view(v@) =~= opening(text::opt_view(snapshot)));
        }
        (Heal { gateway: snapshot, attempt: 1, notify_on_recovery }, v)
    }

    /// The command that is run with administrator rights.
    pub fn command(&self, live_pid: Option<u32>) -> (s: String)
        ensures
            s@ == heal_command(self@.gateway, live_pid),
    {
        let cleanup = cleanup_fragment(live_pid);
        match &self.gateway {
            Some(g) => {
                let q = elevate::shell_quote(g.as_str());
                let mut s = String::new();
                text::push_str(&mut s, "route -n add default ");
                text::push_str(&mut s, q.as_str());
                text::push_str(&mut s, " 2>/dev/null || route -n change default ");
                text::push_str(&mut s, q.as_str());
                text::push_str(&mut s, "; ");
                text::push_str(&mut s, cleanup.as_str());
                proof {
                    assert(s@ =~= restore_text(g@) + cleanup_text(live_pid));
                }
                s
            },
            None => cleanup,
        }
    }

    /// Takes in whether the route works after a try.
    pub fn on_recheck(&mut self, route_ok: bool) -> (v: Vec<HealAction>)
        ensures
            (final(self)@, actions_view(v@)) == after_attempt(old(self)@, route_ok),
    {
        let mut v: Vec<HealAction> = Vec::new();
        if route_ok {
            let mut s = String::new();
            text::push_str(&mut s, "default route restored (attempt ");
            text::push_decimal(&mut s, self.attempt as u64);
            text::push_str(&mut s, "/4)");
            proof {
                assert(s@ =~= "default route restored (attempt "@ + text::decimal(
                    self@.attempt as nat,
                ) + "/4)"@);
            }
            v.push(HealAction::Log(s));
            if self.notify_on_recovery {
                v.push(HealAction::Notify(Notice::Restored));
            }
            v.push(HealAction::ForgetSnapshot);
        } else if self.attempt < MAX_ATTEMPTS {
            self.attempt = self.attempt + 1;
            v.push(HealAction::Wait);
            v.push(HealAction::Elevate);
            v.push(HealAction::Recheck);
        } else {
            v.push(
                HealAction::Log(
                    text::owned(
                        "failed to restore default route automatically after retries, keeping snapshot for the next attempt",
                    ),
                ),
            );
            v.push(HealAction::Diagnose(text::owned("heal: restore failed after retries")));
            v.push(HealAction::Notify(Notice::RestoreFailed));
        }
        proof {
            assert(actions_view(v@) =~= after_attempt(old(self)@, route_ok).1);
        }
        v
    }
}

/// Whether the route is looked at only right after a try to bring it back.
pub open spec fn looks_follow_tries(actions: Seq<HealActionView>) -> bool {
    forall|i: int|
        0 <= i < actions.len() && (#[trigger] actions[i]) is Recheck ==> i > 0 && actions[i - 1]
            is Elevate
}

/// The kept gateway is forgotten only after a confirmed success: exactly when
/// the route is seen to work, and it is looked at only right after a try.
pub proof fn law_snapshot_outlives_failure(s: HealView, route_ok: bool)
    ensures
        after_attempt(s, route_ok).1.contains(HealActionView::ForgetSnapshot) <==> route_ok,
        !opening(s.gateway).contains(HealActionView::ForgetSnapshot),
        looks_follow_tries(opening(s.gateway)),
        looks_follow_tries(after_attempt(s, route_ok).1),
{
    let actions = after_attempt(s, route_ok).1;
    if route_ok {
        assert(actions.last() == HealActionView::ForgetSnapshot);
    }
}

/// The state after `n` tries that did not help.
pub open spec fn after_failures(s: HealView, n: nat) -> HealView
    decreases n,
{
    if n == 0 {
        s
    } else {
        after_attempt(after_failures(s, (n - 1) as nat), false).0
    }
}

/// The route is tried for four times, and then the failure is told.
pub proof fn law_four_tries_and_then_a_notice(s: HealView, n: nat)
    requires
        s.attempt == 1,
        n < MAX_ATTEMPTS,
    ensures
        after_failures(s, n) == (HealView { attempt: (n + 1) as u32, ..s }),
        after_attempt(after_failures(s, n), false).1.contains(HealActionView::Elevate) <==> n + 1
            < MAX_ATTEMPTS,
        after_attempt(after_failures(s, n), false).1.contains(
            HealActionView::Notify(Notice::RestoreFailed),
        ) <==> n + 1 == MAX_ATTEMPTS,
    decreases n,
{
    if n > 0 {
        law_four_tries_and_then_a_notice(s, (n - 1) as nat);
    }
    let actions = after_attempt(after_failures(s, n), false).1;
    if n + 1 < MAX_ATTEMPTS {
        assert(actions[1] == HealActionView::Elevate);
    } else {
        assert(actions[2] == HealActionView::Notify(Notice::RestoreFailed));
    }
}

/// Success is told exactly where it is worth telling; a failure of the last try
/// always is.
pub proof fn law_routine_teardown_is_silent(s: HealView)
    ensures
        after_attempt(s, true).1.contains(HealActionView::Notify(Notice::Restored))
            <==> s.notify_on_recovery,
        s.attempt >= MAX_ATTEMPTS ==> after_attempt(s, false).1.contains(
            HealActionView::Notify(Notice::RestoreFailed),
        ),
{
    if s.attempt >= MAX_ATTEMPTS {
        assert(after_attempt(s, false).1[2] == HealActionView::Notify(Notice::RestoreFailed));
    }
    if s.notify_on_recovery {
        assert(after_attempt(s, true).1[1] == HealActionView::Notify(Notice::Restored));
    }
}

/// The value behind a key is read whole, white space around the line and around
/// the value aside; a line that does not start with the key has none.
pub proof fn law_values_are_read(
    before: Seq<char>,
    key: Seq<char>,
    gap: Seq<char>,
    value: Seq<char>,
    behind: Seq<char>,
    line: Seq<char>,
)
    requires
        text::all_white(before),
        text::all_white(gap),
        text::all_white(behind),
        key.len() > 0,
        !text::is_white(key[0]),
        value.len() > 0,
        !text::is_white(value[0]),
        !text::is_white(value.last()),
    ensures
        value_in(before + key + gap + value + behind, key) == Some(value),
        value_in(line, key) is Some <==> text::trimmed(line).len() >= key.len() && text::trimmed(
            line,
        ).take(key.len() as int) == key,
{
    let core = key + gap + value;
    assert(before + key + gap + value + behind =~= before + core + behind);
    assert(core[0] == key[0] && core.last() == value.last());
    text::law_trimming_is_exact(before, core, behind);
    let rest = core.skip(key.len() as int);
    assert(core.subrange(0, key.len() as int) =~= key);
    assert(rest =~= gap + value + Seq::<char>::empty());
    text::law_trimming_is_exact(gap, value, Seq::empty());
    let t = text::trimmed(line);
    if t.len() >= key.len() {
        assert(t.subrange(0, key.len() as int) =~= t.take(key.len() as int));
    }
}

/// Of several lines with a key, the first counts.
pub proof fn law_first_line_with_the_key_counts(lines: Seq<Seq<char>>, key: Seq<char>, i: int)
    requires
        0 <= i < lines.len(),
        value_in(lines[i], key) is Some,
        forall|j: int| 0 <= j < i ==> value_in(#[trigger] lines[j], key) is None,
    ensures
        first_value(lines, key) == value_in(lines[i], key),
    decreases i,
{
    if i > 0 {
        let rest = lines.drop_first();
        assert(rest[i - 1] == lines[i]);
        assert(value_in(lines[0], key) is None);
        assert forall|j: int| 0 <= j < i - 1 implies value_in(#[trigger] rest[j], key) is None by {
            assert(rest[j] == lines[j + 1]);
        }
        law_first_line_with_the_key_counts(rest, key, i - 1);
    }
}

/// A description gives the gateway of its first line that starts with
/// `gateway: ` and the interface of its first line that starts with
/// `interface: `, and nothing where either is missing.
pub proof fn law_routes_are_read(description: Seq<char>, i: int, j: int)
    ensures
        ({
            let lines = text::lines(description);
            let g = "gateway: "@;
            let f = "interface: "@;
            &&& 0 <= i < lines.len() && 0 <= j < lines.len() && value_in(lines[i], g) is Some
                && value_in(lines[j], f) is Some && (forall|k: int|
                0 <= k < i ==> value_in(#[trigger] lines[k], g) is None) && (forall|k: int|
                0 <= k < j ==> value_in(#[trigger] lines[k], f) is None) ==> route_in(description)
                == Some((value_in(lines[i], g)->0, value_in(lines[j], f)->0))
            &&& (forall|k: int| 0 <= k < lines.len() ==> value_in(#[trigger] lines[k], g) is None)
                || (forall|k: int| 0 <= k < lines.len() ==> value_in(#[trigger] lines[k], f) is None)
                ==> route_in(description) is None
        }),
{
    let lines = text::lines(description);
    let g = "gateway: "@;
    let f = "interface: "@;
    if 0 <= i < lines.len() && value_in(lines[i], g) is Some && (forall|k: int|
        0 <= k < i ==> value_in(#[trigger] lines[k], g) is None) {
        law_first_line_with_the_key_counts(lines, g, i);
    }
    if 0 <= j < lines.len() && value_in(lines[j], f) is Some && (forall|k: int|
        0 <= k < j ==> value_in(#[trigger] lines[k], f) is None) {
        law_first_line_with_the_key_counts(lines, f, j);
    }
    if forall|k: int| 0 <= k < lines.len() ==> value_in(#[trigger] lines[k], g) is None {
        lemma_no_value(lines, g);
    }
    if forall|k: int| 0 <= k < lines.len() ==> value_in(#[trigger] lines[k], f) is None {
        lemma_no_value(lines, f);
    }
}

proof fn lemma_no_value(lines: Seq<Seq<char>>, key: Seq<char>)
    requires
        forall|k: int| 0 <= k < lines.len() ==> value_in(#[trigger] lines[k], key) is None,
    ensures
        first_value(lines, key) is None,
    decreases lines.len(),
{
    if lines.len() > 0 {
        let rest = lines.drop_first();
        assert(value_in(lines[0], key) is None);
        assert forall|k: int| 0 <= k < rest.len() implies value_in(#[trigger] rest[k], key)
            is None by {
            assert(rest[k] == lines[k + 1]);
        }
        lemma_no_value(rest, key);
    }
}

/// A default route works exactly where there is one, its interface exists, and
/// it is no `utun` interface without a live worker behind it.
pub proof fn law_stale_tunnels_do_not_work(iface: Seq<char>, owned: bool, present: bool)
    ensures
        !works(None, owned, present),
        works(Some(iface), owned, present) <==> present && (owned || iface.len() < 4 || iface[0]
            != 'u' || iface[1] != 't' || iface[2] != 'u' || iface[3] != 'n'),
{
    reveal_strlit("utun");
    if iface.len() >= 4 {
        let p = iface.subrange(0, 4);
        if iface[0] == 'u' && iface[1] == 't' && iface[2] == 'u' && iface[3] == 'n' {
            assert(p =~= "utun"@);
        }
        if text::starts_with(iface, "utun"@) {
            assert(p[0] == "utun"@[0] && p[1] == "utun"@[1] && p[2] == "utun"@[2] && p[3]
                == "utun"@[3]);
        }
    }
}

/// An interface belongs to a worker only where the worker's own status names
/// that interface and a process, and that process is alive.
pub proof fn law_only_a_live_worker_owns(iface: Seq<char>, status: StatusView, alive: bool)
    ensures
        !is_owned(iface, None, alive),
        !is_owned(iface, Some(status), false),
        is_owned(iface, Some(status), true) <==> status.pid is Some && status.interface is Some
            && status.interface->0 == iface,
{
}

/// The command that brings a route back hands the shell a word that it reads as
/// the very gateway, to add the route and, failing that, to change it. What it
/// does besides is what is done without a gateway: flush the caches, after
/// killing a worker that is still alive.
pub proof fn law_heal_command_restores_the_gateway(
    gateway: Seq<char>,
    pid: u32,
    live_pid: Option<u32>,
)
    ensures
        exists|word: Seq<char>|
            #[trigger] elevate::shell_reads(word, false) == Some(gateway) && heal_command(
                Some(gateway),
                live_pid,
            ) == "route -n add default "@ + word + " 2>/dev/null || route -n change default "@
                + word + "; "@ + heal_command(None, live_pid),
        heal_command(None, Some(pid)) == "kill -9 "@ + text::decimal(pid as nat)
            + " 2>/dev/null; "@ + heal_command(None, None),
        heal_command(None, None)
            == "dscacheutil -flushcache 2>/dev/null; killall -HUP mDNSResponder 2>/dev/null"@,
{
    elevate::law_shell_reads_what_was_quoted(gateway);
    let word = elevate::shell_quoted(gateway);
    assert(heal_command(Some(gateway), live_pid) =~= "route -n add default "@ + word
        + " 2>/dev/null || route -n change default "@ + word + "; "@ + heal_command(
        None,
        live_pid,
    ));
}

/// What is done, in order. With a kept gateway the route is tried for and looked
/// at; without one the caches are flushed and nothing is looked at. A try that
/// did not help is followed by a wait and the next, up to the fourth.
pub proof fn law_healing_goes_try_by_try(s: HealView, gateway: Seq<char>)
    ensures
        opening(Some(gateway)).len() == 3,
        opening(Some(gateway))[0] is Log,
        opening(Some(gateway))[1] is Elevate,
        opening(Some(gateway))[2] is Recheck,
        opening(None).len() == 3,
        opening(None)[0] is Log,
        opening(None)[1] is Diagnose,
        opening(None)[2] is Elevate,
        s.attempt < 4 ==> after_attempt(s, false) == (
            HealView { attempt: (s.attempt + 1) as u32, ..s },
            seq![HealActionView::Wait, HealActionView::Elevate, HealActionView::Recheck],
        ),
        s.attempt >= 4 ==> ({
            let (t, actions) = after_attempt(s, false);
            &&& t == s
            &&& actions.len() == 3
            &&& actions[0] is Log
            &&& actions[1] is Diagnose
            &&& actions[2] == HealActionView::Notify(Notice::RestoreFailed)
        }),
        ({
            let (t, actions) = after_attempt(s, true);
            &&& t == s
            &&& actions[0] == HealActionView::Log(
                "default route restored (attempt "@ + text::decimal(s.attempt as nat) + "/4)"@,
            )
            &&& actions.last() is ForgetSnapshot
            &&& s.notify_on_recovery ==> actions.len() == 3 && actions[1]
                == HealActionView::Notify(Notice::Restored)
            &&& !s.notify_on_recovery ==> actions.len() == 2
        }),
        RETRY_SECS == 2,
{
}

/// A kept gateway is read back whole without the white space around it, and
/// white space alone is none.
pub proof fn law_kept_gateways_are_read(
    before: Seq<char>,
    gateway: Seq<char>,
    behind: Seq<char>,
)
    requires
        text::all_white(before),
        text::all_white(behind),
        gateway.len() > 0,
        !text::is_white(gateway[0]),
        !text::is_white(gateway.last()),
    ensures
        kept_gateway(Some(before + gateway + behind)) == Some(gateway),
        kept_gateway(Some(before)) is None,
        kept_gateway(None) is None,
{
    text::law_trimming_is_exact(before, gateway, behind);
}

} // verus!
