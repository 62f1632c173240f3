//! What the user interface decides: how the status follows the worker, what
//! the tray and the main screen show, and what a click does.

use crate::elevate;
use crate::ipc;
use crate::ipc::{StatusView, VpnStatusFile, WorkerState};
use crate::text;
use vstd::prelude::*;

verus! {

/// Nanoseconds between two looks at the worker.
pub const POLL_NANOS: u128 = 3_000_000_000;

/// Nanoseconds between two tries to bring the default route back.
pub const HEAL_NANOS: u128 = 30_000_000_000;

/// Milliseconds between two looks for a confirmed disconnect.
pub const CONFIRM_POLL_MS: u64 = 300;

/// How many lines of the log are shown.
pub const LOG_LINES: usize = 200;

/// The state of the tunnel as it is shown.
#[derive(Debug, Clone, Copy, PartialEq, Eq, Structural)]
pub enum VpnStatus {
    Disconnected,
    Connecting,
    Connected,
}

/// Whether the worker has a tunnel: it says so, and its process is alive.
pub open spec fn worker_up(worker: Option<StatusView>, alive: bool) -> bool {
    match worker {
        Some(s) => s.state == Some(WorkerState::Connected) && s.pid is Some && alive,
        None => false,
    }
}

/// Whether the worker has stopped trying: it says so, its process is gone, or
/// there is no word of it.
pub open spec fn worker_gave_up(worker: Option<StatusView>, alive: bool) -> bool {
    match worker {
        Some(s) => s.state == Some(WorkerState::Error) || s.state == Some(WorkerState::Disconnected)
            || !(s.pid is Some && alive),
        None => true,
    }
}

/// What becomes of the interface on display.
#[derive(Debug)]
pub enum InterfaceChange {
    Keep,
    Clear,
    Show(Option<String>),
}

/// What becomes of the interface on display.
#[verifier::ext_equal]
pub enum InterfaceChangeView {
    Keep,
    Clear,
    Show(Option<Seq<char>>),
}

impl View for InterfaceChange {
    type V = InterfaceChangeView;

    open spec fn view(&self) -> InterfaceChangeView {
        match *self {
            InterfaceChange::Keep => InterfaceChangeView::Keep,
            InterfaceChange::Clear => InterfaceChangeView::Clear,
            InterfaceChange::Show(s) => InterfaceChangeView::Show(text::opt_view(s)),
        }
    }
}

/// What a look at the worker changes: the status, the interface on display,
/// and whether the default route may have been lost.
pub open spec fn followed(status: VpnStatus, worker: Option<StatusView>, alive: bool) -> (
    VpnStatus,
    InterfaceChangeView,
    bool,
) {
    if worker_up(worker, alive) {
        if status == VpnStatus::Connected {
            (status, InterfaceChangeView::Keep, false)
        } else {
            (VpnStatus::Connected, InterfaceChangeView::Show(worker->Some_0.interface), false)
        }
    } else if status == VpnStatus::Connected {
        (VpnStatus::Disconnected, InterfaceChangeView::Clear, true)
    } else if status == VpnStatus::Connecting && worker_gave_up(worker, alive) {
        (VpnStatus::Disconnected, InterfaceChangeView::Keep, false)
    } else {
        (status, InterfaceChangeView::Keep, false)
    }
}

/// Takes in what the worker says of itself. `alive` tells whether the process
/// it names is alive.
pub fn follow_worker(status: VpnStatus, worker: &Option<VpnStatusFile>, alive: bool) -> (r: (
    VpnStatus,
    InterfaceChange,
    bool,
))
    ensures
        (r.0, r.1@, r.2) == followed(status, ipc::status_view(*worker), alive),
{
    let up = match worker {
        Some(s) => match s.state {
            Some(WorkerState::Connected) => s.pid.is_some() && alive,
            _ => false,
        },
        None => false,
    };
    let gave_up = match worker {
        Some(s) => match s.state {
            Some(WorkerState::Error) => true,
            Some(WorkerState::Disconnected) => true,
            _ => !(s.pid.is_some() && alive),
        },
        None => true,
    };
    match (status, up) {
        (VpnStatus::Connected, false) => (VpnStatus::Disconnected, InterfaceChange::Clear, true),
        (VpnStatus::Connecting, true) | (VpnStatus::Disconnected, true) => {
            let shown = match worker {
                Some(s) => match &s.interface {
                    Some(i) => Some(text::owned(i.as_str())),
                    None => None,
                },
                None => None,
            };
            (VpnStatus::Connected, InterfaceChange::Show(shown), false)
        },
        (VpnStatus::Connecting, false) => {
            if gave_up {
                (VpnStatus::Disconnected, InterfaceChange::Keep, false)
            } else {
                (status, InterfaceChange::Keep, false)
            }
        },
        _ => (status, InterfaceChange::Keep, false),
    }
}

/// Whether it is time for another look at the worker.
pub fn poll_due(nanos_since_last: u128) -> (r: bool)
    ensures
        r == (nanos_since_last > POLL_NANOS),
{
    nanos_since_last > POLL_NANOS
}

/// Whether the default route is to be brought back.
pub open spec fn wants_healing(
    just_lost: bool,
    status: VpnStatus,
    route_ok: bool,
    nanos_since_last: Option<u128>,
) -> bool {
    just_lost || (status == VpnStatus::Disconnected && !route_ok && (nanos_since_last matches Some(
        n,
    ) ==> n > HEAL_NANOS))
}

/// Whether the default route is to be brought back: it may just have been
/// lost, or there is no tunnel, it does not work, and the last try, if any,
/// lies long enough back.
pub fn heal_due(
    just_lost: bool,
    status: VpnStatus,
    route_ok: bool,
    nanos_since_last: Option<u128>,
) -> (r: bool)
    ensures
        r == (just_lost || (status == VpnStatus::Disconnected && !route_ok && (nanos_since_last
            matches Some(n) ==> n > HEAL_NANOS))),
        r == wants_healing(just_lost, status, route_ok, nanos_since_last),
{
    if just_lost {
        return true;
    }
    if status != VpnStatus::Disconnected || route_ok {
        return false;
    }
    match nanos_since_last {
        Some(n) => n > HEAL_NANOS,
        None => true,
    }
}

/// What becomes of the clock that shows how long a tunnel has been up.
#[derive(Debug, Clone, Copy, PartialEq, Eq, Structural)]
pub enum ClockChange {
    Start,
    Keep,
    Stop,
}

/// What becomes of the clock.
pub open spec fn clock_then(status: VpnStatus, running: bool) -> ClockChange {
    if status != VpnStatus::Connected {
        ClockChange::Stop
    } else if running {
        ClockChange::Keep
    } else {
        ClockChange::Start
    }
}

/// The clock runs exactly while there is a tunnel.
pub fn clock_change(status: VpnStatus, running: bool) -> (r: ClockChange)
    ensures
        r == (if status != VpnStatus::Connected {
            ClockChange::Stop
        } else if running {
            ClockChange::Keep
        } else {
            ClockChange::Start
        }),
        r == clock_then(status, running),
{
    match status {
        VpnStatus::Connected => {
            if running {
                ClockChange::Keep
            } else {
                ClockChange::Start
            }
        },
        _ => ClockChange::Stop,
    }
}

/// What the tray shows.
#[derive(Debug, Clone, Copy, PartialEq, Eq)]
pub struct TrayFace {
    pub label: &'static str,
    /// Red, green, blue and opacity of the icon.
    pub rgba: [u8; 4],
    pub can_connect: bool,
    pub can_disconnect: bool,
}

/// The label of the tray.
pub open spec fn tray_label(status: VpnStatus) -> &'static str {
    match status {
        VpnStatus::Disconnected => "\u{25CF} Disconnected",
        VpnStatus::Connecting => "\u{25CF} Connecting…",
        VpnStatus::Connected => "\u{25CF} Connected",
    }
}

/// The colour of the tray.
pub open spec fn tray_colour(status: VpnStatus) -> Seq<u8> {
    match status {
        VpnStatus::Disconnected => seq![140u8, 140u8, 140u8, 255u8],
        VpnStatus::Connecting => seq![230u8, 180u8, 40u8, 255u8],
        VpnStatus::Connected => seq![40u8, 190u8, 90u8, 255u8],
    }
}

/// What the tray shows. Nothing can be clicked while something is under way.
pub fn tray_face(status: VpnStatus, busy: bool) -> (f: TrayFace)
    ensures
        f.label == tray_label(status),
        f.rgba@ == tray_colour(status),
        f.can_connect == (!busy && status == VpnStatus::Disconnected),
        f.can_disconnect == (!busy && status != VpnStatus::Disconnected),
{
    let (label, rgba): (&'static str, [u8; 4]) = match status {
        VpnStatus::Disconnected => ("\u{25CF} Disconnected", [140, 140, 140, 255]),
        VpnStatus::Connecting => ("\u{25CF} Connecting…", [230, 180, 40, 255]),
        VpnStatus::Connected => ("\u{25CF} Connected", [40, 190, 90, 255]),
    };
    proof {
        assert(rgba@ =~= tray_colour(status));
    }
    TrayFace {
        label,
        rgba,
        can_connect: !busy && status == VpnStatus::Disconnected,
        can_disconnect: !busy && status != VpnStatus::Disconnected,
    }
}

/// What a click on the power button does.
#[derive(Debug, Clone, Copy, PartialEq, Eq, Structural)]
pub enum Click {
    Connect,
    Disconnect,
}

/// What a click on the power button does.
pub fn power_click(status: VpnStatus) -> (c: Click)
    ensures
        c == (if status == VpnStatus::Disconnected {
            Click::Connect
        } else {
            Click::Disconnect
        }),
{
    match status {
        VpnStatus::Disconnected => Click::Connect,
        VpnStatus::Connecting | VpnStatus::Connected => Click::Disconnect,
    }
}

/// The word for the status on the main screen.
pub open spec fn status_word(status: VpnStatus) -> &'static str {
    match status {
        VpnStatus::Disconnected => "Не подключено",
        VpnStatus::Connecting => "Подключение…",
        VpnStatus::Connected => "Подключено",
    }
}

/// What the power button says when pointed at.
pub open spec fn power_hint(status: VpnStatus) -> &'static str {
    match status {
        VpnStatus::Disconnected => "Подключиться",
        VpnStatus::Connecting => "Отменить",
        VpnStatus::Connected => "Отключиться",
    }
}

/// The word for the status on the main screen, and what the power button says
/// when pointed at.
pub fn screen_words(status: VpnStatus) -> (r: (&'static str, &'static str))
    ensures
        r.0 == status_word(status),
        r.1 == power_hint(status),
{
    match status {
        VpnStatus::Disconnected => ("Не подключено", "Подключиться"),
        VpnStatus::Connecting => ("Подключение…", "Отменить"),
        VpnStatus::Connected => ("Подключено", "Отключиться"),
    }
}

/// A number in at least two decimal digits.
pub open spec fn two_digits(n: nat) -> Seq<char> {
    if n < 10 {
        "0"@ + text::decimal(n)
    } else {
        text::decimal(n)
    }
}

fn push_two_digits(out: &mut String, n: u64)
    ensures
        final(out)@ == old(out)@ + two_digits(n as nat),
{
    if n < 10 {
        text::push_str(out, "0");
    }
    text::push_decimal(out, n);
    proof {
        assert(out@ =~= old(out)@ + two_digits(n as nat));
    }
}

/// A duration as minutes and seconds, with hours before them where there are
/// any.
pub open spec fn clock_text(secs: nat) -> Seq<char> {
    let tail = two_digits((secs % 3600) / 60) + ":"@ + two_digits(secs % 60);
    if secs >= 3600 {
        two_digits(secs / 3600) + ":"@ + tail
    } else {
        tail
    }
}

/// A duration as minutes and seconds, with hours before them where there are
/// any.
pub fn format_duration(secs: u64) -> (s: String)
    ensures
        s@ == clock_text(secs as nat),
{
    let h: u64 = secs / 3600;
    let m: u64 = (secs % 3600) / 60;
    let r: u64 = secs % 60;
    let mut s = String::new();
    if h > 0 {
        push_two_digits(&mut s, h);
        text::push_str(&mut s, ":");
    }
    push_two_digits(&mut s, m);
    text::push_str(&mut s, ":");
    push_two_digits(&mut s, r);
    proof {
        assert(s@ =~= clock_text(secs as nat));
    }
    s
}

/// The line below the status: how long the tunnel has been up and on which
/// interface, or else the name of the selected profile.
pub open spec fn subtitle_text(
    status: VpnStatus,
    secs: nat,
    interface: Option<Seq<char>>,
    profile: Seq<char>,
) -> Seq<char> {
    if status == VpnStatus::Connected {
        match interface {
            Some(i) => clock_text(secs) + " · "@ + i,
            None => clock_text(secs),
        }
    } else {
        profile
    }
}

/// The line below the status.
pub fn subtitle(status: VpnStatus, secs: u64, interface: Option<&str>, profile: &str) -> (s: String)
    ensures
        s@ == subtitle_text(status, secs as nat, text::opt_str_view(interface), profile@),
{
    match status {
        VpnStatus::Connected => {
            let clock = format_duration(secs);
            match interface {
                Some(i) => text::join3(clock.as_str(), " · ", i),
                None => clock,
            }
        },
        _ => text::owned(profile),
    }
}

/// Whether all that a connection needs has been filled in.
pub fn can_start(server: &str, username: &str, password: &str) -> (r: bool)
    ensures
        r == (server@.len() > 0 && username@.len() > 0 && password@.len() > 0),
{
    !server.is_empty() && !username.is_empty() && !password.is_empty()
}

/// The command that starts the worker.
pub open spec fn worker_command_text(
    exe: Seq<char>,
    server: Seq<char>,
    username: Seq<char>,
) -> Seq<char> {
    elevate::shell_quoted(exe) + " --vpn-worker "@ + elevate::shell_quoted(server) + " "@
        + elevate::shell_quoted(username)
}

/// The command that starts the worker.
pub fn worker_command(exe: &str, server: &str, username: &str) -> (s: String)
    ensures
        s@ == worker_command_text(exe@, server@, username@),
{
    let mut s = elevate::shell_quote(exe);
    let host = elevate::shell_quote(server);
    let user = elevate::shell_quote(username);
    text::push_str(&mut s, " --vpn-worker ");
    text::push_str(&mut s, host.as_str());
    text::push_str(&mut s, " ");
    text::push_str(&mut s, user.as_str());
    s
}

/// What is logged when the command that ran the worker has ended.
pub fn session_end_line(outcome: &Result<String, String>) -> (r: Option<String>)
    ensures
        match *outcome {
            Ok(out) => if text::trimmed(out@).len() == 0 {
                r is None
            } else {
                r matches Some(s) && s@ == text::trimmed(out@)
            },
            Err(e) => r matches Some(s) && s@ == "worker session ended: "@ + e@,
        },
{
    match outcome {
        Ok(out) => {
            let chars = text::to_chars(out.as_str());
            let t = text::trim(chars.as_slice());
            if t.len() == 0 {
                return None;
            }
            Some(text::from_chars(t))
        },
        Err(e) => Some(text::join2("worker session ended: ", e.as_str())),
    }
}

/// Whether the worker has confirmed a disconnect: it says that it is over, or
/// says nothing at all.
pub fn disconnect_confirmed(state: Option<WorkerState>) -> (r: bool)
    ensures
        r == (state is None || state == Some(WorkerState::Disconnected) || state == Some(
            WorkerState::Error,
        )),
{
    match state {
        Some(WorkerState::Disconnected) => true,
        Some(WorkerState::Error) => true,
        None => true,
        _ => false,
    }
}

/// The command that kills a worker, where there is one to kill.
pub open spec fn kill_text(pid: Option<u32>, alive: bool) -> Option<Seq<char>> {
    match pid {
        Some(p) if alive => Some("kill -9 "@ + text::decimal(p as nat)),
        _ => None,
    }
}

/// The command that kills a worker that has not confirmed, where its process
/// is known and alive.
pub fn kill_command(pid: Option<u32>, alive: bool) -> (r: Option<String>)
    ensures
        match pid {
            Some(p) if alive => r matches Some(s) && s@ == "kill -9 "@ + text::decimal(p as nat),
            _ => r is None,
        },
        text::opt_view(r) == kill_text(pid, alive),
{
    match pid {
        Some(p) => {
            if !alive {
                return None;
            }
            let mut s = text::owned("kill -9 ");
            text::push_decimal(&mut s, p as u64);
            Some(s)
        },
        None => None,
    }
}

/// What is to be done with a password when the settings are saved.
#[derive(Debug, Clone, Copy, PartialEq, Eq, Structural)]
pub enum PasswordChoice {
    Store,
    Delete,
    Leave,
}

/// What is to be done with a password when the settings are saved.
pub fn password_choice(keep: bool, password: &str) -> (r: PasswordChoice)
    ensures
        r == (if !keep {
            PasswordChoice::Delete
        } else if password@.len() > 0 {
            PasswordChoice::Store
        } else {
            PasswordChoice::Leave
        }),
{
    if keep && !password.is_empty() {
        PasswordChoice::Store
    } else if !keep {
        PasswordChoice::Delete
    } else {
        PasswordChoice::Leave
    }
}

/// How the program was called.
#[derive(Debug)]
pub enum Mode {
    /// With its window.
    Window,
    /// As the worker for a server and a user.
    Worker { server: String, username: String },
    /// As the worker, without saying for what.
    BadUsage,
}

/// How a mode reads.
#[verifier::ext_equal]
pub enum ModeView {
    Window,
    Worker { server: Seq<char>, username: Seq<char> },
    BadUsage,
}

impl View for Mode {
    type V = ModeView;

    open spec fn view(&self) -> ModeView {
        match *self {
            Mode::Window => ModeView::Window,
            Mode::Worker { server, username } => ModeView::Worker {
                server: server@,
                username: username@,
            },
            Mode::BadUsage => ModeView::BadUsage,
        }
    }
}

/// The mode that some arguments ask for.
pub open spec fn called_as(args: Seq<Seq<char>>) -> ModeView {
    if args.len() < 2 || args[1] != "--vpn-worker"@ {
        ModeView::Window
    } else if args.len() < 4 {
        ModeView::BadUsage
    } else {
        ModeView::Worker { server: args[2], username: args[3] }
    }
}

/// How the program was called, by its arguments with its own name first.
pub fn mode_of(args: &Vec<String>) -> (m: Mode)
    ensures
        ({
            let a = text::strs_view(args@);
            if a.len() < 2 || a[1] != "--vpn-worker"@ {
                m is Window
            } else if a.len() < 4 {
                m is BadUsage
            } else {
                m matches Mode::Worker { server, username } && server@ == a[2] && username@ == a[3]
            }
        }),
        m@ == called_as(text::strs_view(args@)),
{
    proof {
        assert(forall|i: int|
            0 <= i < args@.len() ==> (#[trigger] text::strs_view(args@)[i]) == args@[i]@);
    }
    if args.len() < 2 || !text::same_text(args[1].as_str(), "--vpn-worker") {
        return Mode::Window;
    }
    if args.len() < 4 {
        return Mode::BadUsage;
    }
    Mode::Worker {
        server: text::owned(args[2].as_str()),
        username: text::owned(args[3].as_str()),
    }
}

/// The status is never stuck: a worker that has stopped trying ends every
/// attempt, and one with a tunnel is always seen.
pub proof fn law_status_follows_the_worker(
    status: VpnStatus,
    worker: Option<StatusView>,
    alive: bool,
)
    ensures
        worker_up(worker, alive) ==> followed(status, worker, alive).0 == VpnStatus::Connected,
        worker_gave_up(worker, alive) ==> followed(status, worker, alive).0
            == VpnStatus::Disconnected,
        followed(status, worker, alive).0 == VpnStatus::Connected <==> worker_up(worker, alive),
{
}

/// A worker with a tunnel has not stopped trying.
pub proof fn law_up_excludes_giving_up(worker: Option<StatusView>, alive: bool)
    ensures
        !(worker_up(worker, alive) && worker_gave_up(worker, alive)),
{
}

/// The default route is looked after exactly when a tunnel that was up has
/// gone: an attempt that failed has touched no route.
pub proof fn law_heal_only_after_a_lost_tunnel(
    status: VpnStatus,
    worker: Option<StatusView>,
    alive: bool,
)
    ensures
        followed(status, worker, alive).2 <==> status == VpnStatus::Connected && !worker_up(
            worker,
            alive,
        ),
{
}

/// What the shown status becomes, case by case: connected exactly where the
/// worker says so, names its process, and that is alive; a tunnel that is gone
/// is seen as such; an attempt lasts until the worker says that it is over or
/// is no longer there.
pub proof fn law_what_the_worker_says_is_shown(
    status: VpnStatus,
    s: StatusView,
    alive: bool,
)
    ensures
        ({
            let up = s.state == Some(WorkerState::Connected) && s.pid is Some && alive;
            let over = s.state == Some(WorkerState::Error) || s.state == Some(
                WorkerState::Disconnected,
            ) || s.pid is None || !alive;
            let (t, change, lost) = followed(status, Some(s), alive);
            &&& up && status == VpnStatus::Connected ==> t == VpnStatus::Connected && change is Keep
            &&& up && status != VpnStatus::Connected ==> t == VpnStatus::Connected && change
                == InterfaceChangeView::Show(s.interface)
            &&& !up && status == VpnStatus::Connected ==> t == VpnStatus::Disconnected && change
                is Clear
            &&& !up && over && status == VpnStatus::Connecting ==> t == VpnStatus::Disconnected
                && change is Keep
            &&& !up && !over && status == VpnStatus::Connecting ==> t == VpnStatus::Connecting
                && change is Keep
            &&& !up && status == VpnStatus::Disconnected ==> t == VpnStatus::Disconnected && change
                is Keep
            &&& lost <==> status == VpnStatus::Connected && !up
        }),
        followed(status, None, alive) == (
            VpnStatus::Disconnected,
            if status == VpnStatus::Connected {
                InterfaceChangeView::Clear
            } else {
                InterfaceChangeView::Keep
            },
            status == VpnStatus::Connected,
        ),
{
}

/// Two digits, whatever the number below a hundred, with a leading zero below
/// ten.
pub proof fn law_two_digits_are_positional(n: nat)
    requires
        n < 100,
    ensures
        two_digits(n).len() == 2,
        two_digits(n)[0] as int == 48 + n / 10,
        two_digits(n)[1] as int == 48 + n % 10,
{
    reveal_strlit("0");
    text::law_decimal_is_positional(n);
    if n >= 10 {
        text::law_decimal_is_positional(n / 10);
        assert(text::decimal(n)[0] == text::decimal(n).drop_last()[0]);
        assert(text::decimal(n).drop_last()[0] == text::decimal(n / 10).last());
    }
}

/// Minutes and seconds are shown below an hour, and hours before them from then
/// on.
pub proof fn law_clock_shows_the_time(h: nat, m: nat, s: nat)
    requires
        m < 60,
        s < 60,
    ensures
        h == 0 ==> clock_text(60 * m + s) == two_digits(m).push(':') + two_digits(s),
        h > 0 ==> clock_text(3600 * h + 60 * m + s) == two_digits(h).push(':') + two_digits(m).push(
            ':',
        ) + two_digits(s),
{
    reveal_strlit(":");
    if h == 0 {
        let secs = 60 * m + s;
        assert((secs % 3600) / 60 == m && secs % 60 == s);
        assert(clock_text(secs) =~= two_digits(m).push(':') + two_digits(s));
    } else {
        let secs = 3600 * h + 60 * m + s;
        assert(secs / 3600 == h && (secs % 3600) / 60 == m && secs % 60 == s);
        assert(clock_text(secs) =~= two_digits(h).push(':') + two_digits(m).push(':') + two_digits(
            s,
        ));
    }
}

/// Below the status stands the clock while there is a tunnel, with the
/// interface where it is known, and else the name of the profile.
pub proof fn law_subtitle_shows_clock_or_profile(
    secs: nat,
    interface: Seq<char>,
    profile: Seq<char>,
)
    ensures
        subtitle_text(VpnStatus::Connected, secs, Some(interface), profile) == clock_text(secs)
            + " · "@ + interface,
        subtitle_text(VpnStatus::Connected, secs, None, profile) == clock_text(secs),
        subtitle_text(VpnStatus::Connecting, secs, Some(interface), profile) == profile,
        subtitle_text(VpnStatus::Disconnected, secs, Some(interface), profile) == profile,
{
}

/// The command that starts the worker is four words for a shell, which reads
/// them as the program, the flag, the server and the user, whatever is in them.
pub proof fn law_worker_command_reads_back(
    exe: Seq<char>,
    server: Seq<char>,
    username: Seq<char>,
)
    ensures
        exists|e: Seq<char>, h: Seq<char>, u: Seq<char>|
            #[trigger] elevate::shell_reads(e, false) == Some(exe) && #[trigger]
                elevate::shell_reads(h, false) == Some(server) && #[trigger] elevate::shell_reads(
                u,
                false,
            ) == Some(username) && worker_command_text(exe, server, username) == e
                + " --vpn-worker "@ + h + " "@ + u,
{
    elevate::law_shell_reads_what_was_quoted(exe);
    elevate::law_shell_reads_what_was_quoted(server);
    elevate::law_shell_reads_what_was_quoted(username);
}

/// When the default route is brought back: at once where a tunnel was lost, and
/// else only without a tunnel and with a route that does not work, for the first
/// time or more than thirty seconds after the last try. Once due, it stays due.
pub proof fn law_healing_is_spaced(just_lost: bool, status: VpnStatus, ok: bool, m: u128, n: u128)
    ensures
        wants_healing(true, status, ok, Some(n)) && wants_healing(true, status, ok, None),
        wants_healing(false, status, ok, None) <==> status == VpnStatus::Disconnected && !ok,
        wants_healing(false, status, ok, Some(n)) <==> status == VpnStatus::Disconnected && !ok && n
            > 30_000_000_000,
        m <= n && wants_healing(just_lost, status, ok, Some(m)) ==> wants_healing(
            just_lost,
            status,
            ok,
            Some(n),
        ),
{
}

/// Only a process that is known and alive is killed, and it is that very
/// process.
pub proof fn law_only_live_processes_are_killed(pid: u32, alive: bool)
    ensures
        kill_text(None, alive) is None,
        kill_text(Some(pid), false) is None,
        kill_text(Some(pid), true) == Some("kill -9 "@ + text::decimal(pid as nat)),
{
}

/// The words of the command that starts the worker are understood as what they
/// were made for, whatever follows them; without the flag there is a window, and
/// with too few words behind it there is neither.
pub proof fn law_worker_words_are_understood(
    exe: Seq<char>,
    word: Seq<char>,
    server: Seq<char>,
    username: Seq<char>,
    more: Seq<Seq<char>>,
)
    ensures
        called_as(seq![exe, "--vpn-worker"@, server, username] + more) == (ModeView::Worker {
            server,
            username,
        }),
        called_as(seq![exe]) == ModeView::Window,
        called_as(Seq::empty()) == ModeView::Window,
        word != "--vpn-worker"@ ==> called_as(seq![exe, word] + more) == ModeView::Window,
        called_as(seq![exe, "--vpn-worker"@]) == ModeView::BadUsage,
        called_as(seq![exe, "--vpn-worker"@, server]) == ModeView::BadUsage,
{
    let args = seq![exe, "--vpn-worker"@, server, username] + more;
    assert(args[1] == "--vpn-worker"@ && args[2] == server && args[3] == username);
    assert((seq![exe, word] + more)[1] == word);
}

/// After each change the clock runs exactly where there is a tunnel, and one
/// that runs is not started anew.
pub proof fn law_clock_runs_with_the_tunnel(status: VpnStatus, running: bool)
    ensures
        ({
            let c = clock_then(status, running);
            let after = c == ClockChange::Start || (c == ClockChange::Keep && running);
            after <==> status == VpnStatus::Connected
        }),
        clock_then(VpnStatus::Connected, true) == ClockChange::Keep,
{
}

} // verus!
