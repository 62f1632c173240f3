//! What the user interface and the privileged worker tell each other: the
//! status of the worker, and where the files lie by which they talk.

use crate::text;
use vstd::prelude::*;

verus! {

/// The directory of the files, below the home directory.
pub const SUPPORT_DIR: &'static str = "Library/Application Support/sstp-gui";

/// The number of the system error that permission was denied.
pub const EPERM: i32 = 1;

/// What the worker is doing.
#[derive(Debug, Clone, Copy, PartialEq, Eq, Structural)]
pub enum WorkerState {
    Connecting,
    Connected,
    Disconnected,
    Error,
}

impl WorkerState {
    /// The name of this state.
    pub open spec fn label(self) -> &'static str {
        match self {
            WorkerState::Connecting => "Connecting",
            WorkerState::Connected => "Connected",
            WorkerState::Disconnected => "Disconnected",
            WorkerState::Error => "Error",
        }
    }

    /// The name of this state.
    pub fn name(self) -> (s: &'static str)
        ensures
            s == self.label(),
    {
        match self {
            WorkerState::Connecting => "Connecting",
            WorkerState::Connected => "Connected",
            WorkerState::Disconnected => "Disconnected",
            WorkerState::Error => "Error",
        }
    }
}

/// What the worker has last said of itself.
#[derive(Debug, Clone)]
pub struct VpnStatusFile {
    pub state: Option<WorkerState>,
    pub interface: Option<String>,
    pub local_ip: Option<String>,
    pub peer_ip: Option<String>,
    pub dns1: Option<String>,
    pub dns2: Option<String>,
    pub message: Option<String>,
    /// The process of the worker, by which a status left over from a dead one
    /// can be told.
    pub pid: Option<u32>,
}

/// What a status says.
#[verifier::ext_equal]
pub struct StatusView {
    pub state: Option<WorkerState>,
    pub interface: Option<Seq<char>>,
    pub local_ip: Option<Seq<char>>,
    pub peer_ip: Option<Seq<char>>,
    pub dns1: Option<Seq<char>>,
    pub dns2: Option<Seq<char>>,
    pub message: Option<Seq<char>>,
    pub pid: Option<u32>,
}

impl View for VpnStatusFile {
    type V = StatusView;

    open spec fn view(&self) -> StatusView {
        StatusView {
            state: self.state,
            interface: text::opt_view(self.interface),
            local_ip: text::opt_view(self.local_ip),
            peer_ip: text::opt_view(self.peer_ip),
            dns1: text::opt_view(self.dns1),
            dns2: text::opt_view(self.dns2),
            message: text::opt_view(self.message),
            pid: self.pid,
        }
    }
}

/// A status that says nothing.
pub open spec fn blank_status() -> StatusView {
    StatusView {
        state: None,
        interface: None,
        local_ip: None,
        peer_ip: None,
        dns1: None,
        dns2: None,
        message: None,
        pid: None,
    }
}

impl Default for VpnStatusFile {
    fn default() -> (s: VpnStatusFile)
        ensures
            s@ == blank_status(),
    {
        VpnStatusFile {
            state: None,
            interface: None,
            local_ip: None,
            peer_ip: None,
            dns1: None,
            dns2: None,
            message: None,
            pid: None,
        }
    }
}

/// An optional status, by what it says.
pub open spec fn status_view(s: Option<VpnStatusFile>) -> Option<StatusView> {
    match s {
        Some(x) => Some(x@),
        None => None,
    }
}

/// A path below a directory.
pub open spec fn below(dir: Seq<char>, rest: Seq<char>) -> Seq<char> {
    if dir.len() == 0 || dir.last() == '/' {
        dir + rest
    } else {
        dir + "/"@ + rest
    }
}

/// A path below a directory.
pub fn path_below(dir: &str, rest: &str) -> (s: String)
    ensures
        s@ == below(dir@, rest@),
{
    let chars = text::to_chars(dir);
    if chars.len() == 0 || chars[chars.len() - 1] == '/' {
        text::join2(dir, rest)
    } else {
        text::join3(dir, "/", rest)
    }
}

/// The home directory, or the current one where there is none.
pub open spec fn home_or_here(home: Option<Seq<char>>) -> Seq<char> {
    match home {
        Some(h) => h,
        None => "."@,
    }
}

/// The directory of the files.
pub open spec fn support_path(home: Option<Seq<char>>) -> Seq<char> {
    below(home_or_here(home), SUPPORT_DIR@)
}

/// The directory of the files.
pub fn support_dir(home: Option<&str>) -> (s: String)
    ensures
        s@ == support_path(text::opt_str_view(home)),
{
    match home {
        Some(h) => path_below(h, SUPPORT_DIR),
        None => path_below(".", SUPPORT_DIR),
    }
}

/// Where the worker writes its status.
pub fn status_path(home: Option<&str>) -> (s: String)
    ensures
        s@ == below(support_path(text::opt_str_view(home)), "vpn-status.json"@),
{
    let dir = support_dir(home);
    path_below(dir.as_str(), "vpn-status.json")
}

/// The file whose being there asks the worker to disconnect.
pub fn disconnect_marker_path(home: Option<&str>) -> (s: String)
    ensures
        s@ == below(support_path(text::opt_str_view(home)), "disconnect-requested"@),
{
    let dir = support_dir(home);
    path_below(dir.as_str(), "disconnect-requested")
}

/// The file by which the worker is handed the password.
pub fn pending_password_path(home: Option<&str>) -> (s: String)
    ensures
        s@ == below(support_path(text::opt_str_view(home)), "pending-password"@),
{
    let dir = support_dir(home);
    path_below(dir.as_str(), "pending-password")
}

/// Whether a process is alive, by the result of sending it the empty signal
/// and the system error of that. A process that may not be signalled is there.
pub fn pid_alive(result: i32, errno: Option<i32>) -> (r: bool)
    ensures
        r == (result == 0 || errno == Some(EPERM)),
{
    if result == 0 {
        return true;
    }
    match errno {
        Some(e) => e == EPERM,
        None => false,
    }
}

/// An optional text in the form of a log.
pub open spec fn opt_text(s: Option<Seq<char>>) -> Seq<char> {
    match s {
        Some(x) => "Some("@ + text::debug_quoted(x) + ")"@,
        None => "None"@,
    }
}

/// Appends an optional text in the form of a log.
fn push_opt(out: &mut String, s: &Option<String>)
    ensures
        final(out)@ == old(out)@ + opt_text(text::opt_view(*s)),
{
    match s {
        Some(x) => {
            let q = text::quoted(x.as_str());
            text::push_str(out, "Some(");
            text::push_str(out, q.as_str());
            text::push_str(out, ")");
        },
        None => text::push_str(out, "None"),
    }
    proof {
        assert(out@ =~= old(out)@ + opt_text(text::opt_view(*s)));
    }
}

/// An optional state in the form of a log.
pub open spec fn state_text(s: Option<WorkerState>) -> Seq<char> {
    match s {
        Some(x) => "Some("@ + x.label()@ + ")"@,
        None => "None"@,
    }
}

/// An optional process number in the form of a log.
pub open spec fn pid_text(pid: Option<u32>) -> Seq<char> {
    match pid {
        Some(n) => "Some("@ + text::decimal(n as nat) + ")"@,
        None => "None"@,
    }
}

/// A status in the form of a log.
pub open spec fn status_text(s: StatusView) -> Seq<char> {
    "VpnStatusFile { state: "@ + state_text(s.state) + ", interface: "@ + opt_text(s.interface)
        + ", local_ip: "@ + opt_text(s.local_ip) + ", peer_ip: "@ + opt_text(s.peer_ip)
        + ", dns1: "@ + opt_text(s.dns1) + ", dns2: "@ + opt_text(s.dns2) + ", message: "@
        + opt_text(s.message) + ", pid: "@ + pid_text(s.pid) + " }"@
}

fn push_state(out: &mut String, s: Option<WorkerState>)
    ensures
        final(out)@ == old(out)@ + state_text(s),
{
    match s {
        Some(x) => {
            text::push_str(out, "Some(");
            text::push_str(out, x.name());
            text::push_str(out, ")");
        },
        None => text::push_str(out, "None"),
    }
    proof {
        assert(out@ =~= old(out)@ + state_text(s));
    }
}

fn push_pid(out: &mut String, pid: Option<u32>)
    ensures
        final(out)@ == old(out)@ + pid_text(pid),
{
    match pid {
        Some(n) => {
            text::push_str(out, "Some(");
            text::push_decimal(out, n as u64);
            text::push_str(out, ")");
        },
        None => text::push_str(out, "None"),
    }
    proof {
        assert(out@ =~= old(out)@ + pid_text(pid));
    }
}

/// A status in the form of a log.
pub fn format_status(s: &VpnStatusFile) -> (out: String)
    ensures
        out@ == status_text(s@),
{
    let mut out = text::owned("VpnStatusFile { state: ");
    push_state(&mut out, s.state);
    text::push_str(&mut out, ", interface: ");
    push_opt(&mut out, &s.interface);
    text::push_str(&mut out, ", local_ip: ");
    push_opt(&mut out, &s.local_ip);
    text::push_str(&mut out, ", peer_ip: ");
    push_opt(&mut out, &s.peer_ip);
    text::push_str(&mut out, ", dns1: ");
    push_opt(&mut out, &s.dns1);
    text::push_str(&mut out, ", dns2: ");
    push_opt(&mut out, &s.dns2);
    text::push_str(&mut out, ", message: ");
    push_opt(&mut out, &s.message);
    text::push_str(&mut out, ", pid: ");
    push_pid(&mut out, s.pid);
    text::push_str(&mut out, " }");
    out
}

/// A path below a directory has exactly one slash between the two.
pub proof fn law_one_slash_between(dir: Seq<char>, rest: Seq<char>)
    ensures
        below(dir.push('/'), rest) == dir.push('/') + rest,
        dir.len() > 0 && dir.last() != '/' ==> below(dir, rest) == dir.push('/') + rest,
        below(Seq::empty(), rest) == rest,
{
    reveal_strlit("/");
    if dir.len() > 0 && dir.last() != '/' {
        assert(below(dir, rest) =~= dir.push('/') + rest);
    }
    assert(below(Seq::empty(), rest) =~= rest);
}

/// The files lie below the home directory, or below the current one where there
/// is none.
pub proof fn law_files_lie_in_the_home(home: Seq<char>)
    requires
        home.len() > 0,
        home.last() != '/',
    ensures
        support_path(Some(home)) == home + "/Library/Application Support/sstp-gui"@,
        support_path(None) == "./Library/Application Support/sstp-gui"@,
{
    reveal_strlit("/");
    reveal_strlit(".");
    reveal_strlit("Library/Application Support/sstp-gui");
    reveal_strlit("/Library/Application Support/sstp-gui");
    reveal_strlit("./Library/Application Support/sstp-gui");
    assert(support_path(Some(home)) =~= home + "/Library/Application Support/sstp-gui"@);
    assert(support_path(None) =~= "./Library/Application Support/sstp-gui"@);
}

/// What the log says of an optional text, state or process number tells whether
/// there is one, and which.
pub proof fn law_options_are_told(s: Seq<char>, state: WorkerState, pid: u32)
    ensures
        opt_text(Some(s)) == "Some("@ + text::debug_quoted(s) + ")"@,
        state_text(Some(state)) == "Some("@ + state.label()@ + ")"@,
        pid_text(Some(pid)) == "Some("@ + text::decimal(pid as nat) + ")"@,
        opt_text(None) == "None"@ && state_text(None) == "None"@ && pid_text(None) == "None"@,
        WorkerState::Connecting.label()@ == "Connecting"@,
        WorkerState::Connected.label()@ == "Connected"@,
        WorkerState::Disconnected.label()@ == "Disconnected"@,
        WorkerState::Error.label()@ == "Error"@,
{
}

} // verus!
