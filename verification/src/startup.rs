//! Starting a tunnel at the wish of the user: what is put in place before the
//! worker is started with administrator rights, and what happens where that
//! cannot be done.

use crate::status;
use crate::text;
use vstd::prelude::*;

verus! {

/// What is done to start a tunnel, in order.
pub enum StartAction {
    Log(String),
    /// Show the user a notification.
    Notify(String),
    /// Hand the password over for the worker to pick up, and go on with
    /// whether that succeeded.
    StagePassword(String),
    /// Forget what a worker said last.
    ClearStatus,
    /// Withdraw a wish to disconnect that is left from before.
    ClearRequest,
    /// Keep the gateway of the present default route.
    SaveSnapshot,
    /// Run the command with administrator rights; it lasts as long as the
    /// tunnel does.
    Elevate(String),
    /// Show that there is no tunnel.
    ShowDisconnected,
}

/// What an action is.
#[verifier::ext_equal]
pub enum StartView {
    Log(Seq<char>),
    Notify(Seq<char>),
    StagePassword(Seq<char>),
    ClearStatus,
    ClearRequest,
    SaveSnapshot,
    Elevate(Seq<char>),
    ShowDisconnected,
}

impl View for StartAction {
    type V = StartView;

    open spec fn view(&self) -> StartView {
        match *self {
            StartAction::Log(s) => StartView::Log(s@),
            StartAction::Notify(s) => StartView::Notify(s@),
            StartAction::StagePassword(s) => StartView::StagePassword(s@),
            StartAction::ClearStatus => StartView::ClearStatus,
            StartAction::ClearRequest => StartView::ClearRequest,
            StartAction::SaveSnapshot => StartView::SaveSnapshot,
            StartAction::Elevate(s) => StartView::Elevate(s@),
            StartAction::ShowDisconnected => StartView::ShowDisconnected,
        }
    }
}

/// What a list of actions is.
pub open spec fn actions_view(v: Seq<StartAction>) -> Seq<StartView> {
    v.map_values(|a: StartAction| a@)
}

/// A worker that waits for its password to be handed over.
pub struct Waiting {
    server: String,
    command: String,
}

/// What waits for the password.
#[verifier::ext_equal]
pub struct WaitingView {
    pub server: Seq<char>,
    /// The command that starts the worker.
    pub command: Seq<char>,
}

impl View for Waiting {
    type V = WaitingView;

    closed spec fn view(&self) -> WaitingView {
        WaitingView { server: self.server@, command: self.command@ }
    }
}

/// The start of a tunnel.
pub struct Startup {
    waiting: Option<Waiting>,
}

impl View for Startup {
    type V = Option<WaitingView>;

    closed spec fn view(&self) -> Option<WaitingView> {
        match self.waiting {
            Some(w) => Some(w@),
            None => None,
        }
    }
}

/// Whether all that a connection needs has been filled in.
pub open spec fn filled_in(server: Seq<char>, username: Seq<char>, password: Seq<char>) -> bool {
    server.len() > 0 && username.len() > 0 && password.len() > 0
}

/// What is done first, and what waits then. `exe` is the path of this program,
/// where it is known.
pub open spec fn opening(
    server: Seq<char>,
    username: Seq<char>,
    password: Seq<char>,
    exe: Option<Seq<char>>,
) -> (Option<WaitingView>, Seq<StartView>) {
    if !filled_in(server, username, password) {
        (
            None,
            seq![
                StartView::Log("connect aborted: server/username/password not set"@),
                StartView::Notify("Заполните сервер, логин и пароль"@),
                StartView::ShowDisconnected,
            ],
        )
    } else {
        match exe {
            None => (
                None,
                seq![
                    StartView::Log(
                        "connect aborted: could not determine our own executable path"@,
                    ),
                    StartView::ShowDisconnected,
                ],
            ),
            Some(e) => (
                Some(
                    WaitingView {
                        server,
                        command: status::worker_command_text(e, server, username),
                    },
                ),
                seq![StartView::StagePassword(password)],
            ),
        }
    }
}

/// What is done once the password has been handed over, or could not be.
pub open spec fn after_staging(waiting: Option<WaitingView>, failure: Option<Seq<char>>) -> Seq<
    StartView,
> {
    match (waiting, failure) {
        (None, _) => Seq::empty(),
        (Some(_), Some(e)) => seq![
            StartView::Log("connect aborted: could not stage password handoff: "@ + e),
            StartView::ShowDisconnected,
        ],
        (Some(w), None) => seq![
            StartView::ClearStatus,
            StartView::ClearRequest,
            StartView::SaveSnapshot,
            StartView::Log("connecting to "@ + w.server + "..."@),
            StartView::Elevate(w.command),
        ],
    }
}

impl Startup {
    /// Starts a tunnel, and what is done first. `exe` is the path of this
    /// program, where it is known.
    pub fn begin(server: &str, username: &str, password: &str, exe: Option<&str>) -> (r: (
        Startup,
        Vec<StartAction>,
    ))
        ensures
            (r.0@, actions_view(r.1@)) == opening(
                server@,
                username@,
                password@,
                text::opt_str_view(exe),
            ),
    {
        let ghost meant = opening(server@, username@, password@, text::opt_str_view(exe));
        let mut v: Vec<StartAction> = Vec::new();
        if !status::can_start(server, username, password) {
            v.push(
                StartAction::Log(text::owned("connect aborted: server/username/password not set")),
            );
            v.push(StartAction::Notify(text::owned("Заполните сервер, логин и пароль")));
            v.push(StartAction::ShowDisconnected);
            proof {
                assert(actions_view(v@) =~= meant.1);
            }
            return (Startup { waiting: None }, v);
        }
        match exe {
            None => {
                v.push(
                    StartAction::Log(
                        text::owned("connect aborted: could not determine our own executable path"),
                    ),
                );
                v.push(StartAction::ShowDisconnected);
                proof {
                    assert(actions_view(v@) =~= meant.1);
                }
                (Startup { waiting: None }, v)
            },
            Some(e) => {
                let command = status::worker_command(e, server, username);
                v.push(StartAction::StagePassword(text::owned(password)));
                proof {
                    assert(actions_view(v@) =~= meant.1);
                }
                (Startup { waiting: Some(Waiting { server: text::owned(server), command }) }, v)
            },
        }
    }

    /// Takes in whether the password was handed over, with the words of the
    /// system where it was not.
    pub fn on_staged(&mut self, outcome: Result<(), String>) -> (v: Vec<StartAction>)
        ensures
            final(self)@ is None,
            actions_view(v@) == after_staging(
                old(self)@,
                match outcome {
                    Ok(_) => None,
                    Err(e) => Some(e@),
                },
            ),
    {
        let mut v: Vec<StartAction> = Vec::new();
        let waiting = self.waiting.take();
        match waiting {
            None => {
                proof {
                    assert(actions_view(v@) =~= Seq::empty());
                }
            },
            Some(w) => {
                let ghost shown = w@;
                match outcome {
                    Err(e) => {
                        v.push(
                            StartAction::Log(
                                text::join2(
                                    "connect aborted: could not stage password handoff: ",
                                    e.as_str(),
                                ),
                            ),
                        );
                        v.push(StartAction::ShowDisconnected);
                        proof {
                            assert(actions_view(v@) =~= after_staging(Some(shown), Some(e@)));
                        }
                    },
                    Ok(_) => {
                        v.push(StartAction::ClearStatus);
                        v.push(StartAction::ClearRequest);
                        v.push(StartAction::SaveSnapshot);
                        v.push(
                            StartAction::Log(
                                text::join3("connecting to ", w.server.as_str(), "..."),
                            ),
                        );
                        v.push(StartAction::Elevate(w.command));
                        proof {
                            assert(actions_view(v@) =~= after_staging(Some(shown), None));
                        }
                    },
                }
            },
        }
        v
    }
}

/// All that a start does, given whether the password can be handed over.
pub open spec fn whole_start(
    server: Seq<char>,
    username: Seq<char>,
    password: Seq<char>,
    exe: Option<Seq<char>>,
    failure: Option<Seq<char>>,
) -> Seq<StartView> {
    let (waiting, first) = opening(server, username, password, exe);
    first + after_staging(waiting, failure)
}

/// Where a field is empty, a start says so and does nothing else: no password
/// is handed over, nothing is changed, and no rights are asked for.
pub proof fn law_an_incomplete_start_touches_nothing(
    server: Seq<char>,
    username: Seq<char>,
    password: Seq<char>,
    exe: Option<Seq<char>>,
    failure: Option<Seq<char>>,
)
    requires
        !filled_in(server, username, password),
    ensures
        whole_start(server, username, password, exe, failure) == seq![
            StartView::Log("connect aborted: server/username/password not set"@),
            StartView::Notify("Заполните сервер, логин и пароль"@),
            StartView::ShowDisconnected,
        ],
{
}

/// A start that nothing hinders hands the password over, clears what is left
/// from before, keeps the gateway, and only then asks for administrator rights.
pub proof fn law_snapshot_precedes_the_elevation(
    server: Seq<char>,
    username: Seq<char>,
    password: Seq<char>,
    exe: Seq<char>,
)
    requires
        filled_in(server, username, password),
    ensures
        whole_start(server, username, password, Some(exe), None) == seq![
            StartView::StagePassword(password),
            StartView::ClearStatus,
            StartView::ClearRequest,
            StartView::SaveSnapshot,
            StartView::Log("connecting to "@ + server + "..."@),
            StartView::Elevate(status::worker_command_text(exe, server, username)),
        ],
{
    assert(whole_start(server, username, password, Some(exe), None) =~= seq![
        StartView::StagePassword(password),
        StartView::ClearStatus,
        StartView::ClearRequest,
        StartView::SaveSnapshot,
        StartView::Log("connecting to "@ + server + "..."@),
        StartView::Elevate(status::worker_command_text(exe, server, username)),
    ]);
}

/// Every start either asks for administrator rights last or shows last that
/// there is no tunnel. It asks exactly where all fields are filled in, the path
/// of the program is known, and the password was handed over.
pub proof fn law_a_start_runs_or_says_that_it_does_not(
    server: Seq<char>,
    username: Seq<char>,
    password: Seq<char>,
    exe: Option<Seq<char>>,
    failure: Option<Seq<char>>,
)
    ensures
        ({
            let all = whole_start(server, username, password, exe, failure);
            let runs = filled_in(server, username, password) && exe is Some && failure is None;
            &&& all.len() > 0
            &&& all.last() is Elevate <==> runs
            &&& all.last() == StartView::ShowDisconnected <==> !runs
            &&& forall|i: int| 0 <= i < all.len() - 1 ==> !((#[trigger] all[i]) is Elevate)
        }),
{
}

/// A start needs a server, a user and a password; the lack of any one is enough
/// to call it off.
pub proof fn law_every_field_is_needed(
    server: Seq<char>,
    username: Seq<char>,
    password: Seq<char>,
)
    ensures
        !filled_in(Seq::empty(), username, password),
        !filled_in(server, Seq::empty(), password),
        !filled_in(server, username, Seq::empty()),
        server.len() > 0 && username.len() > 0 && password.len() > 0 ==> filled_in(
            server,
            username,
            password,
        ),
{
}

/// A start whose password could not be handed over says why and changes
/// nothing; one that does not know its own program does not even try.
pub proof fn law_a_hindered_start_says_why(
    server: Seq<char>,
    username: Seq<char>,
    password: Seq<char>,
    exe: Seq<char>,
    e: Seq<char>,
)
    requires
        server.len() > 0,
        username.len() > 0,
        password.len() > 0,
    ensures
        whole_start(server, username, password, Some(exe), Some(e)) == seq![
            StartView::StagePassword(password),
            StartView::Log("connect aborted: could not stage password handoff: "@ + e),
            StartView::ShowDisconnected,
        ],
        whole_start(server, username, password, None, Some(e)) == seq![
            StartView::Log("connect aborted: could not determine our own executable path"@),
            StartView::ShowDisconnected,
        ],
{
    assert(whole_start(server, username, password, Some(exe), Some(e)) =~= seq![
        StartView::StagePassword(password),
        StartView::Log("connect aborted: could not stage password handoff: "@ + e),
        StartView::ShowDisconnected,
    ]);
    assert(whole_start(server, username, password, None, Some(e)) =~= seq![
        StartView::Log("connect aborted: could not determine our own executable path"@),
        StartView::ShowDisconnected,
    ]);
}

} // verus!
