//! Ending a tunnel at the wish of the user: the worker is asked to disconnect,
//! given a while to confirm, and killed where it does not.

use crate::ipc::WorkerState;
use crate::status;
use crate::text;
use vstd::prelude::*;

verus! {

/// Milliseconds that the worker is given to confirm a disconnect.
pub const CONFIRM_MS: u64 = 10_000;

/// What is done to end a tunnel, in order.
pub enum TeardownAction {
    Log(String),
    /// Tell the worker that a disconnect is wanted.
    RequestDisconnect,
    /// Look at the state of the worker, and go on with it.
    Look,
    /// Wait before the next look.
    Wait,
    /// Log the state of the network.
    Diagnose(String),
    /// Kill the worker, where its process is known and alive.
    Kill,
    /// Withdraw the wish to disconnect.
    ClearRequest,
    /// Forget what the worker said last.
    ClearStatus,
    /// Show that there is no tunnel, and no interface.
    ShowDisconnected,
    /// Look after the default route, without telling the user of success.
    HealRoute,
}

/// What an action is.
#[verifier::ext_equal]
pub enum TeardownView {
    Log(Seq<char>),
    RequestDisconnect,
    Look,
    Wait,
    Diagnose(Seq<char>),
    Kill,
    ClearRequest,
    ClearStatus,
    ShowDisconnected,
    HealRoute,
}

impl View for TeardownAction {
    type V = TeardownView;

    open spec fn view(&self) -> TeardownView {
        match *self {
            TeardownAction::Log(s) => TeardownView::Log(s@),
            TeardownAction::RequestDisconnect => TeardownView::RequestDisconnect,
            TeardownAction::Look => TeardownView::Look,
            TeardownAction::Wait => TeardownView::Wait,
            TeardownAction::Diagnose(s) => TeardownView::Diagnose(s@),
            TeardownAction::Kill => TeardownView::Kill,
            TeardownAction::ClearRequest => TeardownView::ClearRequest,
            TeardownAction::ClearStatus => TeardownView::ClearStatus,
            TeardownAction::ShowDisconnected => TeardownView::ShowDisconnected,
            TeardownAction::HealRoute => TeardownView::HealRoute,
        }
    }
}

/// What a list of actions is.
pub open spec fn actions_view(v: Seq<TeardownAction>) -> Seq<TeardownView> {
    v.map_values(|a: TeardownAction| a@)
}

/// The end of a tunnel. Its view is whether that is over.
pub struct Teardown {
    over: bool,
}

impl View for Teardown {
    type V = bool;

    closed spec fn view(&self) -> bool {
        self.over
    }
}

/// What is done first.
pub open spec fn opening() -> Seq<TeardownView> {
    seq![
        TeardownView::Log("disconnecting..."@),
        TeardownView::RequestDisconnect,
        TeardownView::Look,
    ]
}

/// What is done last, however the tunnel ended.
pub open spec fn closing() -> Seq<TeardownView> {
    seq![
        TeardownView::ClearRequest,
        TeardownView::ClearStatus,
        TeardownView::ShowDisconnected,
        TeardownView::HealRoute,
    ]
}

/// What is done where the worker did not confirm in time.
pub open spec fn forcing() -> Seq<TeardownView> {
    seq![
        TeardownView::Log("worker did not confirm disconnect within 10s, forcing..."@),
        TeardownView::Diagnose("disconnect: worker did not confirm in time"@),
        TeardownView::Kill,
    ]
}

/// Whether a state of the worker confirms a disconnect: it is over, or it says
/// nothing at all.
pub open spec fn confirms(state: Option<WorkerState>) -> bool {
    state is None || state == Some(WorkerState::Disconnected) || state == Some(WorkerState::Error)
}

/// What is done after a look, and whether the end is over then. A look counts
/// only within the time that the worker is given.
pub open spec fn after_look(over: bool, state: Option<WorkerState>, elapsed_ms: u64) -> (
    bool,
    Seq<TeardownView>,
) {
    if over {
        (true, Seq::empty())
    } else if elapsed_ms >= CONFIRM_MS {
        (true, forcing() + closing())
    } else if confirms(state) {
        (true, seq![TeardownView::Log("disconnected"@)] + closing())
    } else {
        (false, seq![TeardownView::Wait, TeardownView::Look])
    }
}

fn push_closing(v: &mut Vec<TeardownAction>)
    ensures
        actions_view(final(v)@) == actions_view(old(v)@) + closing(),
{
    v.push(TeardownAction::ClearRequest);
    v.push(TeardownAction::ClearStatus);
    v.push(TeardownAction::ShowDisconnected);
    v.push(TeardownAction::HealRoute);
    proof {
        assert(actions_view(v@) =~= actions_view(old(v)@) + closing());
    }
}

impl Teardown {
    /// Starts to end a tunnel, and what is done first.
    pub fn begin() -> (r: (Teardown, Vec<TeardownAction>))
        ensures
            !r.0@,
            actions_view(r.1@) == opening(),
    {
        let mut v: Vec<TeardownAction> = Vec::new();
        v.push(TeardownAction::Log(text::owned("disconnecting...")));
        v.push(TeardownAction::RequestDisconnect);
        v.push(TeardownAction::Look);
        proof {
            assert(actions_view(v@) =~= opening());
        }
        (Teardown { over: false }, v)
    }

    /// Takes in the state of the worker, `elapsed_ms` after the first look was
    /// due.
    pub fn on_look(&mut self, state: Option<WorkerState>, elapsed_ms: u64) -> (v: Vec<
        TeardownAction,
    >)
        ensures
            (final(self)@, actions_view(v@)) == after_look(old(self)@, state, elapsed_ms),
    {
        let mut v: Vec<TeardownAction> = Vec::new();
        if self.over {
            proof {
                assert(actions_view(v@) =~= Seq::empty());
            }
        } else if elapsed_ms >= CONFIRM_MS {
            self.over = true;
            v.push(
                TeardownAction::Log(
                    text::owned("worker did not confirm disconnect within 10s, forcing..."),
                ),
            );
            v.push(
                TeardownAction::Diagnose(
                    text::owned("disconnect: worker did not confirm in time"),
                ),
            );
            v.push(TeardownAction::Kill);
            proof {
                assert(actions_view(v@) =~= forcing());
            }
            push_closing(&mut v);
        } else if status::disconnect_confirmed(state) {
            self.over = true;
            v.push(TeardownAction::Log(text::owned("disconnected")));
            proof {
                assert(actions_view(v@) =~= seq![TeardownView::Log("disconnected"@)]);
            }
            push_closing(&mut v);
        } else {
            v.push(TeardownAction::Wait);
            v.push(TeardownAction::Look);
            proof {
                assert(actions_view(v@) =~= seq![TeardownView::Wait, TeardownView::Look]);
            }
        }
        v
    }
}

/// The end of a tunnel comes at the latest with the first look after the time
/// that the worker is given, whatever the worker says. It is final, and it is
/// where everything is cleaned up and the default route is looked after.
pub proof fn law_teardown_always_ends(over: bool, state: Option<WorkerState>, elapsed_ms: u64)
    ensures
        elapsed_ms >= CONFIRM_MS ==> after_look(over, state, elapsed_ms).0,
        over ==> after_look(over, state, elapsed_ms) == (true, Seq::<TeardownView>::empty()),
        !over && after_look(over, state, elapsed_ms).0 ==> closing().is_suffix_of(
            after_look(over, state, elapsed_ms).1,
        ),
        !after_look(over, state, elapsed_ms).0 <==> after_look(over, state, elapsed_ms).1.contains(
            TeardownView::Look,
        ),
{
    let actions = after_look(over, state, elapsed_ms).1;
    if !over {
        if elapsed_ms >= CONFIRM_MS {
            assert(actions.skip(3) =~= closing());
        } else if confirms(state) {
            assert(actions.skip(1) =~= closing());
        } else {
            assert(actions[1] == TeardownView::Look);
        }
    }
}

/// A worker is killed exactly where it has not confirmed within its time.
pub proof fn law_only_a_silent_worker_is_killed(
    over: bool,
    state: Option<WorkerState>,
    elapsed_ms: u64,
)
    ensures
        after_look(over, state, elapsed_ms).1.contains(TeardownView::Kill) <==> !over && elapsed_ms
            >= CONFIRM_MS,
        !opening().contains(TeardownView::Kill),
{
    if !over && elapsed_ms >= CONFIRM_MS {
        assert(after_look(over, state, elapsed_ms).1[2] == TeardownView::Kill);
    }
}

/// The end of a tunnel, case by case: it starts with the wish to disconnect and
/// a look. Within ten seconds a worker that is still connecting or connected is
/// waited for, and one that is over or silent ends it; after ten seconds the
/// worker is killed. Everything is cleaned up once, in the same order.
pub proof fn law_teardown_goes_look_by_look(state: Option<WorkerState>, elapsed_ms: u64)
    ensures
        opening().len() == 3,
        opening()[0] is Log,
        opening()[1] is RequestDisconnect,
        opening()[2] is Look,
        ({
            let busy = state == Some(WorkerState::Connecting) || state == Some(
                WorkerState::Connected,
            );
            let clean = seq![
                TeardownView::ClearRequest,
                TeardownView::ClearStatus,
                TeardownView::ShowDisconnected,
                TeardownView::HealRoute,
            ];
            let (over, actions) = after_look(false, state, elapsed_ms);
            &&& elapsed_ms < 10_000 && busy ==> !over && actions == seq![
                TeardownView::Wait,
                TeardownView::Look,
            ]
            &&& elapsed_ms < 10_000 && !busy ==> over && actions == seq![
                TeardownView::Log("disconnected"@),
            ] + clean
            &&& elapsed_ms >= 10_000 ==> over && actions.len() == 7 && actions[0] is Log
                && actions[1] is Diagnose && actions[2] is Kill && actions.skip(3) == clean
        }),
{
    let actions = after_look(false, state, elapsed_ms).1;
    let clean = seq![
        TeardownView::ClearRequest,
        TeardownView::ClearStatus,
        TeardownView::ShowDisconnected,
        TeardownView::HealRoute,
    ];
    if elapsed_ms >= 10_000 {
        assert(actions.skip(3) =~= clean);
    } else if confirms(state) {
        assert(actions =~= seq![TeardownView::Log("disconnected"@)] + clean);
    } else {
        match state->0 {
            WorkerState::Connecting => {},
            WorkerState::Connected => {},
            WorkerState::Disconnected => {},
            WorkerState::Error => {},
        }
    }
}

} // verus!
