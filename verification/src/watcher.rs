//! The watch loop of one monitored directory, as a state machine.
//!
//! The application owns the blocking parts: it installs the filesystem
//! watch, receives the debounced event batches and runs the scans. Every
//! decision — what to do next in which state — is taken here and verified.

use vstd::prelude::*;

verus! {

/// Where the loop of one monitored directory stands.
#[derive(Clone, Copy, Debug, PartialEq, Eq, Structural)]
pub enum WatcherState {
    Init,
    FirstScan,
    Watching,
    Rescanning,
    Terminated,
}

/// The kind of one filesystem event in a debounced batch.
#[derive(Clone, Copy, Debug, PartialEq, Eq, Structural)]
pub enum EventKind {
    Any,
    Create,
    Modify,
    Remove,
    Other,
}

/// What one blocking wait on the event channel produced: a coalesced batch
/// of events, or a terminal watch or channel error.
#[derive(Debug)]
pub enum WatchOutcome {
    Batch(Vec<EventKind>),
    Failure,
}

/// What the application must do after a step.
#[derive(Clone, Copy, Debug, PartialEq, Eq, Structural)]
pub enum WatcherAction {
    /// Install the non-recursive watch and the debounce stage.
    InstallWatch,
    /// Run one scan of the directory.
    RunScan { first_run: bool },
    /// Block waiting for the next event batch.
    Block,
    /// Stop the loop; the directory is no longer monitored.
    Stop,
}

/// A create, modify, remove or unspecified event retriggers a scan; other
/// kinds (pure access events) do not.
pub open spec fn is_relevant(k: EventKind) -> bool {
    match k {
        EventKind::Any => true,
        EventKind::Create => true,
        EventKind::Modify => true,
        EventKind::Remove => true,
        EventKind::Other => false,
    }
}

pub open spec fn batch_relevant(batch: Seq<EventKind>) -> bool {
    exists|i: int| 0 <= i < batch.len() && is_relevant(#[trigger] batch[i])
}

/// The transition relation of the loop.
pub open spec fn spec_step(
    state: WatcherState,
    event: Option<WatchOutcome>,
) -> (WatcherState, WatcherAction) {
    match state {
        WatcherState::Init => (WatcherState::FirstScan, WatcherAction::InstallWatch),
        WatcherState::FirstScan => (
            WatcherState::Watching,
            WatcherAction::RunScan { first_run: true },
        ),
        WatcherState::Watching => match event {
            Some(WatchOutcome::Batch(batch)) => {
                if batch_relevant(batch@) {
                    (WatcherState::Rescanning, WatcherAction::RunScan { first_run: false })
                } else {
                    (WatcherState::Watching, WatcherAction::Block)
                }
            }
            Some(WatchOutcome::Failure) => (WatcherState::Terminated, WatcherAction::Stop),
            None => (WatcherState::Watching, WatcherAction::Block),
        },
        WatcherState::Rescanning => (WatcherState::Watching, WatcherAction::Block),
        WatcherState::Terminated => (WatcherState::Terminated, WatcherAction::Stop),
    }
}

/// Decides whether a batch contains any event kind that retriggers a scan.
pub fn any_relevant(batch: &Vec<EventKind>) -> (r: bool)
    ensures
        r == batch_relevant(batch@),
{
    let n = batch.len();
    let mut i: usize = 0;
    while i < n
        invariant
            0 <= i <= n == batch@.len(),
            forall|j: int| 0 <= j < i ==> !is_relevant(#[trigger] batch@[j]),
        decreases n - i,
    {
        let relevant = match batch[i] {
            EventKind::Other => false,
            _ => true,
        };
        if relevant {
            proof {
                assert(is_relevant(batch@[i as int]));
            }
            return true;
        }
        i = i + 1;
    }
    false
}

/// Takes one step of the watch loop: from the current state and, in the
/// `Watching` state, the outcome of the blocking wait, to the next state
/// and the action the application must perform.
pub fn watcher_step(state: WatcherState, event: Option<WatchOutcome>) -> (r: (
    WatcherState,
    WatcherAction,
))
    ensures
        r == spec_step(state, event),
{
    match state {
        WatcherState::Init => (WatcherState::FirstScan, WatcherAction::InstallWatch),
        WatcherState::FirstScan => (
            WatcherState::Watching,
            WatcherAction::RunScan { first_run: true },
        ),
        WatcherState::Watching => match event {
            Some(WatchOutcome::Batch(batch)) => {
                if any_relevant(&batch) {
                    (WatcherState::Rescanning, WatcherAction::RunScan { first_run: false })
                } else {
                    (WatcherState::Watching, WatcherAction::Block)
                }
            }
            Some(WatchOutcome::Failure) => (WatcherState::Terminated, WatcherAction::Stop),
            None => (WatcherState::Watching, WatcherAction::Block),
        },
        WatcherState::Rescanning => (WatcherState::Watching, WatcherAction::Block),
        WatcherState::Terminated => (WatcherState::Terminated, WatcherAction::Stop),
    }
}

/// A watch or channel failure, and nothing else, ends the loop; once ended
/// it stays ended, and the directory is not monitored again before a
/// process restart.
pub proof fn lemma_termination(state: WatcherState, event: Option<WatchOutcome>)
    ensures
        spec_step(WatcherState::Terminated, event).0 == WatcherState::Terminated,
        spec_step(state, event).0 == WatcherState::Terminated <==> (state
            == WatcherState::Terminated || (state == WatcherState::Watching && event matches Some(
            WatchOutcome::Failure,
        ))),
{
}

/// A batch with any relevant event, received while watching, triggers
/// exactly one rescan: the trigger is never dropped, and a burst of many
/// events still causes one scan, not many.
pub proof fn lemma_batch_triggers_scan(batch: Vec<EventKind>)
    requires
        batch_relevant(batch@),
    ensures
        spec_step(WatcherState::Watching, Some(WatchOutcome::Batch(batch))) == (
            WatcherState::Rescanning,
            WatcherAction::RunScan { first_run: false },
        ),
        spec_step(WatcherState::Rescanning, None).0 == WatcherState::Watching,
{
}

} // verus!
