//! Reloading the policy when its file changes. The watcher is a state
//! machine without I/O: the caller reports what happened as a `WatchEvent`
//! and carries out the `WatchAction` it gets back.

use crate::config::Config;
use vstd::prelude::*;

verus! {

/// Milliseconds to let a burst of changes settle before the file is read.
pub const DEBOUNCE_MS: u64 = 200;

/// Milliseconds without a further change after which the burst is over.
pub const DRAIN_IDLE_MS: u64 = 10;

/// Milliseconds to wait for exclusive access to the policy.
pub const WRITE_WAIT_MS: u64 = 3000;

/// Milliseconds to pause before the one retry.
pub const RETRY_PAUSE_MS: u64 = 500;

/// Milliseconds to wait for exclusive access on the retry.
pub const RETRY_WAIT_MS: u64 = 500;

/// What the watcher is told.
#[derive(Debug, PartialEq, Eq)]
pub enum WatchEvent {
    /// The file was modified.
    Modified,
    /// The file system reported something other than a modification.
    OtherChange,
    /// The sleep or the wait for a further change ran out.
    Quiet,
    /// The file was read and holds this policy.
    Loaded(Config),
    /// The file could not be read as a policy.
    LoadFailed,
    /// Exclusive access to the policy is granted.
    WriteGranted,
    /// Exclusive access was not granted in time.
    WriteTimedOut,
    /// The process shuts down.
    Shutdown,
}

/// What the caller does next.
#[derive(Debug, PartialEq, Eq)]
pub enum WatchAction {
    /// Wait for a change of the file or for shutdown.
    AwaitChange,
    /// Sleep for this many milliseconds, then report `Quiet`.
    Sleep(u64),
    /// Wait up to this many milliseconds for a further change; report it, or
    /// `Quiet` if none came.
    Drain(u64),
    /// Read the policy file and report `Loaded` or `LoadFailed`.
    Load,
    /// Cancel the epoch token that live connections hold and put a fresh one
    /// in its place. Then wait up to this many milliseconds for exclusive
    /// access to the policy and report `WriteGranted` or `WriteTimedOut`.
    ResetEpochAndAcquire(u64),
    /// Wait up to this many milliseconds for exclusive access to the policy
    /// and report `WriteGranted` or `WriteTimedOut`.
    Acquire(u64),
    /// Put this policy in place of the current one, give up the exclusive
    /// access, and wait for the next change.
    Install(Config),
    /// Stop watching.
    Stop,
}

/// Where the watcher stands.
#[derive(Debug, PartialEq, Eq)]
pub enum WatchState {
    /// Nothing is going on.
    Idle,
    /// A modification was seen; the debounce sleep runs.
    Debouncing,
    /// Further changes are being drained.
    Draining,
    /// The file is being read.
    Loading,
    /// The new policy waits for exclusive access, first attempt.
    Acquiring(Config),
    /// The first attempt timed out; the pause before the retry runs.
    Pausing(Config),
    /// The new policy waits for exclusive access, second and last attempt.
    Retrying(Config),
    /// The watcher has stopped.
    Stopped,
}

/// What the caller is doing or is to do while the watcher is in `state`,
/// where that does not hand over a policy.
pub open spec fn standing_action(state: WatchState) -> WatchAction {
    match state {
        WatchState::Idle => WatchAction::AwaitChange,
        WatchState::Debouncing => WatchAction::Sleep(DEBOUNCE_MS),
        WatchState::Draining => WatchAction::Drain(DRAIN_IDLE_MS),
        WatchState::Loading => WatchAction::Load,
        WatchState::Acquiring(_) => WatchAction::Acquire(WRITE_WAIT_MS),
        WatchState::Pausing(_) => WatchAction::Sleep(RETRY_PAUSE_MS),
        WatchState::Retrying(_) => WatchAction::Acquire(RETRY_WAIT_MS),
        WatchState::Stopped => WatchAction::Stop,
    }
}

/// The watcher: the state that follows `state` on `event`, and what to do
/// then. An event that the state does not wait for changes nothing.
pub open spec fn watch_transition(state: WatchState, event: WatchEvent) -> (
    WatchState,
    WatchAction,
) {
    match (state, event) {
        (WatchState::Stopped, _) => (WatchState::Stopped, WatchAction::Stop),
        (_, WatchEvent::Shutdown) => (WatchState::Stopped, WatchAction::Stop),
        (WatchState::Idle, WatchEvent::Modified) => (
            WatchState::Debouncing,
            WatchAction::Sleep(DEBOUNCE_MS),
        ),
        (WatchState::Debouncing, WatchEvent::Quiet) => (
            WatchState::Draining,
            WatchAction::Drain(DRAIN_IDLE_MS),
        ),
        (WatchState::Draining, WatchEvent::Modified) => (
            WatchState::Draining,
            WatchAction::Drain(DRAIN_IDLE_MS),
        ),
        (WatchState::Draining, WatchEvent::OtherChange) => (WatchState::Loading, WatchAction::Load),
        (WatchState::Draining, WatchEvent::Quiet) => (WatchState::Loading, WatchAction::Load),
        (WatchState::Loading, WatchEvent::Loaded(policy)) => (
            WatchState::Acquiring(policy),
            WatchAction::ResetEpochAndAcquire(WRITE_WAIT_MS),
        ),
        (WatchState::Loading, WatchEvent::LoadFailed) => (
            WatchState::Idle,
            WatchAction::AwaitChange,
        ),
        (WatchState::Acquiring(policy), WatchEvent::WriteGranted) => (
            WatchState::Idle,
            WatchAction::Install(policy),
        ),
        (WatchState::Acquiring(policy), WatchEvent::WriteTimedOut) => (
            WatchState::Pausing(policy),
            WatchAction::Sleep(RETRY_PAUSE_MS),
        ),
        (WatchState::Pausing(policy), WatchEvent::Quiet) => (
            WatchState::Retrying(policy),
            WatchAction::Acquire(RETRY_WAIT_MS),
        ),
        (WatchState::Retrying(policy), WatchEvent::WriteGranted) => (
            WatchState::Idle,
            WatchAction::Install(policy),
        ),
        (WatchState::Retrying(_), WatchEvent::WriteTimedOut) => (
            WatchState::Idle,
            WatchAction::AwaitChange,
        ),
        (state, _) => (state, standing_action(state)),
    }
}

/// One step of the watcher.
pub fn watch_step(state: WatchState, event: WatchEvent) -> (r: (WatchState, WatchAction))
    ensures
        r == watch_transition(state, event),
{
    match (state, event) {
        (WatchState::Stopped, _) => (WatchState::Stopped, WatchAction::Stop),
        (_, WatchEvent::Shutdown) => (WatchState::Stopped, WatchAction::Stop),
        (WatchState::Idle, WatchEvent::Modified) => (
            WatchState::Debouncing,
            WatchAction::Sleep(DEBOUNCE_MS),
        ),
        (WatchState::Idle, _) => (WatchState::Idle, WatchAction::AwaitChange),
        (WatchState::Debouncing, WatchEvent::Quiet) => (
            WatchState::Draining,
            WatchAction::Drain(DRAIN_IDLE_MS),
        ),
        (WatchState::Debouncing, _) => (WatchState::Debouncing, WatchAction::Sleep(DEBOUNCE_MS)),
        (WatchState::Draining, WatchEvent::Modified) => (
            WatchState::Draining,
            WatchAction::Drain(DRAIN_IDLE_MS),
        ),
        (WatchState::Draining, WatchEvent::OtherChange) => (WatchState::Loading, WatchAction::Load),
        (WatchState::Draining, WatchEvent::Quiet) => (WatchState::Loading, WatchAction::Load),
        (WatchState::Draining, _) => (WatchState::Draining, WatchAction::Drain(DRAIN_IDLE_MS)),
        (WatchState::Loading, WatchEvent::Loaded(policy)) => (
            WatchState::Acquiring(policy),
            WatchAction::ResetEpochAndAcquire(WRITE_WAIT_MS),
        ),
        (WatchState::Loading, WatchEvent::LoadFailed) => (
            WatchState::Idle,
            WatchAction::AwaitChange,
        ),
        (WatchState::Loading, _) => (WatchState::Loading, WatchAction::Load),
        (WatchState::Acquiring(policy), WatchEvent::WriteGranted) => (
            WatchState::Idle,
            WatchAction::Install(policy),
        ),
        (WatchState::Acquiring(policy), WatchEvent::WriteTimedOut) => (
            WatchState::Pausing(policy),
            WatchAction::Sleep(RETRY_PAUSE_MS),
        ),
        (WatchState::Acquiring(policy), _) => (
            WatchState::Acquiring(policy),
            WatchAction::Acquire(WRITE_WAIT_MS),
        ),
        (WatchState::Pausing(policy), WatchEvent::Quiet) => (
            WatchState::Retrying(policy),
            WatchAction::Acquire(RETRY_WAIT_MS),
        ),
        (WatchState::Pausing(policy), _) => (
            WatchState::Pausing(policy),
            WatchAction::Sleep(RETRY_PAUSE_MS),
        ),
        (WatchState::Retrying(policy), WatchEvent::WriteGranted) => (
            WatchState::Idle,
            WatchAction::Install(policy),
        ),
        (WatchState::Retrying(_), WatchEvent::WriteTimedOut) => (
            WatchState::Idle,
            WatchAction::AwaitChange,
        ),
        (WatchState::Retrying(policy), _) => (
            WatchState::Retrying(policy),
            WatchAction::Acquire(RETRY_WAIT_MS),
        ),
    }
}

/// The watcher of one policy file.
pub struct ConfigWatcher {
    state: WatchState,
}

impl ConfigWatcher {
    pub closed spec fn state(&self) -> WatchState {
        self.state
    }

    /// A watcher at rest: the first thing to do is to wait for a change.
    pub fn new() -> (watcher: ConfigWatcher)
        ensures
            watcher.state() == WatchState::Idle,
    {
        ConfigWatcher { state: WatchState::Idle }
    }

    /// Whether the watcher has stopped.
    pub fn is_stopped(&self) -> (stopped: bool)
        ensures
            stopped == (self.state() is Stopped),
    {
        match self.state {
            WatchState::Stopped => true,
            _ => false,
        }
    }

    /// Takes note of `event` and says what to do next.
    pub fn advance(&mut self, event: WatchEvent) -> (action: WatchAction)
        ensures
            (final(self).state(), action) == watch_transition(old(self).state(), event),
    {
        let mut state = WatchState::Stopped;
        core::mem::swap(&mut self.state, &mut state);
        let (next, action) = watch_step(state, event);
        self.state = next;
        action
    }
}

/// The states in which a new policy is on its way in: the epoch token has
/// been reset for it and it waits for exclusive access.
pub open spec fn pending(state: WatchState) -> Option<Config> {
    match state {
        WatchState::Acquiring(policy) => Some(policy),
        WatchState::Pausing(policy) => Some(policy),
        WatchState::Retrying(policy) => Some(policy),
        _ => None,
    }
}

/// A policy is installed only when exclusive access is granted, and it is
/// the policy that was pending.
pub proof fn lemma_install_needs_grant(state: WatchState, event: WatchEvent, policy: Config)
    requires
        watch_transition(state, event).1 == WatchAction::Install(policy),
    ensures
        event is WriteGranted,
        state is Acquiring || state is Retrying,
        pending(state) == Some(policy),
{
}

/// A file that cannot be read as a policy changes nothing: whatever the
/// state, no policy is installed and the epoch token is left alone; a
/// watcher that was reading the file goes back to rest.
pub proof fn lemma_failed_load_keeps_policy(state: WatchState)
    ensures
        !(watch_transition(state, WatchEvent::LoadFailed).1 is Install),
        !(watch_transition(state, WatchEvent::LoadFailed).1 is ResetEpochAndAcquire),
        state is Loading ==> watch_transition(state, WatchEvent::LoadFailed) == (
            WatchState::Idle,
            WatchAction::AwaitChange,
        ),
{
}

/// A policy becomes pending only by being loaded, and then the epoch token
/// is reset before anything else: connections under the old policy are
/// cancelled before the new one is installed.
pub proof fn lemma_reset_precedes_install(state: WatchState, event: WatchEvent)
    requires
        pending(state).is_none(),
        pending(watch_transition(state, event).0).is_some(),
    ensures
        state is Loading,
        event matches WatchEvent::Loaded(policy) && pending(watch_transition(state, event).0)
            == Some(policy),
        watch_transition(state, event).1 == WatchAction::ResetEpochAndAcquire(WRITE_WAIT_MS),
{
}

/// While a policy is on its way in, no other takes its place: a policy that
/// is loaded in the meantime is not taken up.
pub proof fn lemma_pending_policy_is_kept(state: WatchState, event: WatchEvent)
    requires
        pending(state).is_some(),
        pending(watch_transition(state, event).0).is_some(),
    ensures
        pending(watch_transition(state, event).0) == pending(state),
{
}

/// Exclusive access is asked for at most twice for one policy: when the
/// retry times out too, the policy is dropped and the watcher rests.
pub proof fn lemma_second_timeout_gives_up(policy: Config)
    ensures
        watch_transition(WatchState::Retrying(policy), WatchEvent::WriteTimedOut) == (
            WatchState::Idle,
            WatchAction::AwaitChange,
        ),
{
}

/// Shutdown stops the watcher from every state, and a stopped watcher
/// stays stopped.
pub proof fn lemma_shutdown_stops(state: WatchState, event: WatchEvent)
    ensures
        watch_transition(state, WatchEvent::Shutdown) == (WatchState::Stopped, WatchAction::Stop),
        state is Stopped ==> watch_transition(state, event) == (
            WatchState::Stopped,
            WatchAction::Stop,
        ),
{
}

/// The state of a watcher that started at rest and was told `events`.
pub open spec fn watch_after(events: Seq<WatchEvent>) -> WatchState
    decreases events.len(),
{
    if events.len() == 0 {
        WatchState::Idle
    } else {
        watch_transition(watch_after(events.drop_last()), events.last()).0
    }
}

/// Event `at` of `events` brought `policy` from the file, and in answer the
/// watcher had the epoch token reset.
pub open spec fn taken_up_at(events: Seq<WatchEvent>, at: int, policy: Config) -> bool {
    &&& 0 <= at < events.len()
    &&& events[at] == WatchEvent::Loaded(policy)
    &&& watch_transition(watch_after(events.take(at)), events[at]).1
        == WatchAction::ResetEpochAndAcquire(WRITE_WAIT_MS)
}

/// A policy that is on its way in was read from the file, and the epoch
/// token was reset for it.
pub proof fn lemma_pending_policy_was_taken_up(events: Seq<WatchEvent>, policy: Config) -> (at: int)
    requires
        pending(watch_after(events)) == Some(policy),
    ensures
        taken_up_at(events, at, policy),
    decreases events.len(),
{
    let before = watch_after(events.drop_last());
    let last = events.len() - 1;
    if pending(before).is_some() {
        lemma_pending_policy_is_kept(before, events.last());
        let at = lemma_pending_policy_was_taken_up(events.drop_last(), policy);
        assert(events.drop_last().take(at) == events.take(at));
        assert(events.drop_last()[at] == events[at]);
        at
    } else {
        lemma_reset_precedes_install(before, events.last());
        assert(events.take(last) == events.drop_last());
        last
    }
}

/// Whatever a watcher is told from the start, it installs a policy only if
/// that policy was read from the file before, and the epoch token was reset
/// for it then: connections under the old policy are cancelled before the
/// new one takes its place, and nothing is installed that was not loaded.
pub proof fn lemma_installed_policy_was_taken_up(
    events: Seq<WatchEvent>,
    next: WatchEvent,
    policy: Config,
)
    requires
        watch_transition(watch_after(events), next).1 == WatchAction::Install(policy),
    ensures
        exists|at: int| taken_up_at(events, at, policy),
{
    lemma_install_needs_grant(watch_after(events), next, policy);
    let at = lemma_pending_policy_was_taken_up(events, policy);
}

} // verus!
