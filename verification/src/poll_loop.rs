//! The background poll loop: its count of outstanding operations, and the
//! decisions of the thread that polls the device while that count is not
//! zero.
//!
//! The thread itself, its parking, the shared atomics and the device calls
//! belong to the caller, which performs each [`LoopAction`] and reports what
//! it observed as the next [`LoopEvent`].

use vstd::prelude::*;
use crate::future_poll::{count_held, lemma_count_held_update, poll_step, release_step, TokenChange};

verus! {

/// The outstanding-operation count after a [`TokenChange`] is applied to
/// `count`, or `None` where the change would leave the range of `usize`
/// (more than `usize::MAX` outstanding operations, or a token given back
/// that was never taken).
pub open spec fn count_after_change(count: usize, change: TokenChange) -> Option<usize> {
    match change {
        TokenChange::Keep => Some(count),
        TokenChange::Acquire => if count < usize::MAX {
            Some((count + 1) as usize)
        } else {
            None
        },
        TokenChange::Release => if count > 0 {
            Some((count - 1) as usize)
        } else {
            None
        },
    }
}

/// Applies a future's [`TokenChange`] to the poll loop's count of
/// outstanding operations; `None` reports the overflow or underflow that the
/// loop must never reach.
pub fn apply_token_change(count: usize, change: TokenChange) -> (r: Option<usize>)
    ensures
        r == count_after_change(count, change),
{
    match change {
        TokenChange::Keep => Some(count),
        TokenChange::Acquire => {
            if count < usize::MAX {
                Some(count + 1)
            } else {
                None
            }
        },
        TokenChange::Release => {
            if count > 0 {
                Some(count - 1)
            } else {
                None
            }
        },
    }
}

/// Law: a kept claim leaves the count alone; taking a token adds one and
/// fails exactly at `usize::MAX`; giving one back subtracts one and fails
/// exactly at zero.
pub proof fn lemma_count_change_arithmetic(count: usize)
    ensures
        count_after_change(count, TokenChange::Keep) == Some(count),
        count < usize::MAX ==> count_after_change(count, TokenChange::Acquire) == Some(
            (count + 1) as usize,
        ),
        count == usize::MAX ==> count_after_change(count, TokenChange::Acquire) is None,
        count > 0 ==> count_after_change(count, TokenChange::Release) == Some((count - 1) as usize),
        count == 0 ==> count_after_change(count, TokenChange::Release) is None,
{
}

/// Law: taking a token and giving it back leaves the count as it was.
pub proof fn lemma_acquire_then_release_restores(count: usize)
    requires
        count < usize::MAX,
    ensures
        count_after_change(count, TokenChange::Acquire) is Some,
        count_after_change(count_after_change(count, TokenChange::Acquire)->0, TokenChange::Release)
            == Some(count),
{
}

/// Law: while the count equals the number of futures that hold a token,
/// polling any one of them moves the count to the new number of holders;
/// giving a token back never underflows, and taking one fails only when
/// `usize::MAX` tokens are already out.
pub proof fn lemma_count_tracks_holders<T>(
    count: usize,
    holders: Seq<bool>,
    i: int,
    taken: Option<T>,
)
    requires
        0 <= i < holders.len(),
        count == count_held(holders),
    ensures
        ({
            let (h, _, change) = poll_step(holders[i], taken);
            &&& change == TokenChange::Release ==> count_after_change(count, change) is Some
            &&& (count_after_change(count, change) is None <==> (change == TokenChange::Acquire
                && count == usize::MAX))
            &&& count_after_change(count, change) matches Some(c) ==> c == count_held(
                holders.update(i, h),
            )
        }),
{
    crate::future_poll::lemma_poll_changes_token_count(holders, i, taken);
    lemma_held_counted(holders, i);
}

proof fn lemma_held_counted(holders: Seq<bool>, i: int)
    requires
        0 <= i < holders.len(),
    ensures
        holders[i] ==> count_held(holders) >= 1,
    decreases holders.len(),
{
    if i < holders.len() - 1 {
        lemma_held_counted(holders.drop_last(), i);
    }
}

proof fn lemma_count_held_bounds(holders: Seq<bool>)
    ensures
        count_held(holders) <= holders.len(),
        forall|i: int| 0 <= i < holders.len() && !holders[i] ==> count_held(holders) < holders.len(),
    decreases holders.len(),
{
    if holders.len() > 0 {
        lemma_count_held_bounds(holders.drop_last());
        assert forall|i: int| 0 <= i < holders.len() && !holders[i] implies count_held(holders)
            < holders.len() by {
            if i < holders.len() - 1 {
                assert(holders.drop_last()[i] == holders[i]);
            }
        }
    }
}

/// Something that changes a future's claim on the poll loop: a poll that
/// found a result (`found`) or not, or the future being dropped.
pub enum FutureTokenOp {
    Poll { future: int, found: bool },
    Drop { future: int },
}

/// The future that `op` concerns.
pub open spec fn future_of(op: FutureTokenOp) -> int {
    match op {
        FutureTokenOp::Poll { future, .. } => future,
        FutureTokenOp::Drop { future } => future,
    }
}

/// The token record of a future after `op`, and the change `op` makes.
pub open spec fn future_op_step(held: bool, op: FutureTokenOp) -> (bool, TokenChange) {
    match op {
        FutureTokenOp::Poll { found, .. } => {
            let (h, _, change) = poll_step::<()>(
                held,
                if found {
                    Some(())
                } else {
                    None
                },
            );
            (h, change)
        },
        FutureTokenOp::Drop { .. } => release_step(held),
    }
}

/// The poll loop's count and the futures' token records after `ops`, each
/// applied to the future it names and its change applied to the count;
/// the count is `None` once a change would leave the range of `usize`.
pub open spec fn run_future_ops(count: usize, holders: Seq<bool>, ops: Seq<FutureTokenOp>) -> (
    Option<usize>,
    Seq<bool>,
)
    decreases ops.len(),
{
    if ops.len() == 0 {
        (Some(count), holders)
    } else {
        let i = future_of(ops[0]);
        let (h, change) = future_op_step(holders[i], ops[0]);
        match count_after_change(count, change) {
            Some(next) => run_future_ops(next, holders.update(i, h), ops.drop_first()),
            None => (None, holders.update(i, h)),
        }
    }
}

/// Law: over any interleaving of polls and drops of the futures that share
/// one poll loop, a count that started equal to the number of futures
/// holding a token never overflows or underflows and ends equal to the
/// number of futures still holding one (those whose last poll was pending
/// and that are not dropped).
pub proof fn lemma_count_equals_pending_futures(
    count: usize,
    holders: Seq<bool>,
    ops: Seq<FutureTokenOp>,
)
    requires
        count == count_held(holders),
        holders.len() <= usize::MAX,
        forall|k: int| 0 <= k < ops.len() ==> 0 <= #[trigger] future_of(ops[k]) < holders.len(),
    ensures
        run_future_ops(count, holders, ops).0 == Some(
            count_held(run_future_ops(count, holders, ops).1) as usize,
        ),
    decreases ops.len(),
{
    if ops.len() > 0 {
        let i = future_of(ops[0]);
        assert(0 <= future_of(ops[0]) < holders.len());
        let (h, change) = future_op_step(holders[i], ops[0]);
        lemma_count_held_update(holders, i, h);
        lemma_count_held_bounds(holders);
        lemma_held_counted(holders, i);
        let next = count_after_change(count, change);
        assert(next == Some(count_held(holders.update(i, h)) as usize));
        let rest = ops.drop_first();
        assert forall|k: int| 0 <= k < rest.len() implies 0 <= #[trigger] future_of(rest[k])
            < holders.update(i, h).len() by {
            assert(rest[k] == ops[k + 1]);
        }
        lemma_count_equals_pending_futures(next->0, holders.update(i, h), rest);
    }
}

/// Something that happens to the tokens of one poll loop: a new token is
/// handed out, or the token with the given index is dropped.
pub enum TokenOp {
    Start,
    Drop { token: int },
}

/// The change that `op` makes to the count, and the liveness of the tokens
/// after it. A new token is live; dropping a live token ends it; an entry
/// naming a token that is not live (tokens are dropped once) changes
/// nothing.
pub open spec fn token_op_step(live: Seq<bool>, op: TokenOp) -> (TokenChange, Seq<bool>) {
    match op {
        TokenOp::Start => (TokenChange::Acquire, live.push(true)),
        TokenOp::Drop { token } => if 0 <= token < live.len() && live[token] {
            (TokenChange::Release, live.update(token, false))
        } else {
            (TokenChange::Keep, live)
        },
    }
}

/// The poll loop's count and the liveness of each token handed out so far,
/// after `ops`; the count is `None` once a change would leave `usize`.
pub open spec fn run_token_ops(count: usize, live: Seq<bool>, ops: Seq<TokenOp>) -> (
    Option<usize>,
    Seq<bool>,
)
    decreases ops.len(),
{
    if ops.len() == 0 {
        (Some(count), live)
    } else {
        let (change, live2) = token_op_step(live, ops[0]);
        match count_after_change(count, change) {
            Some(next) => run_token_ops(next, live2, ops.drop_first()),
            None => (None, live2),
        }
    }
}

/// Whether no token in `ops` is handed out while `usize::MAX` tokens are
/// live.
pub open spec fn tokens_fit(live: Seq<bool>, ops: Seq<TokenOp>) -> bool
    decreases ops.len(),
{
    ops.len() == 0 || ((ops[0] is Start ==> count_held(live) < usize::MAX) && tokens_fit(
        token_op_step(live, ops[0]).1,
        ops.drop_first(),
    ))
}

/// Law: over any sequence of tokens handed out and dropped in which no
/// token is handed out while `usize::MAX` are live, a count that started
/// equal to the number of live tokens never overflows or underflows and
/// ends equal to the number of tokens still live.
pub proof fn lemma_count_equals_live_tokens(count: usize, live: Seq<bool>, ops: Seq<TokenOp>)
    requires
        count == count_held(live),
        tokens_fit(live, ops),
    ensures
        run_token_ops(count, live, ops).0 == Some(count_held(run_token_ops(count, live, ops).1) as usize),
    decreases ops.len(),
{
    if ops.len() > 0 {
        let rest = ops.drop_first();
        match ops[0] {
            TokenOp::Start => {
                assert(live.push(true).drop_last() =~= live);
                lemma_count_equals_live_tokens((count + 1) as usize, live.push(true), rest);
            },
            TokenOp::Drop { token } => {
                if 0 <= token < live.len() && live[token] {
                    lemma_count_held_update(live, token, false);
                    lemma_held_counted(live, token);
                    lemma_count_equals_live_tokens(
                        (count - 1) as usize,
                        live.update(token, false),
                        rest,
                    );
                } else {
                    lemma_count_equals_live_tokens(count, live, rest);
                }
            },
        }
    }
}

/// Where the poll thread stands: which observation it waits for next.
#[derive(PartialEq, Eq, Structural, Clone, Copy, Debug)]
pub enum LoopState {
    /// About to read the shutdown flag (outer loop).
    CheckDone,
    /// About to read the outstanding-operation count (inner loop).
    CheckWork,
    /// About to take a strong reference to the device.
    AwaitDevice,
    /// Polling the device, blocking until its work is done.
    Polling,
    /// Parked until woken.
    Parked,
    /// The thread has ended.
    Stopped,
}

/// What the caller observed after performing the last action.
#[derive(PartialEq, Eq, Structural, Clone, Copy, Debug)]
pub enum LoopEvent {
    /// The value read from the shutdown flag.
    DoneFlag(bool),
    /// The value read from the outstanding-operation count.
    WorkCount(usize),
    /// Whether a strong reference to the device could still be had.
    DeviceUpgraded(bool),
    /// A blocking poll of the device returned.
    Polled,
    /// The parked thread was woken.
    Unparked,
}

/// What the caller must do next on the poll thread.
#[derive(PartialEq, Eq, Structural, Clone, Copy, Debug)]
pub enum LoopAction {
    /// Read the shutdown flag.
    ReadDoneFlag,
    /// Read the outstanding-operation count.
    ReadWorkCount,
    /// Try to turn the thread's weak reference into a strong one.
    UpgradeDevice,
    /// Poll the device, waiting for its submitted work, then drop the strong
    /// reference.
    PollWait,
    /// Park the thread.
    Park,
    /// The device is gone: set the shutdown flag and end the thread.
    MarkDoneAndStop,
    /// Shutdown was asked for: drop the weak reference and end the thread.
    ReleaseDeviceAndStop,
}

/// The state the thread starts in and its first action.
pub open spec fn loop_start() -> (LoopState, LoopAction) {
    (LoopState::CheckDone, LoopAction::ReadDoneFlag)
}

/// Whether `event` is an observation that `state` waits for.
pub open spec fn loop_accepts(state: LoopState, event: LoopEvent) -> bool {
    match (state, event) {
        (LoopState::CheckDone, LoopEvent::DoneFlag(_)) => true,
        (LoopState::CheckWork, LoopEvent::WorkCount(_)) => true,
        (LoopState::AwaitDevice, LoopEvent::DeviceUpgraded(_)) => true,
        (LoopState::Polling, LoopEvent::Polled) => true,
        (LoopState::Parked, LoopEvent::Unparked) => true,
        _ => false,
    }
}

/// One decision of the poll thread. It reads the shutdown flag before each
/// round: while the flag is clear it polls the device if the count of
/// outstanding operations is not zero, and parks if it is zero; after a
/// poll, and once woken, it reads the flag again. It ends when it reads the
/// flag set (so dropping the loop ends the thread even while operations are
/// outstanding), or when the device has been dropped everywhere else, in
/// which case it sets the flag itself.
pub open spec fn loop_step(state: LoopState, event: LoopEvent) -> (LoopState, LoopAction) {
    match (state, event) {
        (LoopState::CheckDone, LoopEvent::DoneFlag(true)) => (
            LoopState::Stopped,
            LoopAction::ReleaseDeviceAndStop,
        ),
        (LoopState::CheckDone, LoopEvent::DoneFlag(false)) => (
            LoopState::CheckWork,
            LoopAction::ReadWorkCount,
        ),
        (LoopState::CheckWork, LoopEvent::WorkCount(n)) => if n == 0 {
            (LoopState::Parked, LoopAction::Park)
        } else {
            (LoopState::AwaitDevice, LoopAction::UpgradeDevice)
        },
        (LoopState::AwaitDevice, LoopEvent::DeviceUpgraded(true)) => (
            LoopState::Polling,
            LoopAction::PollWait,
        ),
        (LoopState::AwaitDevice, LoopEvent::DeviceUpgraded(false)) => (
            LoopState::Stopped,
            LoopAction::MarkDoneAndStop,
        ),
        (LoopState::Polling, LoopEvent::Polled) => (LoopState::CheckDone, LoopAction::ReadDoneFlag),
        (LoopState::Parked, LoopEvent::Unparked) => (LoopState::CheckDone, LoopAction::ReadDoneFlag),
        // no other pair is ever stepped (see `loop_accepts`); the thread ends
        _ => (LoopState::Stopped, LoopAction::ReleaseDeviceAndStop),
    }
}

/// The state the poll thread starts in, with its first action.
pub fn loop_begin() -> (r: (LoopState, LoopAction))
    ensures
        r == loop_start(),
{
    (LoopState::CheckDone, LoopAction::ReadDoneFlag)
}

/// Whether `state` waits for `event`; [`loop_next`] takes only such pairs.
pub fn loop_accepts_event(state: LoopState, event: LoopEvent) -> (b: bool)
    ensures
        b == loop_accepts(state, event),
{
    match (state, event) {
        (LoopState::CheckDone, LoopEvent::DoneFlag(_)) => true,
        (LoopState::CheckWork, LoopEvent::WorkCount(_)) => true,
        (LoopState::AwaitDevice, LoopEvent::DeviceUpgraded(_)) => true,
        (LoopState::Polling, LoopEvent::Polled) => true,
        (LoopState::Parked, LoopEvent::Unparked) => true,
        _ => false,
    }
}

/// The poll thread's next state and action after observing `event`.
pub fn loop_next(state: LoopState, event: LoopEvent) -> (r: (LoopState, LoopAction))
    requires
        loop_accepts(state, event),
    ensures
        r == loop_step(state, event),
{
    match (state, event) {
        (LoopState::CheckDone, LoopEvent::DoneFlag(done)) => {
            if done {
                (LoopState::Stopped, LoopAction::ReleaseDeviceAndStop)
            } else {
                (LoopState::CheckWork, LoopAction::ReadWorkCount)
            }
        },
        (LoopState::CheckWork, LoopEvent::WorkCount(n)) => {
            if n == 0 {
                (LoopState::Parked, LoopAction::Park)
            } else {
                (LoopState::AwaitDevice, LoopAction::UpgradeDevice)
            }
        },
        (LoopState::AwaitDevice, LoopEvent::DeviceUpgraded(alive)) => {
            if alive {
                (LoopState::Polling, LoopAction::PollWait)
            } else {
                (LoopState::Stopped, LoopAction::MarkDoneAndStop)
            }
        },
        _ => (LoopState::CheckDone, LoopAction::ReadDoneFlag),
    }
}


/// Law: every waiting state takes every value of the observation it waits
/// for (any flag value, any count, either answer about the device), takes
/// no other kind of observation, and the stopped thread takes none.
pub proof fn lemma_accepts_every_value(done: bool, count: usize, alive: bool, event: LoopEvent)
    ensures
        loop_accepts(LoopState::CheckDone, event) ==> event is DoneFlag,
        loop_accepts(LoopState::CheckWork, event) ==> event is WorkCount,
        loop_accepts(LoopState::AwaitDevice, event) ==> event is DeviceUpgraded,
        loop_accepts(LoopState::Polling, event) ==> event is Polled,
        loop_accepts(LoopState::Parked, event) ==> event is Unparked,
        loop_accepts(LoopState::CheckDone, LoopEvent::DoneFlag(done)),
        loop_accepts(LoopState::CheckWork, LoopEvent::WorkCount(count)),
        loop_accepts(LoopState::AwaitDevice, LoopEvent::DeviceUpgraded(alive)),
        loop_accepts(LoopState::Polling, LoopEvent::Polled),
        loop_accepts(LoopState::Parked, LoopEvent::Unparked),
        !loop_accepts(LoopState::Stopped, event),
{
}

/// Law: the thread starts by reading the shutdown flag, and takes either
/// value of it.
pub proof fn lemma_start_reads_flag(done: bool)
    ensures
        loop_start().1 == LoopAction::ReadDoneFlag,
        loop_accepts(loop_start().0, LoopEvent::DoneFlag(done)),
{
}

/// Law: the thread never gets stuck: after any step it takes, the
/// observation that its action produces is accepted in the state it moved
/// to, whatever value is observed; and after a stopping action nothing is.
pub proof fn lemma_action_fits_next_state(state: LoopState, event: LoopEvent, next_event: LoopEvent)
    requires
        loop_accepts(state, event),
    ensures
        ({
            let (next, action) = loop_step(state, event);
            &&& action == LoopAction::ReadDoneFlag ==> forall|b: bool|
                #[trigger] loop_accepts(next, LoopEvent::DoneFlag(b))
            &&& action == LoopAction::ReadWorkCount ==> forall|n: usize|
                #[trigger] loop_accepts(next, LoopEvent::WorkCount(n))
            &&& action == LoopAction::UpgradeDevice ==> forall|b: bool|
                #[trigger] loop_accepts(next, LoopEvent::DeviceUpgraded(b))
            &&& action == LoopAction::PollWait ==> loop_accepts(next, LoopEvent::Polled)
            &&& action == LoopAction::Park ==> loop_accepts(next, LoopEvent::Unparked)
            &&& is_stop(action) ==> !loop_accepts(next, next_event)
        }),
{
}

/// Law: what the thread does is decided by what it observed. It polls
/// exactly when it got a live device; it goes for the device exactly when
/// it read a non-zero count, whatever that count is; it parks exactly when
/// the count read was zero; it ends exactly when it read the flag set or
/// found the device gone; and after a poll or a wake-up it reads the flag.
pub proof fn lemma_action_follows_observation(state: LoopState, event: LoopEvent)
    requires
        loop_accepts(state, event),
    ensures
        ({
            let (next, action) = loop_step(state, event);
            &&& (action == LoopAction::PollWait) == (event == LoopEvent::DeviceUpgraded(true))
            &&& (action == LoopAction::UpgradeDevice) == (event matches LoopEvent::WorkCount(n)
                && n > 0)
            &&& (action == LoopAction::Park) == (event == LoopEvent::WorkCount(0))
            &&& (action == LoopAction::ReleaseDeviceAndStop) == (event == LoopEvent::DoneFlag(true))
            &&& (action == LoopAction::MarkDoneAndStop) == (event == LoopEvent::DeviceUpgraded(false))
            &&& (action == LoopAction::ReadWorkCount) == (event == LoopEvent::DoneFlag(false))
            &&& (action == LoopAction::ReadDoneFlag) == (event == LoopEvent::Polled || event
                == LoopEvent::Unparked)
            &&& is_stop(action) <==> next == LoopState::Stopped
        }),
{
}

/// Law: a non-zero count of outstanding operations, however large, always
/// sends the thread to the device and never to parking; only a count of
/// zero parks it.
pub proof fn lemma_any_work_is_polled(count: usize)
    ensures
        loop_accepts(LoopState::CheckWork, LoopEvent::WorkCount(count)),
        count > 0 ==> loop_step(LoopState::CheckWork, LoopEvent::WorkCount(count)) == (
            LoopState::AwaitDevice,
            LoopAction::UpgradeDevice,
        ),
        count == 0 ==> loop_step(LoopState::CheckWork, LoopEvent::WorkCount(count)) == (
            LoopState::Parked,
            LoopAction::Park,
        ),
{
}

/// The state reached and the actions taken when the thread, starting in
/// `state`, observes `events` in turn.
pub open spec fn loop_run(state: LoopState, events: Seq<LoopEvent>) -> (LoopState, Seq<LoopAction>)
    decreases events.len(),
{
    if events.len() == 0 {
        (state, Seq::empty())
    } else {
        let (next, action) = loop_step(state, events[0]);
        let (last, actions) = loop_run(next, events.drop_first());
        (last, seq![action] + actions)
    }
}

/// Whether each of `events`, in turn, is one that the thread, starting in
/// `state`, waits for.
pub open spec fn loop_run_accepted(state: LoopState, events: Seq<LoopEvent>) -> bool
    decreases events.len(),
{
    events.len() == 0 || (loop_accepts(state, events[0]) && loop_run_accepted(
        loop_step(state, events[0]).0,
        events.drop_first(),
    ))
}

/// Whether `action` ends the thread.
pub open spec fn is_stop(action: LoopAction) -> bool {
    action == LoopAction::MarkDoneAndStop || action == LoopAction::ReleaseDeviceAndStop
}

/// The position of a state in the busy cycle: flag, count, device, poll.
pub open spec fn busy_phase(state: LoopState) -> int {
    match state {
        LoopState::CheckDone => 0,
        LoopState::CheckWork => 1,
        LoopState::AwaitDevice => 2,
        LoopState::Polling => 3,
        _ => 4,
    }
}

/// Whether `event` says there is work and nothing to stop for: the flag is
/// clear, the count is not zero, the device is alive.
pub open spec fn busy_event(event: LoopEvent) -> bool {
    match event {
        LoopEvent::DoneFlag(done) => !done,
        LoopEvent::WorkCount(n) => n > 0,
        LoopEvent::DeviceUpgraded(alive) => alive,
        LoopEvent::Polled => true,
        LoopEvent::Unparked => false,
    }
}

/// What one action of a run says about the events around it.
pub open spec fn action_facts(state: LoopState, events: Seq<LoopEvent>, actions: Seq<LoopAction>, i: int) -> bool {
    let a = actions[i];
    &&& a == LoopAction::PollWait ==> {
        &&& events[i] == LoopEvent::DeviceUpgraded(true)
        &&& i == 0 ==> state == LoopState::AwaitDevice
        &&& i > 0 ==> (events[i - 1] matches LoopEvent::WorkCount(n) && n > 0)
        &&& i == 1 ==> state == LoopState::CheckWork
        &&& i > 1 ==> events[i - 2] == LoopEvent::DoneFlag(false)
        &&& i + 1 < events.len() ==> actions[i + 1] == LoopAction::ReadDoneFlag
    }
    &&& a == LoopAction::Park ==> events[i] == LoopEvent::WorkCount(0)
    &&& is_stop(a) ==> (events[i] == LoopEvent::DoneFlag(true) || events[i]
        == LoopEvent::DeviceUpgraded(false)) && i == events.len() - 1
    &&& events[i] == LoopEvent::DoneFlag(true) ==> a == LoopAction::ReleaseDeviceAndStop
}

proof fn lemma_run_facts(state: LoopState, events: Seq<LoopEvent>)
    requires
        loop_run_accepted(state, events),
    ensures
        loop_run(state, events).1.len() == events.len(),
        forall|i: int|
            0 <= i < events.len() ==> #[trigger] action_facts(
                state,
                events,
                loop_run(state, events).1,
                i,
            ),
    decreases events.len(),
{
    if events.len() > 0 {
        let (next, action) = loop_step(state, events[0]);
        let rest = events.drop_first();
        lemma_run_facts(next, rest);
        let acts = loop_run(state, events).1;
        let rest_acts = loop_run(next, rest).1;
        assert(acts =~= seq![action] + rest_acts);
        assert(rest.len() > 0 ==> loop_accepts(next, rest[0])) by {
            if rest.len() > 0 {
                assert(loop_run_accepted(next, rest));
            }
        }
        assert forall|i: int| 0 <= i < events.len() implies #[trigger] action_facts(
            state,
            events,
            acts,
            i,
        ) by {
            if i == 0 {
                if action == LoopAction::PollWait && rest.len() > 0 {
                    assert(next == LoopState::Polling);
                    assert(rest[0] == LoopEvent::Polled);
                    assert(acts[1] == rest_acts[0]);
                }
            } else {
                assert(action_facts(next, rest, rest_acts, i - 1));
                assert(acts[i] == rest_acts[i - 1]);
                assert(events[i] == rest[i - 1]);
                if i + 1 < events.len() {
                    assert(acts[i + 1] == rest_acts[i]);
                }
                if i - 1 > 0 {
                    assert(events[i - 1] == rest[i - 2]);
                }
                if i - 1 > 1 {
                    assert(events[i - 2] == rest[i - 3]);
                }
            }
        }
    }
}

/// Law: the thread polls the device only right after it read the shutdown
/// flag clear, then a non-zero count of outstanding operations, then got a
/// live device.
pub proof fn lemma_polls_only_with_work(events: Seq<LoopEvent>)
    requires
        loop_run_accepted(loop_start().0, events),
    ensures
        forall|i: int|
            0 <= i < events.len() && #[trigger] loop_run(loop_start().0, events).1[i]
                == LoopAction::PollWait ==> i >= 2 && events[i] == LoopEvent::DeviceUpgraded(true)
                && (events[i - 1] matches LoopEvent::WorkCount(n) && n > 0) && events[i - 2]
                == LoopEvent::DoneFlag(false),
{
    lemma_run_facts(loop_start().0, events);
    assert forall|i: int|
        0 <= i < events.len() && #[trigger] loop_run(loop_start().0, events).1[i]
            == LoopAction::PollWait implies i >= 2 && events[i] == LoopEvent::DeviceUpgraded(true)
            && (events[i - 1] matches LoopEvent::WorkCount(n) && n > 0) && events[i - 2]
            == LoopEvent::DoneFlag(false) by {
        assert(action_facts(loop_start().0, events, loop_run(loop_start().0, events).1, i));
    }
}

/// Law: the loop is conservative: in any run, the thread parks only right
/// after it read a count of zero outstanding operations.
pub proof fn lemma_parks_only_when_idle(events: Seq<LoopEvent>)
    requires
        loop_run_accepted(loop_start().0, events),
    ensures
        forall|i: int|
            0 <= i < events.len() && #[trigger] loop_run(loop_start().0, events).1[i]
                == LoopAction::Park ==> events[i] == LoopEvent::WorkCount(0),
{
    lemma_run_facts(loop_start().0, events);
    assert forall|i: int|
        0 <= i < events.len() && #[trigger] loop_run(loop_start().0, events).1[i]
            == LoopAction::Park implies events[i] == LoopEvent::WorkCount(0) by {
        assert(action_facts(loop_start().0, events, loop_run(loop_start().0, events).1, i));
    }
}

/// Law: the thread ends only when it reads the shutdown flag set or finds
/// the device dropped everywhere else, and nothing follows its end.
pub proof fn lemma_stops_only_on_shutdown_or_lost_device(events: Seq<LoopEvent>)
    requires
        loop_run_accepted(loop_start().0, events),
    ensures
        forall|i: int|
            0 <= i < events.len() && is_stop(#[trigger] loop_run(loop_start().0, events).1[i]) ==> (
            events[i] == LoopEvent::DoneFlag(true) || events[i] == LoopEvent::DeviceUpgraded(false))
                && i == events.len() - 1,
{
    lemma_run_facts(loop_start().0, events);
    assert forall|i: int|
        0 <= i < events.len() && is_stop(#[trigger] loop_run(loop_start().0, events).1[i]) implies (
        events[i] == LoopEvent::DoneFlag(true) || events[i] == LoopEvent::DeviceUpgraded(false)) && i
            == events.len() - 1 by {
        assert(action_facts(loop_start().0, events, loop_run(loop_start().0, events).1, i));
    }
}

/// Law: shutdown is never missed between polls: after each poll of the
/// device the thread's next action is to read the shutdown flag, so between
/// any two polls it reads the flag.
pub proof fn lemma_reads_shutdown_between_polls(events: Seq<LoopEvent>)
    requires
        loop_run_accepted(loop_start().0, events),
    ensures
        forall|i: int|
            0 <= i && i + 1 < events.len() && #[trigger] loop_run(loop_start().0, events).1[i]
                == LoopAction::PollWait ==> loop_run(loop_start().0, events).1[i + 1]
                == LoopAction::ReadDoneFlag,
{
    lemma_run_facts(loop_start().0, events);
    assert forall|i: int|
        0 <= i && i + 1 < events.len() && #[trigger] loop_run(loop_start().0, events).1[i]
            == LoopAction::PollWait implies loop_run(loop_start().0, events).1[i + 1]
            == LoopAction::ReadDoneFlag by {
        assert(action_facts(loop_start().0, events, loop_run(loop_start().0, events).1, i));
    }
}

/// Law: the moment the thread reads the shutdown flag set it ends, whatever
/// work is still counted, and it does nothing after that.
pub proof fn lemma_stops_when_shutdown_read(events: Seq<LoopEvent>)
    requires
        loop_run_accepted(loop_start().0, events),
    ensures
        forall|i: int|
            0 <= i < events.len() && #[trigger] events[i] == LoopEvent::DoneFlag(true) ==> loop_run(
                loop_start().0,
                events,
            ).1[i] == LoopAction::ReleaseDeviceAndStop && i == events.len() - 1,
{
    lemma_run_facts(loop_start().0, events);
    assert forall|i: int|
        0 <= i < events.len() && #[trigger] events[i] == LoopEvent::DoneFlag(true) implies loop_run(
            loop_start().0,
            events,
        ).1[i] == LoopAction::ReleaseDeviceAndStop && i == events.len() - 1 by {
        assert(action_facts(loop_start().0, events, loop_run(loop_start().0, events).1, i));
    }
}

/// Every four consecutive actions of a busy run include a poll.
proof fn lemma_busy_run_windows(state: LoopState, events: Seq<LoopEvent>)
    requires
        loop_run_accepted(state, events),
        0 <= busy_phase(state) < 4,
        forall|k: int| 0 <= k < events.len() ==> busy_event(#[trigger] events[k]),
    ensures
        forall|j: int|
            0 <= j && j + 3 < events.len() ==> #[trigger] window_has_poll(loop_run(state, events).1, j),
{
    lemma_busy_run(state, events);
    let acts = loop_run(state, events).1;
    assert forall|j: int| 0 <= j && j + 3 < events.len() implies #[trigger] window_has_poll(acts, j) by {
        lemma_window_meets_two(busy_phase(state) + j);
        assert((busy_phase(state) + j + 1) == busy_phase(state) + (j + 1));
        assert(acts[j + 1] == LoopAction::PollWait <==> (busy_phase(state) + (j + 1)) % 4 == 2);
        assert(acts[j + 2] == LoopAction::PollWait <==> (busy_phase(state) + (j + 2)) % 4 == 2);
        assert(acts[j + 3] == LoopAction::PollWait <==> (busy_phase(state) + (j + 3)) % 4 == 2);
    }
}

proof fn lemma_busy_run(state: LoopState, events: Seq<LoopEvent>)
    requires
        loop_run_accepted(state, events),
        0 <= busy_phase(state) < 4,
        forall|k: int| 0 <= k < events.len() ==> busy_event(#[trigger] events[k]),
    ensures
        loop_run(state, events).1.len() == events.len(),
        forall|i: int|
            0 <= i < events.len() ==> {
                let a = #[trigger] loop_run(state, events).1[i];
                &&& (a == LoopAction::PollWait <==> (busy_phase(state) + i) % 4 == 2)
                &&& a != LoopAction::Park
                &&& !is_stop(a)
            },
    decreases events.len(),
{
    lemma_run_facts(state, events);
    if events.len() > 0 {
        let (next, action) = loop_step(state, events[0]);
        let rest = events.drop_first();
        assert(busy_event(events[0]));
        assert(busy_phase(next) == (busy_phase(state) + 1) % 4);
        assert forall|k: int| 0 <= k < rest.len() implies busy_event(#[trigger] rest[k]) by {
            assert(rest[k] == events[k + 1]);
        }
        lemma_busy_run(next, rest);
        let acts = loop_run(state, events).1;
        let rest_acts = loop_run(next, rest).1;
        assert(acts =~= seq![action] + rest_acts);
        assert forall|i: int| 0 <= i < events.len() implies {
            let a = #[trigger] loop_run(state, events).1[i];
            &&& (a == LoopAction::PollWait <==> (busy_phase(state) + i) % 4 == 2)
            &&& a != LoopAction::Park
            &&& !is_stop(a)
        } by {
            if i > 0 {
                assert(acts[i] == rest_acts[i - 1]);
                assert((busy_phase(next) + (i - 1)) % 4 == (busy_phase(state) + i) % 4);
            }
        }
    }
}

/// Law: the thread keeps the device polled while there is work: in any run
/// from the start in which every observation says the flag is clear, the
/// count is not zero and the device is alive, the thread never parks or
/// ends, and every fourth action (flag, count, device, poll) is a poll.
pub proof fn lemma_keeps_polling_while_busy(events: Seq<LoopEvent>)
    requires
        loop_run_accepted(loop_start().0, events),
        forall|k: int| 0 <= k < events.len() ==> busy_event(#[trigger] events[k]),
    ensures
        forall|i: int|
            0 <= i < events.len() ==> {
                let a = #[trigger] loop_run(loop_start().0, events).1[i];
                &&& (a == LoopAction::PollWait <==> i % 4 == 2)
                &&& a != LoopAction::Park
                &&& !is_stop(a)
            },
{
    lemma_busy_run(loop_start().0, events);
}

proof fn lemma_run_len(state: LoopState, events: Seq<LoopEvent>)
    ensures
        loop_run(state, events).1.len() == events.len(),
    decreases events.len(),
{
    if events.len() > 0 {
        lemma_run_len(loop_step(state, events[0]).0, events.drop_first());
    }
}

/// Whether one of the four actions from index `j` on is a poll.
pub open spec fn window_has_poll(actions: Seq<LoopAction>, j: int) -> bool {
    ||| actions[j] == LoopAction::PollWait
    ||| actions[j + 1] == LoopAction::PollWait
    ||| actions[j + 2] == LoopAction::PollWait
    ||| actions[j + 3] == LoopAction::PollWait
}

proof fn lemma_window_meets_two(x: int)
    requires
        x >= 0,
    ensures
        x % 4 == 2 || (x + 1) % 4 == 2 || (x + 2) % 4 == 2 || (x + 3) % 4 == 2,
{
}

proof fn lemma_run_split(state: LoopState, events: Seq<LoopEvent>, p: int)
    requires
        0 <= p <= events.len(),
    ensures
        loop_run(state, events).1 =~= loop_run(state, events.take(p)).1 + loop_run(
            loop_run(state, events.take(p)).0,
            events.skip(p),
        ).1,
        loop_run_accepted(state, events) ==> loop_run_accepted(
            loop_run(state, events.take(p)).0,
            events.skip(p),
        ),
    decreases p,
{
    if p == 0 {
        assert(events.take(0) =~= Seq::<LoopEvent>::empty());
        assert(events.skip(0) =~= events);
    } else {
        let (next, action) = loop_step(state, events[0]);
        let rest = events.drop_first();
        lemma_run_split(next, rest, p - 1);
        assert(events.take(p).drop_first() =~= rest.take(p - 1));
        assert(events.take(p)[0] == events[0]);
        assert(events.skip(p) =~= rest.skip(p - 1));
    }
}

proof fn lemma_busy_suffix(acts: Seq<LoopAction>, p: int, suffix_acts: Seq<LoopAction>)
    requires
        0 <= p,
        acts.len() == p + suffix_acts.len(),
        forall|j: int| 0 <= j < suffix_acts.len() ==> acts[p + j] == #[trigger] suffix_acts[j],
        forall|j: int|
            0 <= j < suffix_acts.len() ==> #[trigger] suffix_acts[j] != LoopAction::Park
                && !is_stop(suffix_acts[j]),
        forall|j: int|
            0 <= j && j + 3 < suffix_acts.len() ==> #[trigger] window_has_poll(suffix_acts, j),
    ensures
        forall|i: int|
            p <= i < acts.len() ==> #[trigger] acts[i] != LoopAction::Park && !is_stop(acts[i]),
        forall|i: int|
            p <= i && i + 3 < acts.len() ==> #[trigger] window_has_poll(acts, i),
{
    assert forall|i: int| p <= i < acts.len() implies #[trigger] acts[i] != LoopAction::Park
        && !is_stop(acts[i]) by {
        assert(acts[p + (i - p)] == suffix_acts[i - p]);
    }
    assert forall|i: int| p <= i && i + 3 < acts.len() implies #[trigger] window_has_poll(acts, i) by {
        let q = i - p;
        assert(window_has_poll(suffix_acts, q));
        assert(acts[p + q] == suffix_acts[q]);
        assert(acts[p + (q + 1)] == suffix_acts[q + 1]);
        assert(acts[p + (q + 2)] == suffix_acts[q + 2]);
        assert(acts[p + (q + 3)] == suffix_acts[q + 3]);
    }
}

/// Law: the thread keeps the device polled from any point of a run on which
/// there is work: if, from the `p`-th observation on, every observation says
/// the flag is clear, the count is not zero and the device is alive, then
/// from there on the thread never parks or ends, and every four consecutive
/// actions include a poll. This covers a thread that parked earlier and was
/// woken when work arrived.
pub proof fn lemma_keeps_polling_from(events: Seq<LoopEvent>, p: int)
    requires
        loop_run_accepted(loop_start().0, events),
        0 <= p <= events.len(),
        forall|k: int| p <= k < events.len() ==> busy_event(#[trigger] events[k]),
    ensures
        forall|i: int|
            p <= i < events.len() ==> #[trigger] loop_run(loop_start().0, events).1[i]
                != LoopAction::Park && !is_stop(loop_run(loop_start().0, events).1[i]),
        forall|i: int|
            p <= i && i + 3 < events.len() ==> #[trigger] window_has_poll(loop_run(loop_start().0, events).1, i),
{
    let s0 = loop_start().0;
    lemma_run_split(s0, events, p);
    let mid = loop_run(s0, events.take(p)).0;
    let suffix = events.skip(p);
    let acts = loop_run(s0, events).1;
    let prefix_acts = loop_run(s0, events.take(p)).1;
    let suffix_acts = loop_run(mid, suffix).1;
    lemma_run_len(s0, events.take(p));
    lemma_run_len(s0, events);
    lemma_run_len(mid, suffix);
    if p < events.len() {
        assert(suffix[0] == events[p]);
        assert(busy_event(events[p]));
        assert(loop_run_accepted(mid, suffix));
        assert(loop_accepts(mid, suffix[0]));
        assert forall|k: int| 0 <= k < suffix.len() implies busy_event(#[trigger] suffix[k]) by {
            assert(suffix[k] == events[k + p]);
        }
        lemma_busy_run(mid, suffix);
        lemma_busy_run_windows(mid, suffix);
    }
    assert forall|j: int| 0 <= j < suffix_acts.len() implies acts[p + j] == #[trigger] suffix_acts[j] by {
        assert(acts[prefix_acts.len() + j] == suffix_acts[j]);
    }
    if p < events.len() {
        lemma_busy_suffix(acts, p, suffix_acts);
    }
}

} // verus!
