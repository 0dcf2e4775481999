//! One poll of a callback-backed future, and its claim on the poll loop.
//!
//! A future that finds no result asks the poll loop to keep polling the
//! device by taking a token; it gives the token back once it returns its
//! result.

use vstd::prelude::*;
use crate::completion::{Completion, CompletionView};

verus! {

/// What one poll of a future reports to its executor.
#[derive(PartialEq, Eq, Debug)]
pub enum PollOutcome<T> {
    /// The callback has run; this is its result.
    Ready(T),
    /// The callback has not run yet; the executor will be woken.
    Pending,
}

/// How one poll changes the future's claim on the poll loop.
#[derive(PartialEq, Eq, Structural, Clone, Copy, Debug)]
pub enum TokenChange {
    /// The claim stays as it was.
    Keep,
    /// Take a token: the poll loop gains one outstanding operation.
    Acquire,
    /// Give the token back: the poll loop loses one outstanding operation.
    Release,
}

/// The change of the number of held tokens that a [`TokenChange`] makes.
pub open spec fn token_delta(change: TokenChange) -> int {
    match change {
        TokenChange::Keep => 0,
        TokenChange::Acquire => 1,
        TokenChange::Release => -1,
    }
}

/// One poll of a future that holds a token (`held`) or not, given what it
/// took from its completion slot: whether it then holds a token, what it
/// reports, and how its claim changes.
///
/// With a result the future is ready and drops any token it holds; without
/// one it is pending and makes sure it holds a token, taking one only if it
/// held none.
pub open spec fn poll_step<T>(held: bool, taken: Option<T>) -> (bool, PollOutcome<T>, TokenChange) {
    match taken {
        Some(v) => (
            false,
            PollOutcome::Ready(v),
            if held {
                TokenChange::Release
            } else {
                TokenChange::Keep
            },
        ),
        None => (
            true,
            PollOutcome::Pending,
            if held {
                TokenChange::Keep
            } else {
                TokenChange::Acquire
            },
        ),
    }
}

/// A future that is dropped gives back its token if it holds one: whether it
/// then holds a token, and how its claim changes.
pub open spec fn release_step(held: bool) -> (bool, TokenChange) {
    (
        false,
        if held {
            TokenChange::Release
        } else {
            TokenChange::Keep
        },
    )
}

/// Law: a dropped future holds no token afterwards, and gives one back
/// exactly when it held one.
pub proof fn lemma_release_gives_back(held: bool)
    ensures
        !release_step(held).0,
        (release_step(held).1 == TokenChange::Release) == held,
        !held ==> release_step(held).1 == TokenChange::Keep,
{
}

/// A future's record of whether it holds a token on the poll loop.
pub struct PollTokenHolder {
    held: bool,
}

impl View for PollTokenHolder {
    type V = bool;

    closed spec fn view(&self) -> bool {
        self.held
    }
}

impl PollTokenHolder {
    /// A new future holds no token: the device is not polled on its behalf
    /// before it is first polled.
    pub fn new() -> (h: Self)
        ensures
            !h@,
    {
        PollTokenHolder { held: false }
    }

    /// Whether the future holds a token.
    pub fn holds_token(&self) -> (b: bool)
        ensures
            b == self@,
    {
        self.held
    }

    /// The future is being dropped: it gives back its token, if it holds one,
    /// so that the poll loop stops counting it.
    pub fn release(&mut self) -> (change: TokenChange)
        ensures
            (final(self)@, change) == release_step(old(self)@),
    {
        let change = if self.held {
            TokenChange::Release
        } else {
            TokenChange::Keep
        };
        self.held = false;
        change
    }

    /// Decides one poll, given what the poll took from the completion slot.
    pub fn on_poll<T>(&mut self, taken: Option<T>) -> (r: (PollOutcome<T>, TokenChange))
        ensures
            (final(self)@, r.0, r.1) == poll_step(old(self)@, taken),
    {
        match taken {
            Some(v) => {
                let change = if self.held {
                    TokenChange::Release
                } else {
                    TokenChange::Keep
                };
                self.held = false;
                (PollOutcome::Ready(v), change)
            },
            None => {
                let change = if self.held {
                    TokenChange::Keep
                } else {
                    TokenChange::Acquire
                };
                self.held = true;
                (PollOutcome::Pending, change)
            },
        }
    }
}

/// The number of futures, of those whose token records are `holders`, that
/// hold a token.
pub open spec fn count_held(holders: Seq<bool>) -> nat
    decreases holders.len(),
{
    if holders.len() == 0 {
        0
    } else {
        count_held(holders.drop_last()) + if holders.last() {
            1nat
        } else {
            0nat
        }
    }
}

/// Setting one future's token record changes the number of holders by
/// exactly the difference between its old and new record.
pub proof fn lemma_count_held_update(holders: Seq<bool>, i: int, b: bool)
    requires
        0 <= i < holders.len(),
    ensures
        count_held(holders.update(i, b)) == count_held(holders) - (if holders[i] {
            1int
        } else {
            0int
        }) + (if b {
            1int
        } else {
            0int
        }),
    decreases holders.len(),
{
    if i == holders.len() - 1 {
        assert(holders.update(i, b).drop_last() =~= holders.drop_last());
    } else {
        lemma_count_held_update(holders.drop_last(), i, b);
        assert(holders.update(i, b).drop_last() =~= holders.drop_last().update(i, b));
    }
}

/// Law: a future holds a token exactly while the last poll it answered was
/// pending, and it only ever takes a token when it was polled and found no
/// result.
pub proof fn lemma_token_held_iff_pending<T>(held: bool, taken: Option<T>)
    ensures
        taken matches Some(v) ==> poll_step(held, taken).1 == PollOutcome::Ready(v),
        taken is None ==> poll_step(held, taken).1 is Pending,
        taken is Some ==> (poll_step(held, taken).2 == TokenChange::Release <==> held),
        taken is None ==> (poll_step(held, taken).2 == TokenChange::Acquire <==> !held),
        poll_step(held, taken).0 <==> poll_step(held, taken).1 is Pending,
        poll_step(held, taken).2 == TokenChange::Acquire ==> taken is None && !held,
        poll_step(held, taken).2 == TokenChange::Release ==> taken is Some && held,
{
}

/// Law: polling the `i`-th of a set of futures changes the number of held
/// tokens by exactly the [`TokenChange`] that the poll reports, so a counter
/// moved by those changes always equals the number of pending futures.
pub proof fn lemma_poll_changes_token_count<T>(holders: Seq<bool>, i: int, taken: Option<T>)
    requires
        0 <= i < holders.len(),
    ensures
        count_held(holders.update(i, poll_step(holders[i], taken).0)) == count_held(holders)
            + token_delta(poll_step(holders[i], taken).2),
{
    lemma_count_held_update(holders, i, poll_step(holders[i], taken).0);
}

/// One whole poll of a future, given its completion slot `c`, whether it
/// holds a token, and the waker of the task that polls it: the slot and the
/// token record afterwards, what the poll reports, and the token change the
/// caller must carry out on the poll loop.
pub open spec fn future_poll_step<T, W>(c: CompletionView<T, W>, held: bool, waker: W) -> (
    CompletionView<T, W>,
    bool,
    PollOutcome<T>,
    TokenChange,
) {
    let (c2, taken) = c.poll(waker);
    let (h2, outcome, change) = poll_step(held, taken);
    (c2, h2, outcome, change)
}

/// Polls a future once: takes the callback's result from `completion` if
/// it has arrived (the future is then ready and gives back its token), and
/// otherwise registers `waker` and makes sure the future holds a token so
/// that the poll loop keeps the device polled until the callback runs.
pub fn poll_once<T, W>(
    completion: &mut Completion<T, W>,
    holder: &mut PollTokenHolder,
    waker: W,
) -> (r: (PollOutcome<T>, TokenChange))
    ensures
        (final(completion)@, final(holder)@, r.0, r.1) == future_poll_step(
            old(completion)@,
            old(holder)@,
            waker,
        ),
{
    let taken = completion.poll(waker);
    holder.on_poll(taken)
}

/// Law: awaiting gives the callback's value. Whatever state the future and
/// its slot were in, once the callback has delivered `value`, the next poll
/// is ready with exactly `value`, empties the slot, gives back the token if
/// the future held one, and leaves it holding none.
pub proof fn lemma_poll_after_callback_is_ready<T, W>(
    c: CompletionView<T, W>,
    held: bool,
    value: T,
    waker: W,
)
    ensures
        ({
            let (c2, h2, outcome, change) = future_poll_step(c.complete(value).0, held, waker);
            &&& outcome == PollOutcome::Ready(value)
            &&& c2.result is None
            &&& !h2
            &&& change == (if held {
                TokenChange::Release
            } else {
                TokenChange::Keep
            })
        }),
{
}

/// Law: a future polled before its callback runs is pending, holds a token
/// afterwards (taking one only if it had none), and its waker is the one the
/// callback then wakes.
pub proof fn lemma_poll_before_callback_is_pending<T, W>(
    c: CompletionView<T, W>,
    held: bool,
    waker: W,
    value: T,
)
    requires
        c.result is None,
    ensures
        ({
            let (c2, h2, outcome, change) = future_poll_step(c, held, waker);
            &&& outcome is Pending
            &&& h2
            &&& change == (if held {
                TokenChange::Keep
            } else {
                TokenChange::Acquire
            })
            &&& c2.complete(value).1 == Some(waker)
        }),
{
}

/// Something that happens to one future: a poll from the task whose waker
/// is given, or the callback delivering its value.
pub enum FutureEvent<T, W> {
    Poll(W),
    Callback(T),
}

/// What each of `events` reports, for a future whose slot is `c` and whose
/// token record is `held`: a poll reports its outcome, a callback nothing.
pub open spec fn future_run<T, W>(
    c: CompletionView<T, W>,
    held: bool,
    events: Seq<FutureEvent<T, W>>,
) -> Seq<Option<PollOutcome<T>>>
    decreases events.len(),
{
    if events.len() == 0 {
        Seq::empty()
    } else {
        match events[0] {
            FutureEvent::Poll(w) => {
                let (c2, h2, outcome, _) = future_poll_step(c, held, w);
                seq![Some(outcome)] + future_run(c2, h2, events.drop_first())
            },
            FutureEvent::Callback(v) => seq![None] + future_run(
                c.complete(v).0,
                held,
                events.drop_first(),
            ),
        }
    }
}

/// Law: a future whose callback does not run during `events` is pending at
/// every poll, except the very first one when the slot already held a
/// delivered result, which is ready with that result. In particular a future
/// whose callback never runs is never ready.
pub proof fn lemma_future_run_polls_only<T, W>(
    c: CompletionView<T, W>,
    held: bool,
    events: Seq<FutureEvent<T, W>>,
)
    requires
        forall|k: int| 0 <= k < events.len() ==> #[trigger] events[k] is Poll,
    ensures
        future_run(c, held, events).len() == events.len(),
        forall|i: int|
            0 <= i < events.len() ==> #[trigger] future_run(c, held, events)[i] == Some(
                if i == 0 && c.result is Some {
                    PollOutcome::Ready(c.result->0)
                } else {
                    PollOutcome::Pending
                },
            ),
    decreases events.len(),
{
    if events.len() > 0 {
        assert(events[0] is Poll);
        let w = events[0]->Poll_0;
        let (c2, h2, outcome, _) = future_poll_step(c, held, w);
        let rest = events.drop_first();
        assert forall|k: int| 0 <= k < rest.len() implies #[trigger] rest[k] is Poll by {
            assert(rest[k] == events[k + 1]);
        }
        lemma_future_run_polls_only(c2, h2, rest);
        let outs = future_run(c, held, events);
        assert(outs =~= seq![Some(outcome)] + future_run(c2, h2, rest));
        assert forall|i: int| 0 <= i < events.len() implies #[trigger] outs[i] == Some(
            if i == 0 && c.result is Some {
                PollOutcome::Ready(c.result->0)
            } else {
                PollOutcome::Pending
            },
        ) by {
            if i > 0 {
                assert(outs[i] == future_run(c2, h2, rest)[i - 1]);
            }
        }
    }
}

proof fn lemma_future_run_one_callback<T, W>(
    c: CompletionView<T, W>,
    held: bool,
    events: Seq<FutureEvent<T, W>>,
    d: int,
    value: T,
)
    requires
        c.result is None,
        0 <= d < events.len(),
        events[d] == FutureEvent::<T, W>::Callback(value),
        forall|k: int| 0 <= k < events.len() && k != d ==> #[trigger] events[k] is Poll,
    ensures
        future_run(c, held, events).len() == events.len(),
        future_run(c, held, events)[d] is None,
        forall|i: int|
            0 <= i < events.len() && i != d ==> #[trigger] future_run(c, held, events)[i] == Some(
                if i == d + 1 {
                    PollOutcome::Ready(value)
                } else {
                    PollOutcome::Pending
                },
            ),
    decreases events.len(),
{
    let rest = events.drop_first();
    let outs = future_run(c, held, events);
    if d == 0 {
        let c2 = c.complete(value).0;
        assert forall|k: int| 0 <= k < rest.len() implies #[trigger] rest[k] is Poll by {
            assert(rest[k] == events[k + 1]);
        }
        lemma_future_run_polls_only(c2, held, rest);
        assert(outs =~= seq![None] + future_run(c2, held, rest));
        assert forall|i: int| 0 <= i < events.len() && i != d implies #[trigger] outs[i] == Some(
            if i == d + 1 {
                PollOutcome::Ready(value)
            } else {
                PollOutcome::Pending
            },
        ) by {
            assert(outs[i] == future_run(c2, held, rest)[i - 1]);
        }
    } else {
        assert(events[0] is Poll);
        let w = events[0]->Poll_0;
        let (c2, h2, outcome, _) = future_poll_step(c, held, w);
        assert(rest[d - 1] == events[d]);
        assert forall|k: int| 0 <= k < rest.len() && k != d - 1 implies #[trigger] rest[k] is Poll by {
            assert(rest[k] == events[k + 1]);
        }
        lemma_future_run_one_callback(c2, h2, rest, d - 1, value);
        assert(outs =~= seq![Some(outcome)] + future_run(c2, h2, rest));
        assert forall|i: int| 0 <= i < events.len() && i != d implies #[trigger] outs[i] == Some(
            if i == d + 1 {
                PollOutcome::Ready(value)
            } else {
                PollOutcome::Pending
            },
        ) by {
            if i > 0 {
                assert(outs[i] == future_run(c2, h2, rest)[i - 1]);
            }
        }
    }
}

/// Law: a future whose callback delivers `value` once, polled any number of
/// times before and after, is pending at every poll before the delivery, is
/// ready with exactly `value` at the first poll after it, and is pending at
/// every later poll: it is ready once, and the value is handed out once.
pub proof fn lemma_one_delivery_one_ready<T, W>(events: Seq<FutureEvent<T, W>>, d: int, value: T)
    requires
        0 <= d < events.len(),
        events[d] == FutureEvent::<T, W>::Callback(value),
        forall|k: int| 0 <= k < events.len() && k != d ==> #[trigger] events[k] is Poll,
    ensures
        future_run(CompletionView::empty(), false, events).len() == events.len(),
        future_run(CompletionView::<T, W>::empty(), false, events)[d] is None,
        forall|i: int|
            0 <= i < events.len() && i != d ==> #[trigger] future_run(
                CompletionView::<T, W>::empty(),
                false,
                events,
            )[i] == Some(
                if i == d + 1 {
                    PollOutcome::Ready(value)
                } else {
                    PollOutcome::Pending
                },
            ),
{
    lemma_future_run_one_callback(CompletionView::<T, W>::empty(), false, events, d, value);
}

} // verus!
