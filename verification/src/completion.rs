//! The slot that a callback fills and a future empties.

use vstd::prelude::*;

verus! {

/// The contents of a completion slot as plain values: the delivered result,
/// if it has not been taken yet, and the waker of the last poll that found
/// no result, if the callback has not woken it yet.
pub struct CompletionView<T, W> {
    pub result: Option<T>,
    pub waker: Option<W>,
}

impl<T, W> CompletionView<T, W> {
    /// A slot that holds neither a result nor a waker.
    pub open spec fn empty() -> Self {
        CompletionView { result: None, waker: None }
    }

    /// The slot after the callback delivers `value`, and the waker that the
    /// callback must wake (the one registered, which leaves the slot).
    pub open spec fn complete(self, value: T) -> (Self, Option<W>) {
        (CompletionView { result: Some(value), waker: None }, self.waker)
    }

    /// The slot after a poll made with `waker`, and what the poll takes: a
    /// delivered result leaves the slot and is returned; with none there,
    /// `waker` replaces the registered one.
    pub open spec fn poll(self, waker: W) -> (Self, Option<T>) {
        match self.result {
            Some(v) => (CompletionView { result: None, waker: self.waker }, Some(v)),
            None => (CompletionView { result: None, waker: Some(waker) }, None),
        }
    }
}

/// The state that a future and its callback share: the result once the
/// callback has run, and the waker to notify when it does.
pub struct Completion<T, W> {
    result: Option<T>,
    waker: Option<W>,
}

impl<T, W> View for Completion<T, W> {
    type V = CompletionView<T, W>;

    closed spec fn view(&self) -> CompletionView<T, W> {
        CompletionView { result: self.result, waker: self.waker }
    }
}

impl<T, W> Completion<T, W> {
    /// An empty slot: no result delivered, no waker registered.
    pub fn new() -> (c: Self)
        ensures
            c@ == CompletionView::<T, W>::empty(),
    {
        Completion { result: None, waker: None }
    }

    /// Stores the callback's `value` and hands back the registered waker,
    /// which the caller must wake.
    pub fn complete(&mut self, value: T) -> (to_wake: Option<W>)
        ensures
            (final(self)@, to_wake) == old(self)@.complete(value),
    {
        self.result = Some(value);
        self.waker.take()
    }

    /// One poll: takes the delivered result if there is one; otherwise
    /// registers `waker` to be woken by the callback and returns `None`.
    pub fn poll(&mut self, waker: W) -> (taken: Option<T>)
        ensures
            (final(self)@, taken) == old(self)@.poll(waker),
    {
        match self.result.take() {
            Some(v) => Some(v),
            None => {
                self.waker = Some(waker);
                None
            },
        }
    }
}

/// Law: once the callback has delivered `value`, whatever the slot held
/// before, the next poll takes exactly `value` and leaves no result behind.
pub proof fn lemma_poll_after_complete_takes_value<T, W>(
    s: CompletionView<T, W>,
    value: T,
    waker: W,
)
    ensures
        s.complete(value).0.poll(waker).1 == Some(value),
        s.complete(value).0.poll(waker).0.result is None,
{
}

/// Law: a poll that finds no result registers its waker, and the callback
/// that runs next hands back exactly that waker to be woken, so no wakeup is
/// lost between a pending poll and the completion.
pub proof fn lemma_complete_after_pending_wakes_poller<T, W>(
    s: CompletionView<T, W>,
    waker: W,
    value: T,
)
    requires
        s.poll(waker).1 is None,
    ensures
        s.poll(waker).0.complete(value).1 == Some(waker),
{
}

/// Law: a delivered result is handed out at most once: the poll after the
/// one that took it finds nothing.
pub proof fn lemma_result_taken_once<T, W>(s: CompletionView<T, W>, first: W, second: W)
    requires
        s.poll(first).1 is Some,
    ensures
        s.poll(first).0.poll(second).1 is None,
{
}

/// Law: the callback always stores its value and clears the waker it
/// hands back; a poll that takes a result leaves the waker as it was, and a
/// poll that finds none leaves its own waker registered.
pub proof fn lemma_slot_updates<T, W>(s: CompletionView<T, W>, value: T, waker: W)
    ensures
        s.complete(value).0.result == Some(value),
        s.complete(value).0.waker is None,
        s.complete(value).1 == s.waker,
        s.result is Some ==> s.poll(waker).0.waker == s.waker && s.poll(waker).1 == s.result,
        s.result is None ==> s.poll(waker).0.waker == Some(waker) && s.poll(waker).1 is None,
        s.poll(waker).0.result is None,
{
}

} // verus!
