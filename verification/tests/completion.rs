use wgpu_async::completion::Completion;
use wgpu_async::future_poll::{poll_once, PollOutcome, PollTokenHolder, TokenChange};

#[test]
fn new_slot_has_no_result() {
    let mut c: Completion<u32, &str> = Completion::new();
    assert_eq!(c.poll("task-a"), None);
}

#[test]
fn complete_on_empty_slot_wakes_nobody() {
    let mut c: Completion<u32, &str> = Completion::new();
    assert_eq!(c.complete(7), None);
}

#[test]
fn poll_after_complete_takes_value() {
    let mut c: Completion<u32, &str> = Completion::new();
    assert_eq!(c.complete(42), None);
    assert_eq!(c.poll("task-a"), Some(42));
}

#[test]
fn pending_poll_registers_waker_for_callback() {
    let mut c: Completion<u32, &str> = Completion::new();
    assert_eq!(c.poll("task-a"), None);
    assert_eq!(c.complete(9), Some("task-a"));
    // the waker leaves the slot once handed back
    assert_eq!(c.poll("task-b"), Some(9));
}

#[test]
fn later_poll_replaces_registered_waker() {
    let mut c: Completion<u32, &str> = Completion::new();
    assert_eq!(c.poll("task-a"), None);
    assert_eq!(c.poll("task-b"), None);
    assert_eq!(c.complete(1), Some("task-b"));
}

#[test]
fn result_is_taken_once() {
    let mut c: Completion<u32, &str> = Completion::new();
    c.complete(5);
    assert_eq!(c.poll("task-a"), Some(5));
    assert_eq!(c.poll("task-a"), None);
}

#[test]
fn ready_poll_leaves_registered_waker() {
    let mut c: Completion<u32, &str> = Completion::new();
    assert_eq!(c.poll("task-a"), None);
    assert_eq!(c.complete(3), Some("task-a"));
    assert_eq!(c.poll("task-b"), Some(3));
    // the ready poll did not register its waker: a second delivery wakes nobody
    assert_eq!(c.complete(4), None);
}

#[test]
fn future_pending_then_ready_takes_and_returns_token() {
    let mut c: Completion<&str, u8> = Completion::new();
    let mut h = PollTokenHolder::new();
    assert!(!h.holds_token());

    let (outcome, change) = poll_once(&mut c, &mut h, 1u8);
    assert_eq!(outcome, PollOutcome::Pending);
    assert_eq!(change, TokenChange::Acquire);
    assert!(h.holds_token());

    let (outcome, change) = poll_once(&mut c, &mut h, 2u8);
    assert_eq!(outcome, PollOutcome::Pending);
    assert_eq!(change, TokenChange::Keep);
    assert!(h.holds_token());

    assert_eq!(c.complete("done"), Some(2u8));

    let (outcome, change) = poll_once(&mut c, &mut h, 3u8);
    assert_eq!(outcome, PollOutcome::Ready("done"));
    assert_eq!(change, TokenChange::Release);
    assert!(!h.holds_token());
}

#[test]
fn future_completed_before_first_poll_never_takes_token() {
    let mut c: Completion<i32, u8> = Completion::new();
    let mut h = PollTokenHolder::new();
    assert_eq!(c.complete(-1), None);
    let (outcome, change) = poll_once(&mut c, &mut h, 0u8);
    assert_eq!(outcome, PollOutcome::Ready(-1));
    assert_eq!(change, TokenChange::Keep);
    assert!(!h.holds_token());
}

#[test]
fn on_poll_decisions() {
    let mut h = PollTokenHolder::new();
    assert_eq!(h.on_poll::<u8>(None), (PollOutcome::Pending, TokenChange::Acquire));
    assert_eq!(h.on_poll::<u8>(None), (PollOutcome::Pending, TokenChange::Keep));
    assert_eq!(h.on_poll(Some(8u8)), (PollOutcome::Ready(8u8), TokenChange::Release));
    assert_eq!(h.on_poll(Some(9u8)), (PollOutcome::Ready(9u8), TokenChange::Keep));
    assert!(!h.holds_token());
}

#[test]
fn one_delivery_gives_one_ready() {
    let mut c: Completion<u32, u8> = Completion::new();
    let mut h = PollTokenHolder::new();
    let mut readies = 0;
    for step in 0..6u8 {
        if step == 2 {
            c.complete(77);
            continue;
        }
        let (outcome, _) = poll_once(&mut c, &mut h, step);
        match outcome {
            PollOutcome::Ready(v) => {
                assert_eq!(step, 3);
                assert_eq!(v, 77);
                readies += 1;
            }
            PollOutcome::Pending => assert_ne!(step, 3),
        }
    }
    assert_eq!(readies, 1);
}

#[test]
fn dropped_pending_future_gives_token_back() {
    let mut c: Completion<u32, u8> = Completion::new();
    let mut h = PollTokenHolder::new();
    let (_, change) = poll_once(&mut c, &mut h, 0u8);
    assert_eq!(change, TokenChange::Acquire);
    assert_eq!(h.release(), TokenChange::Release);
    assert!(!h.holds_token());
}
