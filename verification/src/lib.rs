//! Verified core of an async layer over callback-and-poll GPU APIs.
//!
//! The library holds the decisions that turn a callback into an awaitable
//! result and that drive the background poll loop:
//! - [`completion`]: the slot shared between a callback and the future that
//!   waits on it;
//! - [`future_poll`]: what one poll of such a future returns and how it
//!   changes the future's claim on the poll loop;
//! - [`poll_loop`]: the poll loop's outstanding-work count and the state
//!   machine of its thread.

pub mod completion;
pub mod future_poll;
pub mod poll_loop;
