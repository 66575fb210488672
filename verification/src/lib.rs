//! A rate-limiting adapter for a cooperatively polled stream of values.
//!
//! The adapter yields items from an inner source no faster than once per
//! configured interval and applies backpressure instead of dropping: an item
//! that arrives too soon is held back, never discarded.
//!
//! The polling protocol itself (a pinned stream, a one-shot timer, a waker)
//! lives outside this crate; here stands the decision core — a state machine
//! from polling events to outcomes — together with a trace model over
//! abstract times in which its ordering and spacing guarantees are proved.

pub mod adapter;
pub mod trace;
