//! Verified cores of a small catalogue of message-passing patterns: a
//! request/response relay that serializes concurrent callers through a bounded
//! FIFO mailbox, a mutually-exclusive counter, and a lazily generated
//! Fibonacci stream with a bounded-consumption helper.
//!
//! The asynchronous plumbing (task spawning, suspension, the real channel
//! primitives) lives outside this crate; here each component is modelled as a
//! sequential state machine whose transitions carry full contracts.

pub mod channels;
pub mod shared_state;
pub mod streams;
