//! The decisions of a single-threaded executor with virtual time, and the
//! state machines of its channels and timers. Futures and wakers stay with
//! the caller: these types are told what happened and say what to do next.
pub mod channel;
pub mod executor;
pub mod time;
