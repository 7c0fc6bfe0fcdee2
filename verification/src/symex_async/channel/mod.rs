//! Bounded multi-producer and one-shot channels.
pub mod mpsc;
pub mod oneshot;
