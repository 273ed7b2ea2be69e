//! A message queue with competing consumers, at-least-once delivery and
//! notification-driven wakeup, on top of a table of messages with row locks
//! that a claim skips instead of waiting for.

pub mod entity;
pub mod table;
pub mod claim;
pub mod messenger;
pub mod listener;
pub mod laws;
