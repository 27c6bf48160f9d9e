//! Matchmaking bridge core: the binary wire format of the matchmaking
//! protocol, the decisions of one matchmaking attempt, and the queue of
//! results that a frame loop polls, all verified.
//!
//! The network transport and the background scheduler are supplied by the
//! application around this library; the library decides what is sent, how
//! incoming frames are read, which single result an attempt reports, and in
//! what order results are handed to the caller.

pub mod bridge;
pub mod codec;
pub mod event;
pub mod matchmaking;
pub mod session;
