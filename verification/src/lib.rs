//! Core of a multiplayer game backend: game-session lifecycle, participant
//! connections, and realtime message fan-out.
//!
//! The library is pure logic over plain values. Transport, routing and
//! credential verification live outside it; they hand it authenticated
//! principals, session ids and message payloads, and act on what it returns.
//!
//! Every registry operation is one atomic step: the process serializes access
//! to the registry (one lock around it), and each contract describes the
//! whole step, so checks such as "still empty?" can never race the mutation
//! they guard.

pub mod connection;
pub mod error;
pub mod gateway;
pub mod lifecycle;
pub mod message;
pub mod principal;
pub mod registry;
pub mod session;
