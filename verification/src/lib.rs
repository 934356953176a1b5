//! Session server core for a personality-based chat pairing service.
//!
//! Users carry a five-dimensional personality score; the matchmaker pairs
//! each waiting user with the peer whose score is nearest in Euclidean
//! distance, and a relay forwards chat messages between the two endpoints
//! until either side leaves.  This crate holds the verified logic: the
//! score arithmetic and its textual form, the wire-protocol codec, the
//! three user containers and the state coordinator that keeps every user
//! in exactly one of them, and the decision rules of the relay and the
//! endpoint loop.  Socket, timer and task plumbing live outside the crate.

pub mod config;
pub mod connection;
pub mod coordinator;
pub mod endpoint;
pub mod pages;
pub mod protocol;
pub mod scores;
pub mod sloan;
pub mod text;
pub mod user;
pub mod waiting_users;
