//! A model of Erlay transaction relay: peers flood transactions over a small
//! overlay and reconcile their transaction sets through sketches.
//!
//! The library holds the protocol's decisions as functions from a state and an
//! event to the next state and the messages to send. Delivering messages,
//! running timers and computing the field arithmetic behind a sketch are left
//! to the program that drives the library.

pub mod harness;
pub mod hashing;
pub mod messages;
pub mod network;
pub mod peer;
pub mod peer_id;
pub mod recset;
pub mod rng;
pub mod sketch;
pub mod traffic_counter;
