//! State synchronisation for a multiplayer game of rolling balls.
//!
//! A server keeps the authoritative set of balls; every client mirrors that
//! set, steers the one ball the server assigned to it and reports what it
//! does with it. This crate holds the rules of that exchange: the ball
//! registry, the channel table, the per-peer message queues and the two
//! synchronisation loops. Sockets, rendering and number crunching on
//! coordinates stay with the program that embeds the crate.

pub mod model;
pub mod messages;
pub mod channels;
pub mod registry;
pub mod connection;
pub mod server;
pub mod client;
