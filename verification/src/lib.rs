//! Heartbeats of a worker process: who the process is, how busy it is, and
//! which requests keep a Redis server informed of both.

pub mod command;
pub mod counter;
pub mod delivery;
pub mod identity;
pub mod laws;
pub mod process;
pub mod publisher;
pub mod rss;
pub mod shared;
pub mod store;
pub mod text;
pub mod witness;
