//! A verified two-party matchmaking and session-routing library.
//!
//! The library owns the pure, single-owner state machines of a small game
//! server: a matchmaking engine that admits participants to a waiting queue
//! and pairs them in arrival order on a periodic sweep, and a session
//! directory that maps participants to the session they play in.  All
//! transport concerns (sockets, HTTP, channels, timers) live outside; callers
//! feed plain events in and perform the returned deliveries themselves.

pub mod game_manager;
pub mod internal;
pub mod matchmaking;
pub mod messages;
