//! Client-side realtime subscription engine and supporting utilities.
//!
//! The heart of the crate is the realtime machinery: a subscription
//! registry that multiplexes logical topics over one server-push
//! connection, an incremental event-frame parser for the wire format,
//! and a connection manager that owns the reconnect/backoff state
//! machine.  All decision logic is verified; the surrounding I/O is
//! expected to live in a thin driver that performs the actions the
//! engine hands back.

pub mod strutil;
pub mod dtos;
pub mod percent;
pub mod registry;
pub mod frames;
pub mod keys;
pub mod messages;
pub mod realtime;
pub mod cookie;
pub mod jwt;
pub mod refresh;
pub mod formdata;
