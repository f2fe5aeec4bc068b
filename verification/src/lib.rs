//! PuppyPeer core: the verified heart of a LAN peer-to-peer file agent.
//!
//! A node advertises itself on the local network, accepts requests from
//! other peers, and can issue requests to them.  This crate holds the parts
//! that decide things: the access-control state that gates every filesystem
//! operation, the request/response protocol types, the pure planning logic
//! of the file handlers, the directory-listing order, and the correlation
//! table that pairs outbound requests with their waiters.  The surrounding
//! process (event loop, sockets, disk) lives outside and feeds this crate
//! plain values.

pub mod access;
pub mod actor;
pub mod authz;
pub mod format;
pub mod fsops;
pub mod handlers;
pub mod listing;
pub mod metadata;
pub mod paths;
pub mod peer;
pub mod protocol;
pub mod state;
