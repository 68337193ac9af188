//! Configuration records the server consumes. Loading them from disk is
//! the embedding program's job; the core only reads the plain values.

use vstd::prelude::*;

verus! {

/// Top-level server settings.
#[derive(Debug, Clone)]
pub struct Config {
    pub metrics_addr: String,
    pub listen_addr: String,
    pub max_stored_messages: usize,
    pub name_reserve_time: u64,
    pub max_users: u16,
}

/// Byte limits on client-supplied text.
#[derive(Debug, Clone, Copy, PartialEq, Eq, Structural)]
pub struct MaxLengthConfig {
    pub max_message_len: usize,
    pub max_username_len: usize,
}

/// Whether the service refuses connections outright.
#[derive(Debug, Clone, Copy, PartialEq, Eq, Structural)]
pub struct OfflineConfig {
    pub offline: bool,
}

} // verus!
