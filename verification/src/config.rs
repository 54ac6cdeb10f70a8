//! The periods and limits of the protocol. Times are in milliseconds.

use vstd::prelude::*;

verus! {

/// The configuration of one engine.
#[derive(Clone, Copy, PartialEq, Eq, Structural, Debug)]
pub struct Config {
    /// The UDP port that advertisements are sent to and heard on.
    pub port: u16,
    /// How long the engine listens in each cycle.
    pub listen_window: u64,
    /// How long a learned route lasts without being installed anew.
    pub expire: u64,
    /// How long the engine rests between two cycles.
    pub cycle_period: u64,
    /// How long one read on the listening socket may block.
    pub read_timeout: u64,
    /// The size of the receive buffer, in bytes.
    pub buffer_size: usize,
}

/// The recommended configuration: port 9999, a listen window of 2 s,
/// expiry after 15 s, a cycle every 5 s, reads of at most 2 s and a
/// buffer of 512 bytes.
pub open spec fn recommended() -> Config {
    Config {
        port: 9999,
        listen_window: 2000,
        expire: 15000,
        cycle_period: 5000,
        read_timeout: 2000,
        buffer_size: 512,
    }
}

impl Default for Config {
    /// The recommended configuration.
    fn default() -> (c: Config)
        ensures
            c == recommended(),
    {
        Config {
            port: 9999,
            listen_window: 2000,
            expire: 15000,
            cycle_period: 5000,
            read_timeout: 2000,
            buffer_size: 512,
        }
    }
}

impl Config {
    /// Whether the listen window that opened at time `opened` is still open
    /// at time `now`.
    pub fn window_open(&self, opened: u64, now: u64) -> (open: bool)
        ensures
            open == (now - opened < self.listen_window),
    {
        now < opened || now - opened < self.listen_window
    }
}

} // verus!
