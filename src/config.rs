//! The settings of a link pair, gathered in one place.

use vstd::prelude::*;
use crate::merge::SYNC_TOLERANCE_US;

verus! {

/// Settings of the server and of the client that merges its two links.
pub struct LinkConfig {
    /// Port of the link that carries portion 0.
    pub port_a: u16,
    /// Port of the link that carries portion 1.
    pub port_b: u16,
    /// Complete sweeps per second.
    pub sweep_rate_hz: u64,
    /// Portions each merge window keeps.
    pub window_capacity: usize,
    /// Largest timestamp gap, exclusive, between two portions of one sweep.
    pub sync_tolerance_us: u64,
    /// Portions each receive buffer keeps between two processing ticks.
    pub buffer_capacity: usize,
    /// How long the client waits before asking for data on the second link.
    pub startup_delay_b_ms: u64,
}

impl LinkConfig {
    /// The usual setup: ports 8080 and 8081, one sweep per second, windows of
    /// ten portions, 100 ms tolerance, buffers of twenty portions, and the
    /// second link asking for data five seconds after the first.
    pub fn standard() -> (r: Self)
        ensures
            r.port_a == 8080,
            r.port_b == 8081,
            r.sweep_rate_hz == 1,
            r.window_capacity == 10,
            r.sync_tolerance_us == SYNC_TOLERANCE_US,
            r.buffer_capacity == 20,
            r.startup_delay_b_ms == 5000,
    {
        LinkConfig {
            port_a: 8080,
            port_b: 8081,
            sweep_rate_hz: 1,
            window_capacity: 10,
            sync_tolerance_us: SYNC_TOLERANCE_US,
            buffer_capacity: 20,
            startup_delay_b_ms: 5000,
        }
    }

    /// Milliseconds between two broadcast ticks, rounded down.
    pub fn tick_interval_ms(&self) -> (r: u64)
        requires
            self.sweep_rate_hz > 0,
        ensures
            r == 1000u64 / self.sweep_rate_hz,
    {
        1000 / self.sweep_rate_hz
    }

    /// The port that carries portion `portion`: portion 0 on the first port,
    /// any other on the second.
    pub fn port_of(&self, portion: usize) -> (r: u16)
        ensures
            r == if portion == 0 {
                self.port_a
            } else {
                self.port_b
            },
    {
        if portion == 0 {
            self.port_a
        } else {
            self.port_b
        }
    }
}

} // verus!
