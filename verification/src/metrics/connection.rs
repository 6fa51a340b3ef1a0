//! Timing of connection establishment.
use vstd::prelude::*;
use std::time::{Duration, Instant};
use super::clock::{elapsed_since, instant_now};

verus! {

/// Measures how long a connection takes to establish.
#[derive(Debug)]
pub struct ConnectionTimer {
    /// Host being connected to.
    pub host: String,
    start: Instant,
}

impl ConnectionTimer {
    /// The host the timer was started for.
    pub closed spec fn host_of(&self) -> String {
        self.host
    }

    /// Starts a timer for a connection to `host`.
    pub fn new(host: String) -> (t: ConnectionTimer)
        ensures
            t.host_of() == host,
    {
        ConnectionTimer { host, start: instant_now() }
    }

    /// The time passed since the timer started, read from the monotonic
    /// clock at the moment of the call; any duration can come back, so the
    /// contract claims nothing of it.
    pub fn elapsed(&self) -> Duration {
        elapsed_since(&self.start)
    }
}

} // verus!
