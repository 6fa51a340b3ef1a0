//! Timing of command executions.
use vstd::prelude::*;
use std::time::{Duration, Instant};
use super::clock::{elapsed_since, instant_now};

verus! {

/// Measures how long a command runs.
#[derive(Debug)]
pub struct CommandTimer {
    /// Host the command is running on.
    pub host: String,
    /// Module being executed.
    pub module: String,
    start: Instant,
}

impl CommandTimer {
    /// The host the timer was started for.
    pub closed spec fn host_of(&self) -> String {
        self.host
    }

    /// The module the timer was started for.
    pub closed spec fn module_of(&self) -> String {
        self.module
    }

    /// Starts a timer for a command of `module` on `host`.
    pub fn new(host: String, module: String) -> (t: CommandTimer)
        ensures
            t.host_of() == host,
            t.module_of() == module,
    {
        CommandTimer { host, module, start: instant_now() }
    }

    /// The time passed since the timer started, read from the monotonic
    /// clock at the moment of the call; any duration can come back, so the
    /// contract claims nothing of it.
    pub fn elapsed(&self) -> Duration {
        elapsed_since(&self.start)
    }
}

} // verus!
