//! Whether a connection has been told that the server shuts down.

use vstd::prelude::*;

verus! {

/// Remembers the shutdown signal. The signal is sent once; a handler checks
/// here whether it has come.
#[derive(Debug)]
pub struct Shutdown {
    shutdown: bool,
}

impl Shutdown {
    /// Whether the signal has been received.
    pub closed spec fn spec_is_shutdown(&self) -> bool {
        self.shutdown
    }

    /// No signal received yet.
    pub fn new() -> (shutdown: Shutdown)
        ensures
            !shutdown.spec_is_shutdown(),
    {
        Shutdown { shutdown: false }
    }

    /// Whether the signal has been received.
    pub fn is_shutdown(&self) -> (b: bool)
        ensures
            b == self.spec_is_shutdown(),
    {
        self.shutdown
    }

    /// Takes note that the signal has been received.
    pub fn recv(&mut self)
        ensures
            final(self).spec_is_shutdown(),
    {
        self.shutdown = true;
    }
}

} // verus!
