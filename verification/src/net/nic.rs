//! The queues (channels) of a network interface, as `ethtool` reports them.

use vstd::prelude::*;

verus! {

/// The `ethtool` command that asks for the channel counts.
pub const ETHTOOL_GCHANNELS: u32 = 0x0000003c;

/// The channel counts of an interface: the most it can have, and what it
/// has now.
#[derive(Clone, Copy, Debug, PartialEq, Eq, Structural)]
pub struct Queues {
    pub cmd: u32,
    pub max: Queue,
    pub current: Queue,
}

#[derive(Clone, Copy, Debug, PartialEq, Eq, Structural)]
pub struct Queue {
    pub rx: u32,
    pub tx: u32,
    pub other: u32,
    pub combined: u32,
}

impl Default for Queue {
    fn default() -> (q: Self)
        ensures
            q == (Queue { rx: 0, tx: 0, other: 0, combined: 0 }),
    {
        Queue { rx: 0, tx: 0, other: 0, combined: 0 }
    }
}

impl Default for Queues {
    fn default() -> (q: Self)
        ensures
            q == (Queues {
                cmd: 0,
                max: Queue { rx: 0, tx: 0, other: 0, combined: 0 },
                current: Queue { rx: 0, tx: 0, other: 0, combined: 0 },
            }),
    {
        Queues { cmd: 0, max: Queue::default(), current: Queue::default() }
    }
}

impl Queues {
    /// The record as it is handed to the kernel to be filled in.
    pub fn request() -> (q: Self)
        ensures
            q == (Queues {
                cmd: ETHTOOL_GCHANNELS,
                max: Queue { rx: 0, tx: 0, other: 0, combined: 0 },
                current: Queue { rx: 0, tx: 0, other: 0, combined: 0 },
            }),
    {
        Queues { cmd: ETHTOOL_GCHANNELS, max: Queue::default(), current: Queue::default() }
    }

    /// The number of queues a session works on: the combined channels the
    /// interface has now.
    pub fn queue_count(&self) -> (n: u32)
        ensures
            n == self.current.combined,
    {
        self.current.combined
    }

    /// Whether the interface could have more combined channels than it has.
    pub fn below_max(&self) -> (b: bool)
        ensures
            b == (self.max.combined > self.current.combined),
    {
        self.max.combined > self.current.combined
    }
}

} // verus!
