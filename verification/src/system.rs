//! The simulation systems that run over a world. None is defined yet: the
//! queue is empty and the list of systems has no entry.

use crate::state::State;
use vstd::prelude::*;

verus! {

/// A world and the queue of the systems that run over it.
#[derive(Debug)]
pub struct SystemState {
    pub state: State,
    pub queue: SystemQueue,
}

/// The queue of the systems that are due. It holds nothing yet.
#[derive(Debug)]
pub struct SystemQueue;

impl SystemQueue {
    /// The queue of a simulation that starts at `start`, in seconds since
    /// the epoch.
    pub fn new(start: i64) -> (queue: Self)
        ensures
            queue == SystemQueue,
    {
        SystemQueue
    }
}

/// One of the systems of the simulation, known by its position among them.
/// There are `LEN` systems, and none yet: the type has no value so far.
#[derive(Debug, Copy, Clone, Eq, PartialEq, Ord, PartialOrd)]
pub struct Systems {
    position: usize,
}

impl Systems {
    /// How many systems there are.
    pub const LEN: usize = 0;

    /// A system is one of the `LEN` systems.
    #[verifier::type_invariant]
    pub closed spec fn wf(self) -> bool {
        self.position < Systems::LEN
    }

    /// The position of the system among the systems, below `LEN`.
    pub fn index(self) -> (index: usize)
        ensures
            index < Systems::LEN,
    {
        proof {
            use_type_invariant(&self);
        }
        self.position
    }
}

} // verus!
