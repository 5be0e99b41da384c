use vstd::prelude::*;

verus! {

/// The fixed-step integrator. It holds no state of its own: each step reads
/// and writes the bodies and boxes of the simulation state it is given.
pub struct PhysicsSystem {}

impl PhysicsSystem {
    /// The integrator.
    pub fn new() -> (p: PhysicsSystem)
        ensures
            p == (PhysicsSystem {}),
    {
        PhysicsSystem {}
    }
}

} // verus!
