use vstd::prelude::*;

verus! {

/// The settings of the simulated world: its gravity (a vector, carried
/// through as it is), whether time is paused, and how many passes of the
/// contact solver run per frame.
pub struct World<V> {
    pub gravity: V,
    pub paused: bool,
    pub solver_iterations: u32,
}

/// What one frame of the simulation runs: whether forces are applied and
/// bodies integrated, and how many passes of the contact solver follow.
#[derive(Clone, Copy, PartialEq, Eq, Debug)]
pub struct FramePlan {
    pub integrate: bool,
    pub solver_passes: u32,
}

impl<V> World<V> {
    /// While paused nothing moves and no contact is resolved; otherwise the
    /// frame integrates the bodies and runs `solver_iterations` passes of the
    /// contact solver.
    pub fn frame_plan(&self) -> (plan: FramePlan)
        ensures
            plan.integrate == !self.paused,
            plan.solver_passes == (if self.paused { 0 } else { self.solver_iterations }),
    {
        if self.paused {
            FramePlan { integrate: false, solver_passes: 0 }
        } else {
            FramePlan { integrate: true, solver_passes: self.solver_iterations }
        }
    }
}

} // verus!
