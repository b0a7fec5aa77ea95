//! The simulation is a function of its state.

use crate::alg::plane::Plane;
use crate::components::softbody::{
    acceleration, integrated, lemma_relaxed_len, InstanceView, ManagerView, ITERATIONS,
};
use vstd::prelude::*;

verus! {

/// The manager after `steps` steps.
pub open spec fn stepped_times(manager: ManagerView, steps: nat) -> ManagerView
    decreases steps,
{
    if steps == 0 {
        manager
    } else {
        stepped_times(manager, (steps - 1) as nat).stepped()
    }
}

/// Equal starts have equal trajectories: two managers that begin with the
/// same bodies among the same planes have the same bodies after any number
/// of steps. Nothing but the bodies and the planes goes into a step.
pub proof fn lemma_trajectories_agree(first: ManagerView, second: ManagerView, steps: nat)
    requires
        first.instances == second.instances,
        first.planes == second.planes,
    ensures
        stepped_times(first, steps).instances == stepped_times(second, steps).instances,
        stepped_times(first, steps).planes == stepped_times(second, steps).planes,
    decreases steps,
{
    if steps > 0 {
        lemma_trajectories_agree(first, second, (steps - 1) as nat);
        let a = stepped_times(first, (steps - 1) as nat);
        let b = stepped_times(second, (steps - 1) as nat);
        assert(a.stepped().instances =~= b.stepped().instances);
    }
}

/// A step changes the particles and the center of a body and nothing else:
/// its mass, its force, its rods and its rest pose stay, and so does the
/// number of its particles.
pub proof fn lemma_step_keeps_constitution(body: InstanceView, planes: Seq<Plane>)
    requires
        body.wf(),
    ensures
        body.stepped(planes).mass == body.mass,
        body.stepped(planes).force == body.force,
        body.stepped(planes).rods == body.rods,
        body.stepped(planes).model == body.model,
        body.stepped(planes).particles.len() == body.particles.len(),
        body.stepped(planes).wf(),
{
    lemma_relaxed_len(
        integrated(body.particles, acceleration(body.force, body.mass)),
        body.rods,
        planes,
        ITERATIONS as nat,
    );
}

} // verus!
