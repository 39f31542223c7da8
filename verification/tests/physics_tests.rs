use rust_physics_sim::physics::{FramePlan, World};

#[test]
fn running_world_integrates_and_solves() {
    let w = World { gravity: (0.0f32, 500.0f32), paused: false, solver_iterations: 8 };
    assert_eq!(w.frame_plan(), FramePlan { integrate: true, solver_passes: 8 });
}

#[test]
fn paused_world_does_nothing() {
    let w = World { gravity: (0.0f32, 500.0f32), paused: true, solver_iterations: 8 };
    assert_eq!(w.frame_plan(), FramePlan { integrate: false, solver_passes: 0 });
}

#[test]
fn zero_iterations_means_no_solver_pass() {
    let w = World { gravity: (), paused: false, solver_iterations: 0 };
    assert_eq!(w.frame_plan(), FramePlan { integrate: true, solver_passes: 0 });
}
