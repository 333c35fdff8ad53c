use inochi::config::BoundaryType;
use inochi::forces::{
    all_bounded, step_phases, StepPhase, collision_partners, flock_candidates, partners_of, partners_within, Evaluation, ForceCalculator, ForceTask, ForceType,
    IntegrationMethod, InteractionMatrix, PhysicsConfig, PhysicsEngine, Point, StepPlan,
};
use inochi::particle::ParticleSystem;
use inochi::spatial::{Position, SpatialPartitioning};

fn defaults() -> Vec<ForceType<f32>> {
    vec![ForceType::Damping { coefficient: 0.01 }, ForceType::Brownian { intensity: 0.1 }]
}

#[test]
fn test_interaction_matrix() {
    let mut matrix = InteractionMatrix::new(defaults());
    matrix.add_interaction(0, 1, ForceType::Attraction { strength: 1.0, max_distance: 10.0 });

    let forces = matrix.get_forces(0, 1);
    assert_eq!(forces.len(), 1);
}

#[test]
fn test_physics_engine() {
    let config = PhysicsConfig {
        integration_method: IntegrationMethod::Verlet,
        dt: 1.0f32 / 60.0,
        max_force: 1000.0,
        max_velocity: 100.0,
        enable_collisions: false,
        collision_restitution: 0.8,
    };
    let mut engine = PhysicsEngine::new(config, InteractionMatrix::new(defaults()));
    let mut system: ParticleSystem<(f32, f32)> = ParticleSystem::new(10);

    system.add_particle((0.0, 0.0));
    let plan = engine.update(system.particle_count());

    assert_eq!(system.particle_count(), 1);
    // the engine was made for the Verlet scheme and had no previous positions yet
    assert_eq!(plan.method, IntegrationMethod::Verlet);
    assert!(plan.reset_previous_positions);
    assert!(!plan.resolve_collisions);
    assert_eq!(engine.previous_positions, 1);
}

#[test]
fn lookup_is_symmetric_and_falls_back() {
    let mut matrix = InteractionMatrix::new(defaults());
    matrix.add_interaction(2, 1, ForceType::Repulsion { strength: 20.0, max_distance: 30.0 });
    matrix.add_interaction(1, 2, ForceType::Gravity { strength: 1.0, min_distance: 0.01 });
    assert_eq!(matrix.get_forces(1, 2).len(), 2);
    assert_eq!(matrix.get_forces(2, 1).len(), 2);
    assert!(matches!(matrix.get_forces(2, 1)[0], ForceType::Repulsion { .. }));
    assert!(matches!(matrix.get_forces(2, 1)[1], ForceType::Gravity { .. }));
    // no entry: the fallback list
    assert_eq!(matrix.get_forces(0, 0).len(), 2);
    assert!(matches!(matrix.get_forces(7, 3)[0], ForceType::Damping { .. }));
    // species ids at the edge of the range do not collide
    matrix.add_interaction(u32::MAX, 0, ForceType::Damping { coefficient: 1.0 });
    assert_eq!(matrix.get_forces(0, u32::MAX).len(), 1);
    assert_eq!(matrix.get_forces(u32::MAX, u32::MAX).len(), 2);
    assert_eq!(matrix.get_forces(0, 0).len(), 2);
}

#[test]
fn evaluation_depends_on_law_and_partner() {
    let gravity: ForceType<f32> = ForceType::Gravity { strength: 1.0, min_distance: 0.01 };
    assert_eq!(gravity.evaluation(true), Evaluation::Pair);
    assert_eq!(gravity.evaluation(false), Evaluation::Nothing);
    let damping: ForceType<f32> = ForceType::Damping { coefficient: 0.5 };
    assert_eq!(damping.evaluation(true), Evaluation::Single);
    assert_eq!(damping.evaluation(false), Evaluation::Single);
    let vortex: ForceType<f32> =
        ForceType::Vortex { center: Point { x: 0.0, y: 0.0 }, strength: 1.0, max_distance: 5.0 };
    assert_eq!(vortex.evaluation(false), Evaluation::Single);
    let flocking: ForceType<f32> = ForceType::Flocking {
        separation_radius: 20.0,
        alignment_radius: 40.0,
        cohesion_radius: 60.0,
        separation_strength: 50.0,
        alignment_strength: 20.0,
        cohesion_strength: 10.0,
    };
    assert_eq!(flocking.evaluation(true), Evaluation::Nothing);
    assert!(flocking.is_flocking());
    assert!(!gravity.is_flocking());
    assert_eq!(gravity.cutoff(), None);
    let attraction: ForceType<f32> = ForceType::Attraction { strength: 1.0, max_distance: 10.0 };
    assert_eq!(attraction.cutoff(), Some(&10.0));
}

#[test]
fn schedule_lists_global_then_pair_then_flock() {
    let mut matrix = InteractionMatrix::new(vec![ForceType::Damping { coefficient: 0.01f32 }]);
    matrix.add_interaction(0, 1, ForceType::Attraction { strength: 1.0, max_distance: 10.0 });
    matrix.add_interaction(0, 1, ForceType::Flocking {
        separation_radius: 1.0,
        alignment_radius: 1.0,
        cohesion_radius: 1.0,
        separation_strength: 1.0,
        alignment_strength: 1.0,
        cohesion_strength: 1.0,
    });
    let mut calculator = ForceCalculator::new(matrix, 0.5f32).with_dt(0.25);
    assert_eq!(calculator.dt, 0.25);
    calculator.add_global_force(ForceType::Gravity { strength: 1.0, min_distance: 0.01 });
    calculator.add_global_force(ForceType::Brownian { intensity: 0.1 });
    calculator.add_global_force(ForceType::Flocking {
        separation_radius: 20.0,
        alignment_radius: 40.0,
        cohesion_radius: 60.0,
        separation_strength: 50.0,
        alignment_strength: 20.0,
        cohesion_strength: 10.0,
    });
    let species = vec![0, 1, 0];
    let tasks = calculator.apply_forces(0, &species, &partners_of(0, 3));
    assert_eq!(
        tasks,
        vec![
            ForceTask::Global { law: 1 },
            ForceTask::Pair { other: 1, law: 0 },
            ForceTask::Alone { other: 2, law: 0 },
            ForceTask::Flock { law: 2 },
        ]
    );
    // a partner list that names the particle itself or an unknown particle
    let odd = calculator.apply_forces(1, &species, &vec![1, 9, 0]);
    assert_eq!(
        odd,
        vec![ForceTask::Global { law: 1 }, ForceTask::Pair { other: 0, law: 0 }, ForceTask::Flock { law: 2 }]
    );
}

#[test]
fn partner_lists() {
    assert_eq!(partners_of(1, 4), vec![0, 2, 3]);
    assert_eq!(partners_of(7, 3), vec![0, 1, 2]);
    assert_eq!(partners_of(0, 0), Vec::<usize>::new());
    assert_eq!(collision_partners(1, 4), vec![2, 3]);
    assert_eq!(collision_partners(3, 4), Vec::<usize>::new());
    assert_eq!(flock_candidates(0, &vec![5, 1, 5, 5, 2]), vec![2, 3]);
    assert_eq!(flock_candidates(9, &vec![5, 1, 5]), Vec::<usize>::new());
}

#[test]
fn step_plan_follows_the_settings() {
    let config = PhysicsConfig {
        integration_method: IntegrationMethod::Verlet,
        dt: 0.5f32,
        max_force: 1000.0,
        max_velocity: 100.0,
        enable_collisions: true,
        collision_restitution: 0.8,
    };
    let mut engine = PhysicsEngine::new(config, InteractionMatrix::new(Vec::new()));
    assert_eq!(
        engine.update(3),
        StepPlan { method: IntegrationMethod::Verlet, reset_previous_positions: true, resolve_collisions: true }
    );
    assert_eq!(engine.force_calculator.dt, 0.5);
    // same count: the remembered positions are still good
    assert!(!engine.update(3).reset_previous_positions);
    // a particle was pruned in between
    assert!(engine.update(2).reset_previous_positions);
    engine.config.integration_method = IntegrationMethod::Euler;
    engine.config.enable_collisions = false;
    assert_eq!(
        engine.update(5),
        StepPlan { method: IntegrationMethod::Euler, reset_previous_positions: false, resolve_collisions: false }
    );
    assert_eq!(engine.previous_positions, 2);
    engine.config.integration_method = IntegrationMethod::RungeKutta4;
    assert_eq!(engine.update(5).method, IntegrationMethod::RungeKutta4);
}

#[test]
fn partners_narrowed_by_a_spatial_index() {
    let mut grid = SpatialPartitioning::new_grid(10, (Position::new(0, 0), Position::new(100, 100)));
    grid.update(&vec![Position::new(5, 5), Position::new(8, 9), Position::new(50, 50), Position::new(5, 12)]);
    assert_eq!(partners_within(0, 4, Some(&grid), Some(7)), vec![1, 3]);
    assert_eq!(partners_within(0, 4, Some(&grid), Some(4)), Vec::<usize>::new());
    assert_eq!(partners_within(2, 4, Some(&grid), Some(100)), vec![0, 1, 3]);
    // a law of unbounded range, or no index: every other particle
    assert_eq!(partners_within(0, 4, Some(&grid), None), vec![1, 2, 3]);
    assert_eq!(partners_within(0, 4, None, Some(4)), vec![1, 2, 3]);
}

#[test]
fn step_passes_in_order() {
    let plain = StepPlan { method: IntegrationMethod::Euler, reset_previous_positions: false, resolve_collisions: false };
    assert_eq!(
        step_phases(plain, false, None),
        vec![StepPhase::AccumulateForces, StepPhase::Integrate(IntegrationMethod::Euler), StepPhase::PruneDead]
    );
    let full = StepPlan { method: IntegrationMethod::Verlet, reset_previous_positions: true, resolve_collisions: true };
    assert_eq!(
        step_phases(full, true, Some(BoundaryType::Wrapping)),
        vec![
            StepPhase::RebuildIndex,
            StepPhase::AccumulateForces,
            StepPhase::ResetPreviousPositions,
            StepPhase::Integrate(IntegrationMethod::Verlet),
            StepPhase::ResolveCollisions,
            StepPhase::ApplyBoundary(BoundaryType::Wrapping),
            StepPhase::PruneDead,
        ]
    );
}

#[test]
fn laws_with_and_without_a_cutoff() {
    let bounded: Vec<ForceType<f32>> = vec![
        ForceType::Attraction { strength: 1.0, max_distance: 10.0 },
        ForceType::Damping { coefficient: 0.1 },
        ForceType::Repulsion { strength: 1.0, max_distance: 5.0 },
        ForceType::Flocking {
            separation_radius: 1.0,
            alignment_radius: 1.0,
            cohesion_radius: 1.0,
            separation_strength: 1.0,
            alignment_strength: 1.0,
            cohesion_strength: 1.0,
        },
    ];
    assert!(all_bounded(&bounded));
    assert!(all_bounded(&Vec::<ForceType<f32>>::new()));
    let mut unbounded = bounded.clone();
    unbounded.push(ForceType::Gravity { strength: 1.0, min_distance: 0.01 });
    assert!(!all_bounded(&unbounded));
    assert!(!all_bounded(&vec![ForceType::Spring { rest_length: 1.0f32, stiffness: 1.0, damping: 0.1 }]));
    assert!(!all_bounded(&vec![ForceType::LennardJones { epsilon: 1.0f32, sigma: 1.0 }]));
    assert!(all_bounded(&vec![ForceType::Vortex {
        center: Point { x: 0.0f32, y: 0.0 },
        strength: 1.0,
        max_distance: 5.0
    }]));
}
