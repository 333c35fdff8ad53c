use inochi::presets::{PresetManager, TestScenario};
use rand::Rng;

#[test]
fn test_test_scenarios() {
    let species = PresetManager::create_test_scenario("chase", Vec::new()).unwrap();
    assert_eq!(species.len(), 2);

    let species = PresetManager::create_test_scenario("orbit", Vec::new()).unwrap();
    assert_eq!(species.len(), 2);
}

#[test]
fn named_scenarios_have_a_fixed_roster() {
    assert_eq!(PresetManager::create_test_scenario("chase", Vec::new()), Some(vec![0, 1]));
    assert_eq!(PresetManager::create_test_scenario("orbit", vec![2, 2, 2]), Some(vec![0, 1]));
    assert_eq!(PresetManager::create_test_scenario("collision", vec![9]), Some(vec![0, 1]));
    assert_eq!(TestScenario::named("chase"), TestScenario::Chase);
    assert_eq!(TestScenario::named("orbit"), TestScenario::Orbit);
    assert_eq!(TestScenario::named("collision"), TestScenario::Collision);
    assert_eq!(TestScenario::named("Chase"), TestScenario::Random);
    assert_eq!(TestScenario::named("collisions"), TestScenario::Random);
    assert_eq!(TestScenario::named(""), TestScenario::Random);
    assert_eq!(TestScenario::Orbit.species(vec![2, 2, 1]), Some(vec![0, 1]));
    assert_eq!(TestScenario::Chase.draws_needed(), (0, 0));
    assert_eq!(TestScenario::Random.draws_needed(), (20, 3));
}

#[test]
fn random_scenario_takes_twenty_draws_of_three_species() {
    let mut rng = rand::thread_rng();
    let (count, kinds) = TestScenario::Random.draws_needed();
    let drawn: Vec<u32> = (0..count).map(|_| rng.gen_range(0..kinds)).collect();
    assert_eq!(PresetManager::create_test_scenario("anything else", drawn.clone()), Some(drawn));
    let pattern: Vec<u32> = (0..20).map(|i| i % 3).collect();
    assert_eq!(TestScenario::Random.species(pattern.clone()), Some(pattern.clone()));
    // too few, too many, or a species that is not one of the three
    assert_eq!(PresetManager::create_test_scenario("anything else", Vec::new()), None);
    assert_eq!(PresetManager::create_test_scenario("anything else", pattern[..19].to_vec()), None);
    assert_eq!(PresetManager::create_test_scenario("anything else", vec![0; 21]), None);
    let mut odd = pattern.clone();
    odd[19] = 3;
    assert_eq!(PresetManager::create_test_scenario("anything else", odd), None);
}

#[test]
fn draws_are_checked_for_length_and_range() {
    assert_eq!(PresetManager::checked_species(vec![0, 1, 1, 0], 4, 2), Some(vec![0, 1, 1, 0]));
    assert_eq!(PresetManager::checked_species(vec![0, 1, 2, 0], 4, 2), None);
    assert_eq!(PresetManager::checked_species(vec![0, 1, 1], 4, 2), None);
    assert_eq!(PresetManager::checked_species(vec![], 0, 0), Some(vec![]));
    assert_eq!(PresetManager::checked_species(vec![0], 1, 0), None);
    assert_eq!(PresetManager::checked_species(vec![u32::MAX - 1], 1, u32::MAX), Some(vec![u32::MAX - 1]));
}

#[test]
fn reaction_diffusion_shares() {
    assert_eq!(PresetManager::cluster_size(400), 48);
    assert_eq!(PresetManager::cluster_size(100), 12);
    assert_eq!(PresetManager::cluster_size(8), 0);
    assert_eq!(PresetManager::cluster_size(9), 1);
    assert_eq!(PresetManager::cluster_size(usize::MAX), (usize::MAX as u128 * 6 / 50) as usize);
    assert_eq!(PresetManager::remaining_particles(400, 240), 160);
    assert_eq!(PresetManager::remaining_particles(400, 400), 0);
    assert_eq!(PresetManager::remaining_particles(100, 240), 0);
}
