//! Ready-made scenarios: which particles of which species a scenario starts
//! with. Where a scenario leaves a species to chance, the application draws
//! and the draws are checked here; positions, velocities and the other
//! real-valued attributes are the application's to fill in.
use crate::text::same_bytes;
use vstd::prelude::*;
use vstd::utf8::encode_utf8;

verus! {

/// Whether `draws` holds `count` species, each one of the species `0` to
/// `kinds - 1`.
pub open spec fn fit_draws(draws: Seq<u32>, count: nat, kinds: u32) -> bool {
    draws.len() == count && forall|i: int| 0 <= i < draws.len() ==> #[trigger] draws[i] < kinds
}

/// The scenarios that `PresetManager::create_test_scenario` knows.
#[derive(Debug, Clone, Copy, PartialEq, Eq, Structural)]
pub enum TestScenario {
    /// A predator behind its prey.
    Chase,
    /// A light body around a heavy one.
    Orbit,
    /// Two bodies on a collision course.
    Collision,
    /// Twenty particles of three species drawn by chance.
    Random,
}

/// The scenario that a name stands for: `chase`, `orbit` and `collision`
/// stand for the scenarios of two bodies, and every other name for the random
/// one.
pub open spec fn scenario_of(name: Seq<char>) -> TestScenario {
    let bytes = encode_utf8(name);
    if bytes == encode_utf8("chase"@) {
        TestScenario::Chase
    } else if bytes == encode_utf8("orbit"@) {
        TestScenario::Orbit
    } else if bytes == encode_utf8("collision"@) {
        TestScenario::Collision
    } else {
        TestScenario::Random
    }
}

impl TestScenario {
    /// The scenario that `name` stands for.
    pub fn named(name: &str) -> (scenario: TestScenario)
        ensures
            scenario == scenario_of(name@),
    {
        let bytes = name.as_bytes();
        if same_bytes(bytes, "chase".as_bytes()) {
            TestScenario::Chase
        } else if same_bytes(bytes, "orbit".as_bytes()) {
            TestScenario::Orbit
        } else if same_bytes(bytes, "collision".as_bytes()) {
            TestScenario::Collision
        } else {
            TestScenario::Random
        }
    }

    /// How many particles the scenario starts with.
    pub open spec fn size(self) -> nat {
        match self {
            TestScenario::Random => 20,
            _ => 2,
        }
    }

    /// How many species the scenario leaves to chance, and from how many
    /// kinds of species each is drawn: twenty of three kinds for the random
    /// scenario, none for the others.
    pub open spec fn chance(self) -> (usize, u32) {
        match self {
            TestScenario::Random => (20, 3),
            _ => (0, 0),
        }
    }

    /// The species of the scenario's particles, in the order in which the
    /// particles are made, given the species `drawn` by chance: species 0 and
    /// then species 1 for the scenarios of two bodies, which do not look at
    /// the draws; the draws themselves for the random scenario, where they
    /// are as many and of such kinds as the scenario asks for, and nothing
    /// where they are not.
    pub open spec fn roster(self, drawn: Seq<u32>) -> Option<Seq<u32>> {
        match self {
            TestScenario::Random => if fit_draws(drawn, 20, 3) {
                Some(drawn)
            } else {
                None
            },
            _ => Some(seq![0u32, 1u32]),
        }
    }

    /// How many species to draw for the scenario, and from how many kinds.
    pub fn draws_needed(&self) -> (need: (usize, u32))
        ensures
            need == self.chance(),
    {
        match self {
            TestScenario::Random => (20, 3),
            _ => (0, 0),
        }
    }

    /// The species of the scenario's particles, given the species `drawn`
    /// by chance; `None` where the random scenario was handed draws that are
    /// not twenty or not all of the three kinds.
    pub fn species(&self, drawn: Vec<u32>) -> (species: Option<Vec<u32>>)
        ensures
            match species {
                Some(list) => self.roster(drawn@) == Some(list@),
                None => self.roster(drawn@) is None,
            },
    {
        match self {
            TestScenario::Random => PresetManager::checked_species(drawn, 20, 3),
            _ => {
                let mut pair: Vec<u32> = Vec::new();
                pair.push(0);
                pair.push(1);
                assert(pair@ =~= seq![0u32, 1u32]);
                Some(pair)
            },
        }
    }
}

/// Every roster has as many species as the scenario has particles, and the
/// random scenario has none but the species 0, 1 and 2.
pub proof fn lemma_roster_fits(scenario: TestScenario, drawn: Seq<u32>)
    requires
        scenario.roster(drawn) is Some,
    ensures
        scenario.roster(drawn)->0.len() == scenario.size(),
        forall|i: int| 0 <= i < scenario.roster(drawn)->0.len() ==> #[trigger] scenario.roster(drawn)->0[i] < 3,
{
}

/// The maker of the built-in scenarios.
#[derive(Debug, Clone, Copy, PartialEq, Eq, Structural)]
pub struct PresetManager;

impl PresetManager {
    /// Hands the draws back if they are `count` species, each one of the
    /// species `0` to `kinds - 1`, and nothing otherwise.
    pub fn checked_species(draws: Vec<u32>, count: usize, kinds: u32) -> (species: Option<Vec<u32>>)
        ensures
            match species {
                Some(list) => fit_draws(draws@, count as nat, kinds) && list@ == draws@,
                None => !fit_draws(draws@, count as nat, kinds),
            },
    {
        if draws.len() != count {
            return None;
        }
        let mut i: usize = 0;
        while i < draws.len()
            invariant
                i <= draws@.len(),
                forall|j: int| 0 <= j < i ==> #[trigger] draws@[j] < kinds,
            decreases draws@.len() - i,
        {
            if draws[i] >= kinds {
                return None;
            }
            i = i + 1;
        }
        Some(draws)
    }

    /// The species of the particles that the scenario called `scenario_name`
    /// starts with, in the order in which the particles are made, given the
    /// species `drawn` by chance for it; see `TestScenario::roster`.
    pub fn create_test_scenario(scenario_name: &str, drawn: Vec<u32>) -> (species: Option<Vec<u32>>)
        ensures
            match species {
                Some(list) => scenario_of(scenario_name@).roster(drawn@) == Some(list@),
                None => scenario_of(scenario_name@).roster(drawn@) is None,
            },
    {
        TestScenario::named(scenario_name).species(drawn)
    }

    /// How many activator particles each of the five clusters of the
    /// reaction-diffusion preset gets, of `initial_particle_count` particles
    /// in all: six tenths go to the clusters, in equal whole shares.
    pub fn cluster_size(initial_particle_count: usize) -> (share: usize)
        ensures
            share == initial_particle_count * 6 / 50,
    {
        let scaled: u128 = (initial_particle_count as u128) * 6;
        (scaled / 50) as usize
    }

    /// How many inhibitor particles the reaction-diffusion preset adds to a
    /// store that holds `stored` particles, to fill it up to
    /// `initial_particle_count`.
    pub fn remaining_particles(initial_particle_count: usize, stored: usize) -> (remaining: usize)
        ensures
            remaining == if stored <= initial_particle_count {
                initial_particle_count - stored
            } else {
                0
            },
    {
        if stored <= initial_particle_count {
            initial_particle_count - stored
        } else {
            0
        }
    }
}

} // verus!
