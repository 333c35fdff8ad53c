//! Force laws as descriptors, the species interaction table, and the rules
//! that decide which law is evaluated for which particle.
//!
//! A law descriptor carries its parameters in a scalar type `S` chosen by the
//! embedding application; nothing here computes with them.
use crate::config::BoundaryType;
use crate::sequences::lemma_filter_exact;
use crate::sequences::not_index;
use crate::spatial::within_radius;
use crate::spatial::SpatialPartitioning;
use std::collections::HashMap;
use vstd::prelude::*;

verus! {

broadcast use vstd::std_specs::hash::group_hash_axioms;

/// A point of the plane in the application's scalar type.
#[derive(Debug, Clone)]
pub struct Point<S> {
    pub x: S,
    pub y: S,
}

/// One force law with its parameters.
#[derive(Debug, Clone)]
pub enum ForceType<S> {
    Gravity { strength: S, min_distance: S },
    ElectroMagnetic { strength: S, min_distance: S },
    LennardJones { epsilon: S, sigma: S },
    Damping { coefficient: S },
    Brownian { intensity: S },
    Attraction { strength: S, max_distance: S },
    Repulsion { strength: S, max_distance: S },
    Vortex { center: Point<S>, strength: S, max_distance: S },
    Spring { rest_length: S, stiffness: S, damping: S },
    Flocking {
        separation_radius: S,
        alignment_radius: S,
        cohesion_radius: S,
        separation_strength: S,
        alignment_strength: S,
        cohesion_strength: S,
    },
}

/// What has to be evaluated for one law on one particle.
#[derive(Debug, Clone, Copy, PartialEq, Eq, Structural)]
pub enum Evaluation {
    /// The law contributes no force here.
    Nothing,
    /// The law is evaluated on the particle alone.
    Single,
    /// The law is evaluated on the particle and its partner.
    Pair,
}

impl<S> ForceType<S> {
    /// A pairwise law acts between two particles and contributes nothing
    /// without a partner.
    pub open spec fn is_pairwise(self) -> bool {
        self is Gravity || self is ElectroMagnetic || self is LennardJones || self is Attraction
            || self is Repulsion || self is Spring
    }

    /// What evaluating this law amounts to, with or without a partner.
    /// Flocking is never evaluated this way: it needs a whole neighbourhood.
    pub open spec fn evaluation_of(self, has_other: bool) -> Evaluation {
        if self is Flocking {
            Evaluation::Nothing
        } else if self.is_pairwise() {
            if has_other {
                Evaluation::Pair
            } else {
                Evaluation::Nothing
            }
        } else {
            Evaluation::Single
        }
    }

    /// The distance beyond which a pairwise law contributes nothing, for the
    /// laws that have one.
    pub open spec fn cutoff_of(self) -> Option<S> {
        match self {
            ForceType::Attraction { max_distance, .. } => Some(max_distance),
            ForceType::Repulsion { max_distance, .. } => Some(max_distance),
            _ => None,
        }
    }

    /// Decides what to evaluate for this law on a particle that has a partner
    /// (`has_other`) or has none.
    pub fn evaluation(&self, has_other: bool) -> (e: Evaluation)
        ensures
            e == self.evaluation_of(has_other),
    {
        match self {
            ForceType::Gravity { .. } | ForceType::ElectroMagnetic { .. } | ForceType::LennardJones { .. }
            | ForceType::Attraction { .. } | ForceType::Repulsion { .. } | ForceType::Spring { .. } => {
                if has_other {
                    Evaluation::Pair
                } else {
                    Evaluation::Nothing
                }
            },
            ForceType::Damping { .. } | ForceType::Brownian { .. } | ForceType::Vortex { .. } => {
                Evaluation::Single
            },
            ForceType::Flocking { .. } => Evaluation::Nothing,
        }
    }

    /// Whether this is the flocking law.
    pub fn is_flocking(&self) -> (b: bool)
        ensures
            b == (*self is Flocking),
    {
        match self {
            ForceType::Flocking { .. } => true,
            _ => false,
        }
    }

    /// The interaction cutoff of a pairwise law with bounded range; `None` for
    /// laws of unbounded range and for laws that are not pairwise.
    pub fn cutoff(&self) -> (c: Option<&S>)
        ensures
            match c {
                Some(d) => self.cutoff_of() == Some(*d),
                None => self.cutoff_of() is None,
            },
    {
        match self {
            ForceType::Attraction { max_distance, .. } => Some(max_distance),
            ForceType::Repulsion { max_distance, .. } => Some(max_distance),
            _ => None,
        }
    }
}

/// Whether every law of `laws` that acts between two particles has a
/// cutoff. Where that holds, particles further apart than the largest cutoff
/// exert no force on each other, and a spatial index can narrow the partners
/// down.
pub open spec fn every_pairwise_bounded<S>(laws: Seq<ForceType<S>>) -> bool {
    forall|i: int| 0 <= i < laws.len() && (#[trigger] laws[i]).is_pairwise() ==> laws[i].cutoff_of() is Some
}

/// Decides whether every pairwise law of `laws` has a cutoff.
pub fn all_bounded<S>(laws: &Vec<ForceType<S>>) -> (bounded: bool)
    ensures
        bounded == every_pairwise_bounded(laws@),
{
    let mut i: usize = 0;
    while i < laws.len()
        invariant
            i <= laws@.len(),
            forall|j: int| 0 <= j < i && (#[trigger] laws@[j]).is_pairwise() ==> laws@[j].cutoff_of() is Some,
        decreases laws@.len() - i,
    {
        let pairwise = match laws[i].evaluation(true) {
            Evaluation::Pair => true,
            _ => false,
        };
        if pairwise && laws[i].cutoff().is_none() {
            assert(laws@[i as int].is_pairwise() && laws@[i as int].cutoff_of() is None);
            return false;
        }
        i = i + 1;
    }
    true
}

/// The unordered species pair `{a, b}` as an ordered one, smaller id first.
pub open spec fn canonical_pair(a: u32, b: u32) -> (u32, u32) {
    if a <= b {
        (a, b)
    } else {
        (b, a)
    }
}

/// The table key of an unordered species pair: the smaller id in the upper
/// half of the key, the larger in the lower half.
pub open spec fn pair_key(a: u32, b: u32) -> u64 {
    let (lo, hi) = canonical_pair(a, b);
    (lo as u64 * 0x1_0000_0000 + hi as u64) as u64
}

/// Computes the table key of an unordered species pair.
pub fn species_key(a: u32, b: u32) -> (k: u64)
    ensures
        k == pair_key(a, b),
{
    let lo: u32 = if a <= b { a } else { b };
    let hi: u32 = if a <= b { b } else { a };
    (lo as u64) * 0x1_0000_0000u64 + (hi as u64)
}

/// For each unordered species pair the force laws that act between the two
/// species, with a fallback list for pairs that have no entry.
#[derive(Debug, Clone)]
pub struct InteractionMatrix<S> {
    /// Law lists by `pair_key`.
    pub interactions: HashMap<u64, Vec<ForceType<S>>>,
    /// The laws of every pair without an entry.
    pub default_forces: Vec<ForceType<S>>,
}

impl<S> View for InteractionMatrix<S> {
    type V = Map<(u32, u32), Seq<ForceType<S>>>;

    /// The entries by canonical species pair.
    open spec fn view(&self) -> Map<(u32, u32), Seq<ForceType<S>>> {
        Map::new(
            |p: (u32, u32)| p.0 <= p.1 && self.interactions@.contains_key(pair_key(p.0, p.1)),
            |p: (u32, u32)| self.interactions@[pair_key(p.0, p.1)]@,
        )
    }
}

impl<S> InteractionMatrix<S> {
    /// The laws registered for a pair so far; empty where there is no entry.
    pub open spec fn registered(self, a: u32, b: u32) -> Seq<ForceType<S>> {
        if self@.contains_key(canonical_pair(a, b)) {
            self@[canonical_pair(a, b)]
        } else {
            Seq::empty()
        }
    }

    /// The laws that act between two species: the pair's entry, or the
    /// fallback list where it has none.
    pub open spec fn laws(self, a: u32, b: u32) -> Seq<ForceType<S>> {
        if self@.contains_key(canonical_pair(a, b)) {
            self@[canonical_pair(a, b)]
        } else {
            self.default_forces@
        }
    }

    /// A table without entries, whose every lookup gives `default_forces`.
    pub fn new(default_forces: Vec<ForceType<S>>) -> (matrix: Self)
        ensures
            matrix@ == Map::<(u32, u32), Seq<ForceType<S>>>::empty(),
            matrix.default_forces == default_forces,
    {
        let matrix = InteractionMatrix { interactions: HashMap::new(), default_forces };
        assert(matrix@ =~= Map::<(u32, u32), Seq<ForceType<S>>>::empty());
        matrix
    }

    /// Appends `force` to the laws of the unordered pair `{species_a,
    /// species_b}`, creating the entry if the pair had none.
    pub fn add_interaction(&mut self, species_a: u32, species_b: u32, force: ForceType<S>)
        ensures
            final(self)@ == old(self)@.insert(
                canonical_pair(species_a, species_b),
                old(self).registered(species_a, species_b).push(force),
            ),
            final(self).default_forces == old(self).default_forces,
    {
        let key = species_key(species_a, species_b);
        let mut list: Vec<ForceType<S>> = match self.interactions.remove(&key) {
            Some(list) => list,
            None => Vec::new(),
        };
        list.push(force);
        self.interactions.insert(key, list);
        proof {
            let c = canonical_pair(species_a, species_b);
            assert(pair_key(c.0, c.1) == key);
            assert forall|p: (u32, u32)| p.0 <= p.1 && p != c implies pair_key(p.0, p.1) != key by {
                if pair_key(p.0, p.1) == key {
                    lemma_pair_key_injective(p.0, p.1, c.0, c.1);
                }
            }
            assert(final(self)@ =~= old(self)@.insert(
                c,
                old(self).registered(species_a, species_b).push(force),
            ));
        }
    }

    /// The laws that act between two species, in the order they were added;
    /// the fallback list where the pair has no entry.
    pub fn get_forces(&self, species_a: u32, species_b: u32) -> (forces: &Vec<ForceType<S>>)
        ensures
            forces@ == self.laws(species_a, species_b),
    {
        let key = species_key(species_a, species_b);
        proof {
            let c = canonical_pair(species_a, species_b);
            assert(pair_key(c.0, c.1) == key);
        }
        match self.interactions.get(&key) {
            Some(list) => list,
            None => &self.default_forces,
        }
    }
}

/// Two canonical pairs with the same table key are the same pair.
pub proof fn lemma_pair_key_injective(a: u32, b: u32, c: u32, d: u32)
    requires
        a <= b,
        c <= d,
        pair_key(a, b) == pair_key(c, d),
    ensures
        a == c,
        b == d,
{
}

/// A lookup does not depend on the order in which the two species are named.
pub proof fn lemma_laws_symmetric<S>(matrix: InteractionMatrix<S>, a: u32, b: u32)
    ensures
        matrix.laws(a, b) == matrix.laws(b, a),
{
}

/// One evaluation that a simulation step owes a particle.
#[derive(Debug, Clone, Copy, PartialEq, Eq, Structural)]
pub enum ForceTask {
    /// Global law `law`, evaluated on the particle alone.
    Global { law: usize },
    /// Law `law` of the list for the particle and `other`, a law that takes
    /// no partner, evaluated on the particle alone.
    Alone { other: usize, law: usize },
    /// Law `law` of the list for the particle and `other`, evaluated on the
    /// two of them.
    Pair { other: usize, law: usize },
    /// The flocking law at place `law` of the global list, evaluated on the
    /// particle and its flock.
    Flock { law: usize },
}

/// The tasks that the first `n` global laws give a particle: one for each law
/// that is evaluated on a particle alone.
pub open spec fn global_tasks<S>(globals: Seq<ForceType<S>>, n: int) -> Seq<ForceTask>
    decreases n,
{
    if n <= 0 || n > globals.len() {
        Seq::empty()
    } else {
        let before = global_tasks(globals, n - 1);
        if globals[n - 1].evaluation_of(false) == Evaluation::Single {
            before.push(ForceTask::Global { law: (n - 1) as usize })
        } else {
            before
        }
    }
}

/// The tasks that the first `n` laws of a pair's list give a particle whose
/// partner is `other`.
pub open spec fn law_tasks<S>(laws: Seq<ForceType<S>>, other: usize, n: int) -> Seq<ForceTask>
    decreases n,
{
    if n <= 0 || n > laws.len() {
        Seq::empty()
    } else {
        let before = law_tasks(laws, other, n - 1);
        match laws[n - 1].evaluation_of(true) {
            Evaluation::Pair => before.push(ForceTask::Pair { other, law: (n - 1) as usize }),
            Evaluation::Single => before.push(ForceTask::Alone { other, law: (n - 1) as usize }),
            Evaluation::Nothing => before,
        }
    }
}

/// The tasks that the first `n` of `partners` give particle `index`: for each
/// partner, in turn, the tasks of the laws between the two species. A partner
/// that is the particle itself, or that has no species, gives none.
pub open spec fn pair_tasks<S>(
    matrix: InteractionMatrix<S>,
    species: Seq<u32>,
    index: usize,
    partners: Seq<usize>,
    n: int,
) -> Seq<ForceTask>
    decreases n,
{
    if n <= 0 || n > partners.len() {
        Seq::empty()
    } else {
        let before = pair_tasks(matrix, species, index, partners, n - 1);
        let other = partners[n - 1];
        if other != index && other < species.len() && index < species.len() {
            let laws = matrix.laws(species[index as int], species[other as int]);
            before + law_tasks(laws, other, laws.len() as int)
        } else {
            before
        }
    }
}

/// The tasks that the flocking laws among the first `n` global laws give a
/// particle.
pub open spec fn flock_tasks<S>(globals: Seq<ForceType<S>>, n: int) -> Seq<ForceTask>
    decreases n,
{
    if n <= 0 || n > globals.len() {
        Seq::empty()
    } else {
        let before = flock_tasks(globals, n - 1);
        if globals[n - 1] is Flocking {
            before.push(ForceTask::Flock { law: (n - 1) as usize })
        } else {
            before
        }
    }
}

/// The indices `0` to `count - 1`, ascending.
pub open spec fn indices(count: nat) -> Seq<usize> {
    Seq::new(count, |j: int| j as usize)
}

/// The test for another particle of the species of particle `index`.
pub open spec fn mate_of(index: usize, species: Seq<u32>) -> spec_fn(usize) -> bool {
    |j: usize|
        j != index && j < species.len() && index < species.len() && species[j as int] == species[index as int]
}

/// The test for an index after `index`.
pub open spec fn later_than(index: usize) -> spec_fn(usize) -> bool {
    |j: usize| j > index
}

/// The indices below `count` other than `index`, ascending.
pub open spec fn all_others(index: usize, count: nat) -> Seq<usize> {
    indices(count).filter(not_index(index))
}

/// The indices of the particles other than `index` that are of its species,
/// ascending.
pub open spec fn flock_of(index: usize, species: Seq<u32>) -> Seq<usize> {
    indices(species.len()).filter(mate_of(index, species))
}

/// The indices `0` to `count - 1` contain each index below `count` once.
pub proof fn lemma_indices(count: nat)
    requires
        count <= usize::MAX,
    ensures
        indices(count).no_duplicates(),
        forall|j: usize| indices(count).contains(j) <==> j < count,
{
    let s = indices(count);
    assert forall|j: usize| s.contains(j) <==> j < count by {
        if j < count {
            assert(s[j as int] == j);
        }
        if s.contains(j) {
            let i = choose|i: int| 0 <= i < s.len() && s[i] == j;
            assert(s[i] == i as usize);
        }
    }
    assert forall|a: int, b: int| 0 <= a < s.len() && 0 <= b < s.len() && a != b implies s[a] != s[b] by {
        assert(s[a] == a as usize);
        assert(s[b] == b as usize);
    }
}

/// Whether a task is one that particle `index` can be owed: it names a law
/// of the list it is taken from, a law of the right kind, and a partner that
/// is another particle with a species.
pub open spec fn task_fits<S>(
    task: ForceTask,
    calculator: ForceCalculator<S>,
    index: usize,
    species: Seq<u32>,
) -> bool {
    match task {
        ForceTask::Global { law } => law < calculator.global_forces@.len()
            && calculator.global_forces@[law as int].evaluation_of(false) == Evaluation::Single,
        ForceTask::Flock { law } => law < calculator.global_forces@.len()
            && calculator.global_forces@[law as int] is Flocking,
        ForceTask::Pair { other, law } => {
            &&& other != index
            &&& other < species.len()
            &&& index < species.len()
            &&& law < calculator.interaction_matrix.laws(species[index as int], species[other as int]).len()
            &&& calculator.interaction_matrix.laws(species[index as int], species[other as int])[law as int]
                .is_pairwise()
        },
        ForceTask::Alone { other, law } => {
            &&& other != index
            &&& other < species.len()
            &&& index < species.len()
            &&& law < calculator.interaction_matrix.laws(species[index as int], species[other as int]).len()
            &&& calculator.interaction_matrix.laws(species[index as int], species[other as int])[law as int]
                .evaluation_of(true) == Evaluation::Single
        },
    }
}

/// Every task of the first `n` laws of a pair's list names one of those
/// laws, and a law of the kind that the task says.
pub proof fn lemma_law_tasks<S>(laws: Seq<ForceType<S>>, other: usize, n: int, t: int)
    requires
        0 <= n <= laws.len(),
        laws.len() <= usize::MAX,
        0 <= t < law_tasks(laws, other, n).len(),
    ensures
        match law_tasks(laws, other, n)[t] {
            ForceTask::Pair { other: o, law } => o == other && law < n && laws[law as int].is_pairwise(),
            ForceTask::Alone { other: o, law } => o == other && law < n && laws[law as int].evaluation_of(true)
                == Evaluation::Single,
            _ => false,
        },
    decreases n,
{
    if n > 0 {
        let before = law_tasks(laws, other, n - 1);
        if t < before.len() {
            lemma_law_tasks(laws, other, n - 1, t);
        }
    }
}

/// A step owes a particle no task that does not fit it: no law that is not
/// there, no pairing of a particle with itself, and no partner without a
/// species.
pub proof fn lemma_tasks_fit<S>(
    calculator: ForceCalculator<S>,
    index: usize,
    species: Seq<u32>,
    partners: Seq<usize>,
    t: int,
)
    requires
        calculator.global_forces@.len() <= usize::MAX,
        forall|a: u32, b: u32| calculator.interaction_matrix.laws(a, b).len() <= usize::MAX,
        0 <= t < calculator.tasks(index, species, partners).len(),
    ensures
        task_fits(calculator.tasks(index, species, partners)[t], calculator, index, species),
{
    let globals = calculator.global_forces@;
    let first = global_tasks(globals, globals.len() as int);
    let second = pair_tasks(calculator.interaction_matrix, species, index, partners, partners.len() as int);
    let third = flock_tasks(globals, globals.len() as int);
    if t < first.len() {
        lemma_global_tasks(globals, globals.len() as int, t);
    } else if t < first.len() + second.len() {
        lemma_pair_tasks(calculator, index, species, partners, partners.len() as int, t - first.len());
    } else {
        lemma_flock_tasks(globals, globals.len() as int, t - first.len() - second.len());
    }
}

/// Every task of the first `n` global laws names one of them, a law that is
/// evaluated on a particle alone.
proof fn lemma_global_tasks<S>(globals: Seq<ForceType<S>>, n: int, t: int)
    requires
        0 <= n <= globals.len(),
        globals.len() <= usize::MAX,
        0 <= t < global_tasks(globals, n).len(),
    ensures
        global_tasks(globals, n)[t] matches ForceTask::Global { law } && law < n && globals[law as int].evaluation_of(
            false,
        ) == Evaluation::Single,
    decreases n,
{
    if n > 0 {
        let before = global_tasks(globals, n - 1);
        if t < before.len() {
            lemma_global_tasks(globals, n - 1, t);
        }
    }
}

/// Every flocking task of the first `n` global laws names one of them, a
/// flocking law.
proof fn lemma_flock_tasks<S>(globals: Seq<ForceType<S>>, n: int, t: int)
    requires
        0 <= n <= globals.len(),
        globals.len() <= usize::MAX,
        0 <= t < flock_tasks(globals, n).len(),
    ensures
        flock_tasks(globals, n)[t] matches ForceTask::Flock { law } && law < n && globals[law as int] is Flocking,
    decreases n,
{
    if n > 0 {
        let before = flock_tasks(globals, n - 1);
        if t < before.len() {
            lemma_flock_tasks(globals, n - 1, t);
        }
    }
}

/// Every task of the first `n` partners fits the particle.
proof fn lemma_pair_tasks<S>(
    calculator: ForceCalculator<S>,
    index: usize,
    species: Seq<u32>,
    partners: Seq<usize>,
    n: int,
    t: int,
)
    requires
        0 <= n <= partners.len(),
        forall|a: u32, b: u32| calculator.interaction_matrix.laws(a, b).len() <= usize::MAX,
        0 <= t < pair_tasks(calculator.interaction_matrix, species, index, partners, n).len(),
    ensures
        task_fits(pair_tasks(calculator.interaction_matrix, species, index, partners, n)[t], calculator, index, species),
        pair_tasks(calculator.interaction_matrix, species, index, partners, n)[t] is Pair || pair_tasks(
            calculator.interaction_matrix,
            species,
            index,
            partners,
            n,
        )[t] is Alone,
    decreases n,
{
    if n > 0 {
        let before = pair_tasks(calculator.interaction_matrix, species, index, partners, n - 1);
        if t < before.len() {
            lemma_pair_tasks(calculator, index, species, partners, n - 1, t);
        } else {
            let other = partners[n - 1];
            let laws = calculator.interaction_matrix.laws(species[index as int], species[other as int]);
            assert(laws.len() <= usize::MAX);
            lemma_law_tasks(laws, other, laws.len() as int, t - before.len());
        }
    }
}

/// The partners of a particle where no index narrows them down are the other
/// particles, each once.
pub proof fn lemma_all_others(index: usize, count: nat)
    requires
        count <= usize::MAX,
    ensures
        all_others(index, count).no_duplicates(),
        forall|j: usize| all_others(index, count).contains(j) <==> j < count && j != index,
{
    lemma_indices(count);
    lemma_filter_exact(indices(count), not_index(index));
    assert forall|j: usize| all_others(index, count).contains(j) <==> j < count && j != index by {
        assert(not_index(index)(j) == (j != index));
        assert(indices(count).contains(j) <==> j < count);
    }
}

/// Every particle other than `index`, in ascending order: the partners of a
/// particle where no spatial index narrows them down.
pub fn partners_of(index: usize, count: usize) -> (partners: Vec<usize>)
    ensures
        partners@ == all_others(index, count as nat),
{
    let ghost every = indices(count as nat);
    let ghost other = not_index(index);
    let mut partners: Vec<usize> = Vec::new();
    let mut j: usize = 0;
    while j < count
        invariant
            j <= count,
            every == indices(count as nat),
            other == not_index(index),
            partners@ == every.take(j as int).filter(other),
        decreases count - j,
    {
        proof {
            assert(every.take(j as int + 1) =~= every.take(j as int).push(j));
            Seq::lemma_filter_push(every.take(j as int), j, other);
        }
        if j != index {
            partners.push(j);
        }
        j = j + 1;
    }
    proof {
        assert(every.take(count as int) =~= every);
    }
    partners
}

/// The partners of particle `index` for laws that reach no further than
/// `reach`: with a spatial index and a reach, the other particles that the
/// index took and that lie within the reach of the particle, each once; with
/// no index or no reach, every other particle of `count`, ascending.
pub fn partners_within(
    index: usize,
    count: usize,
    spatial: Option<&SpatialPartitioning>,
    reach: Option<u32>,
) -> (partners: Vec<usize>)
    requires
        spatial matches Some(s) ==> s.wf(),
    ensures
        spatial is None || reach is None ==> partners@ == all_others(index, count as nat),
        spatial is Some && reach is Some ==> partners@.no_duplicates(),
        spatial is Some && reach is Some ==> forall|x: usize|
            partners@.contains(x) <==> x != index && index < spatial->0@.len() && x < spatial->0@.len()
                && spatial->0.covers(spatial->0@[x as int]) && within_radius(
                spatial->0@[index as int],
                spatial->0@[x as int],
                reach->0,
            ),
{
    match spatial {
        Some(s) => match reach {
            Some(r) => s.query_neighbors_for_particle(index, r),
            None => partners_of(index, count),
        },
        None => partners_of(index, count),
    }
}

/// The flock of particle `index`: the other particles of its species, in
/// ascending order. `species[i]` is the species of particle `i`.
pub fn flock_candidates(index: usize, species: &Vec<u32>) -> (flock: Vec<usize>)
    ensures
        flock@ == flock_of(index, species@),
{
    let ghost every = indices(species@.len());
    let ghost mate = mate_of(index, species@);
    let mut flock: Vec<usize> = Vec::new();
    let mut j: usize = 0;
    while j < species.len()
        invariant
            j <= species@.len(),
            every == indices(species@.len()),
            mate == mate_of(index, species@),
            flock@ == every.take(j as int).filter(mate),
        decreases species@.len() - j,
    {
        proof {
            assert(every.take(j as int + 1) =~= every.take(j as int).push(j));
            Seq::lemma_filter_push(every.take(j as int), j, mate);
        }
        if index < species.len() && j != index && species[j] == species[index] {
            flock.push(j);
        }
        j = j + 1;
    }
    proof {
        assert(every.take(species@.len() as int) =~= every);
    }
    flock
}

/// The force laws of a simulation: the laws between species, the laws that
/// act on every particle, and the time step they are evaluated for.
#[derive(Debug, Clone)]
pub struct ForceCalculator<S> {
    pub interaction_matrix: InteractionMatrix<S>,
    pub global_forces: Vec<ForceType<S>>,
    pub dt: S,
}

impl<S> ForceCalculator<S> {
    /// All that a step owes particle `index`, in the order of evaluation:
    /// the global laws, then the laws for each partner in turn, then the
    /// flocking laws.
    pub open spec fn tasks(self, index: usize, species: Seq<u32>, partners: Seq<usize>) -> Seq<ForceTask> {
        global_tasks(self.global_forces@, self.global_forces@.len() as int) + pair_tasks(
            self.interaction_matrix,
            species,
            index,
            partners,
            partners.len() as int,
        ) + flock_tasks(self.global_forces@, self.global_forces@.len() as int)
    }

    /// A calculator without global laws.
    pub fn new(interaction_matrix: InteractionMatrix<S>, dt: S) -> (calculator: Self)
        ensures
            calculator.interaction_matrix == interaction_matrix,
            calculator.global_forces@ == Seq::<ForceType<S>>::empty(),
            calculator.dt == dt,
    {
        ForceCalculator { interaction_matrix, global_forces: Vec::new(), dt }
    }

    /// The same calculator with another time step.
    pub fn with_dt(self, dt: S) -> (calculator: Self)
        ensures
            calculator.interaction_matrix == self.interaction_matrix,
            calculator.global_forces == self.global_forces,
            calculator.dt == dt,
    {
        ForceCalculator { interaction_matrix: self.interaction_matrix, global_forces: self.global_forces, dt }
    }

    /// Appends a law that acts on every particle.
    pub fn add_global_force(&mut self, force: ForceType<S>)
        ensures
            final(self).global_forces@ == old(self).global_forces@.push(force),
            final(self).interaction_matrix == old(self).interaction_matrix,
            final(self).dt == old(self).dt,
    {
        self.global_forces.push(force);
    }

    /// Lists what a step has to evaluate for particle `index`, given the
    /// species of every particle and the partners to consider. Laws that
    /// contribute nothing are left out.
    pub fn apply_forces(&self, index: usize, species: &Vec<u32>, partners: &Vec<usize>) -> (tasks: Vec<ForceTask>)
        ensures
            tasks@ == self.tasks(index, species@, partners@),
    {
        let mut tasks: Vec<ForceTask> = Vec::new();
        let mut g: usize = 0;
        while g < self.global_forces.len()
            invariant
                g <= self.global_forces@.len(),
                tasks@ == global_tasks(self.global_forces@, g as int),
            decreases self.global_forces@.len() - g,
        {
            match self.global_forces[g].evaluation(false) {
                Evaluation::Single => {
                    tasks.push(ForceTask::Global { law: g });
                },
                _ => {},
            }
            g = g + 1;
        }
        let ghost first = tasks@;
        let mut p: usize = 0;
        while p < partners.len()
            invariant
                p <= partners@.len(),
                first == global_tasks(self.global_forces@, self.global_forces@.len() as int),
                tasks@ == first + pair_tasks(self.interaction_matrix, species@, index, partners@, p as int),
            decreases partners@.len() - p,
        {
            let other = partners[p];
            let ghost before = tasks@;
            if other != index && other < species.len() && index < species.len() {
                let laws = self.interaction_matrix.get_forces(species[index], species[other]);
                let mut l: usize = 0;
                while l < laws.len()
                    invariant
                        l <= laws@.len(),
                        tasks@ == before + law_tasks(laws@, other, l as int),
                    decreases laws@.len() - l,
                {
                    match laws[l].evaluation(true) {
                        Evaluation::Pair => {
                            tasks.push(ForceTask::Pair { other, law: l });
                        },
                        Evaluation::Single => {
                            tasks.push(ForceTask::Alone { other, law: l });
                        },
                        Evaluation::Nothing => {},
                    }
                    proof {
                        assert(tasks@ =~= before + law_tasks(laws@, other, l as int + 1));
                    }
                    l = l + 1;
                }
            }
            proof {
                assert(tasks@ =~= first + pair_tasks(
                    self.interaction_matrix,
                    species@,
                    index,
                    partners@,
                    p as int + 1,
                ));
            }
            p = p + 1;
        }
        let ghost second = tasks@;
        let mut f: usize = 0;
        while f < self.global_forces.len()
            invariant
                f <= self.global_forces@.len(),
                tasks@ == second + flock_tasks(self.global_forces@, f as int),
            decreases self.global_forces@.len() - f,
        {
            if self.global_forces[f].is_flocking() {
                tasks.push(ForceTask::Flock { law: f });
            }
            proof {
                assert(tasks@ =~= second + flock_tasks(self.global_forces@, f as int + 1));
            }
            f = f + 1;
        }
        tasks
    }
}

/// The numerical scheme that advances the particles.
#[derive(Debug, Clone, Copy, PartialEq, Eq, Structural)]
pub enum IntegrationMethod {
    Euler,
    Verlet,
    RungeKutta4,
}

/// The settings of the physics engine.
#[derive(Debug, Clone)]
pub struct PhysicsConfig<S> {
    pub integration_method: IntegrationMethod,
    pub dt: S,
    pub max_force: S,
    pub max_velocity: S,
    pub enable_collisions: bool,
    pub collision_restitution: S,
}

/// What one step of the engine consists of, after the forces are
/// accumulated.
#[derive(Debug, Clone, Copy, PartialEq, Eq, Structural)]
pub struct StepPlan {
    /// The scheme to integrate with.
    pub method: IntegrationMethod,
    /// Whether the positions remembered from the step before are stale and
    /// have to be replaced by the present positions before integrating.
    pub reset_previous_positions: bool,
    /// Whether collisions are resolved after integrating.
    pub resolve_collisions: bool,
}

/// The engine that drives a step: it owns the settings and the force laws,
/// and keeps track of how many previous positions the Verlet scheme has
/// remembered.
#[derive(Debug, Clone)]
pub struct PhysicsEngine<S> {
    pub config: PhysicsConfig<S>,
    pub force_calculator: ForceCalculator<S>,
    /// For how many particles the Verlet scheme has a previous position.
    pub previous_positions: usize,
}

impl<S: Copy> PhysicsEngine<S> {
    /// For how many particles the Verlet scheme has a previous position.
    pub open spec fn remembered(&self) -> nat {
        self.previous_positions as nat
    }

    /// The plan of a step over `particle_count` particles for an engine with
    /// these settings that remembers `remembered` previous positions.
    pub open spec fn plan(config: PhysicsConfig<S>, remembered: nat, particle_count: nat) -> StepPlan {
        StepPlan {
            method: config.integration_method,
            reset_previous_positions: config.integration_method == IntegrationMethod::Verlet && remembered
                != particle_count,
            resolve_collisions: config.enable_collisions,
        }
    }

    /// An engine with these settings and laws between species, without
    /// global laws, that has no previous positions yet.
    pub fn new(config: PhysicsConfig<S>, interaction_matrix: InteractionMatrix<S>) -> (engine: Self)
        ensures
            engine.config == config,
            engine.force_calculator.interaction_matrix == interaction_matrix,
            engine.force_calculator.global_forces@ == Seq::<ForceType<S>>::empty(),
            engine.force_calculator.dt == config.dt,
            engine.remembered() == 0,
    {
        let dt = config.dt;
        PhysicsEngine { config, force_calculator: ForceCalculator::new(interaction_matrix, dt), previous_positions: 0 }
    }

    /// Begins a step over `particle_count` particles: hands the time step of
    /// the settings to the force laws and says what the step consists of.
    /// After a Verlet step the engine remembers a previous position for each
    /// of the particles; the other schemes leave what it remembers alone.
    pub fn update(&mut self, particle_count: usize) -> (plan: StepPlan)
        ensures
            plan == Self::plan(old(self).config, old(self).remembered(), particle_count as nat),
            final(self).config == old(self).config,
            final(self).force_calculator.dt == old(self).config.dt,
            final(self).force_calculator.interaction_matrix == old(self).force_calculator.interaction_matrix,
            final(self).force_calculator.global_forces == old(self).force_calculator.global_forces,
            final(self).remembered() == if old(self).config.integration_method == IntegrationMethod::Verlet {
                particle_count as nat
            } else {
                old(self).remembered()
            },
    {
        self.force_calculator.dt = self.config.dt;
        let verlet = match self.config.integration_method {
            IntegrationMethod::Verlet => true,
            _ => false,
        };
        let reset = verlet && self.previous_positions != particle_count;
        if verlet {
            self.previous_positions = particle_count;
        }
        StepPlan {
            method: self.config.integration_method,
            reset_previous_positions: reset,
            resolve_collisions: self.config.enable_collisions,
        }
    }
}

/// One pass over the particles within a step.
#[derive(Debug, Clone, Copy, PartialEq, Eq, Structural)]
pub enum StepPhase {
    /// The spatial index is rebuilt from the present positions.
    RebuildIndex,
    /// The forces on every particle are added up, from a snapshot of all
    /// particles, into the particle's own acceleration.
    AccumulateForces,
    /// The previous positions of the Verlet scheme are replaced by the
    /// present positions.
    ResetPreviousPositions,
    /// Velocities and positions are advanced, and the accelerations reset.
    Integrate(IntegrationMethod),
    /// Overlapping particles are pushed apart.
    ResolveCollisions,
    /// Particles outside the domain are dealt with.
    ApplyBoundary(BoundaryType),
    /// Particles past their lifespan, or taken by the boundary, leave the
    /// store.
    PruneDead,
}

/// The passes of a step, in order: the index is rebuilt where there is one;
/// forces are accumulated; the particles are integrated, after the previous
/// positions were reset where the plan says so, and collisions resolved
/// where it says so; the boundary is applied where there is one; and the
/// dead are pruned.
pub open spec fn phases_of(plan: StepPlan, indexed: bool, boundary: Option<BoundaryType>) -> Seq<StepPhase> {
    (if indexed {
        seq![StepPhase::RebuildIndex]
    } else {
        Seq::empty()
    }) + seq![StepPhase::AccumulateForces] + (if plan.reset_previous_positions {
        seq![StepPhase::ResetPreviousPositions]
    } else {
        Seq::empty()
    }) + seq![StepPhase::Integrate(plan.method)] + (if plan.resolve_collisions {
        seq![StepPhase::ResolveCollisions]
    } else {
        Seq::empty()
    }) + (match boundary {
        Some(b) => seq![StepPhase::ApplyBoundary(b)],
        None => Seq::empty(),
    }) + seq![StepPhase::PruneDead]
}

/// Lists the passes of a step in the order in which they are made.
pub fn step_phases(plan: StepPlan, indexed: bool, boundary: Option<BoundaryType>) -> (phases: Vec<StepPhase>)
    ensures
        phases@ == phases_of(plan, indexed, boundary),
{
    let mut phases: Vec<StepPhase> = Vec::new();
    if indexed {
        phases.push(StepPhase::RebuildIndex);
    }
    phases.push(StepPhase::AccumulateForces);
    if plan.reset_previous_positions {
        phases.push(StepPhase::ResetPreviousPositions);
    }
    phases.push(StepPhase::Integrate(plan.method));
    if plan.resolve_collisions {
        phases.push(StepPhase::ResolveCollisions);
    }
    match boundary {
        Some(b) => {
            phases.push(StepPhase::ApplyBoundary(b));
        },
        None => {},
    }
    phases.push(StepPhase::PruneDead);
    assert(phases@ =~= phases_of(plan, indexed, boundary));
    phases
}

/// In every step the forces are accumulated before the particles are
/// integrated, and the dead are pruned last.
pub proof fn lemma_step_order(plan: StepPlan, indexed: bool, boundary: Option<BoundaryType>)
    ensures
        ({
            let phases = phases_of(plan, indexed, boundary);
            &&& phases.last() == StepPhase::PruneDead
            &&& exists|a: int, i: int|
                0 <= a < i < phases.len() && phases[a] == StepPhase::AccumulateForces && phases[i]
                    == StepPhase::Integrate(plan.method)
            &&& indexed ==> phases[0] == StepPhase::RebuildIndex
        }),
{
    let phases = phases_of(plan, indexed, boundary);
    let a: int = if indexed {
        1
    } else {
        0
    };
    let i: int = a + 1 + if plan.reset_previous_positions {
        1int
    } else {
        0int
    };
    assert(phases[a] == StepPhase::AccumulateForces);
    assert(phases[i] == StepPhase::Integrate(plan.method));
}

/// The partners against which particle `index` of `count` is tested for a
/// collision: the particles after it.
pub open spec fn later_particles(index: usize, count: nat) -> Seq<usize> {
    indices(count).filter(later_than(index))
}

/// The particles after `index`, ascending: each unordered pair of particles
/// is tested for a collision once, from its member with the lower index.
pub fn collision_partners(index: usize, count: usize) -> (partners: Vec<usize>)
    ensures
        partners@ == later_particles(index, count as nat),
{
    let ghost every = indices(count as nat);
    let ghost later = later_than(index);
    let mut partners: Vec<usize> = Vec::new();
    let mut j: usize = 0;
    while j < count
        invariant
            j <= count,
            every == indices(count as nat),
            later == later_than(index),
            partners@ == every.take(j as int).filter(later),
        decreases count - j,
    {
        proof {
            assert(every.take(j as int + 1) =~= every.take(j as int).push(j));
            Seq::lemma_filter_push(every.take(j as int), j, later);
        }
        if j > index {
            partners.push(j);
        }
        j = j + 1;
    }
    proof {
        assert(every.take(count as int) =~= every);
    }
    partners
}

} // verus!
