//! The particle store: a dense sequence of particles in insertion order,
//! bounded by a capacity that is fixed when the store is made.
//!
//! What a particle is, is up to the embedding application; the store holds
//! particles and never looks inside one.
use vstd::prelude::*;

verus! {

/// The particles of `particles` whose flag in `alive` is set, in their order.
/// Where `alive` is shorter than `particles`, the particles without a flag
/// count as dead.
pub open spec fn survivors<P>(particles: Seq<P>, alive: Seq<bool>) -> Seq<P>
    decreases particles.len(),
{
    if particles.len() == 0 {
        particles
    } else {
        let before = survivors(particles.drop_last(), alive);
        if particles.len() <= alive.len() && alive[particles.len() - 1] {
            before.push(particles.last())
        } else {
            before
        }
    }
}

/// What a store that holds `particles` and has room for `capacity` holds
/// after it was offered `particle`: the particle is appended if there is
/// room, and dropped otherwise.
pub open spec fn offered<P>(particles: Seq<P>, capacity: nat, particle: P) -> Seq<P> {
    if particles.len() < capacity {
        particles.push(particle)
    } else {
        particles
    }
}

/// What a store holds after it was offered each of `offers` in turn.
pub open spec fn offered_all<P>(particles: Seq<P>, capacity: nat, offers: Seq<P>) -> Seq<P>
    decreases offers.len(),
{
    if offers.len() == 0 {
        particles
    } else {
        offered(offered_all(particles, capacity, offers.drop_last()), capacity, offers.last())
    }
}

/// A bounded store of particles.
#[derive(Debug, Clone)]
pub struct ParticleSystem<P> {
    particles: Vec<P>,
    max_particles: usize,
}

impl<P> View for ParticleSystem<P> {
    type V = Seq<P>;

    /// The particles in the store, in insertion order.
    closed spec fn view(&self) -> Seq<P> {
        self.particles@
    }
}

impl<P> ParticleSystem<P> {
    /// The most particles that the store holds.
    pub closed spec fn capacity(&self) -> nat {
        self.max_particles as nat
    }

    /// The store holds no more particles than it has room for. Every store
    /// that `new` made and that only this module's functions changed is well
    /// formed.
    pub open spec fn wf(&self) -> bool {
        self@.len() <= self.capacity()
    }

    /// An empty store with room for `max_particles` particles.
    pub fn new(max_particles: usize) -> (system: Self)
        ensures
            system@ == Seq::<P>::empty(),
            system.capacity() == max_particles,
            system.wf(),
    {
        ParticleSystem { particles: Vec::new(), max_particles }
    }

    /// Appends `particle` if the store has room, and drops it otherwise.
    /// Returns whether the particle was taken.
    pub fn add_particle(&mut self, particle: P) -> (inserted: bool)
        ensures
            inserted == (old(self)@.len() < old(self).capacity()),
            final(self)@ == offered(old(self)@, old(self).capacity(), particle),
            final(self).capacity() == old(self).capacity(),
            old(self).wf() ==> final(self).wf(),
    {
        if self.particles.len() < self.max_particles {
            self.particles.push(particle);
            true
        } else {
            false
        }
    }

    /// The number of particles in the store.
    pub fn particle_count(&self) -> (count: usize)
        ensures
            count == self@.len(),
    {
        self.particles.len()
    }

    /// The room that the store was made with.
    pub fn max_particles(&self) -> (room: usize)
        ensures
            room == self.capacity(),
    {
        self.max_particles
    }

    /// Removes every particle. The capacity stays.
    pub fn clear(&mut self)
        ensures
            final(self)@ == Seq::<P>::empty(),
            final(self).capacity() == old(self).capacity(),
            final(self).wf(),
    {
        self.particles.clear();
    }

    /// The particles, in insertion order.
    pub fn particles(&self) -> (all: &Vec<P>)
        ensures
            all@ == self@,
    {
        &self.particles
    }

    /// Puts `particle` in the place of particle `index`.
    pub fn set_particle(&mut self, index: usize, particle: P)
        requires
            index < old(self)@.len(),
        ensures
            final(self)@ == old(self)@.update(index as int, particle),
            final(self).capacity() == old(self).capacity(),
            old(self).wf() ==> final(self).wf(),
    {
        self.particles[index] = particle;
    }
}

impl<P: Copy> ParticleSystem<P> {
    /// Removes the particles whose flag in `alive` is not set: particle `i`
    /// stays if and only if `alive[i]` is set; a particle without a flag
    /// goes. The survivors keep their order.
    pub fn prune_dead(&mut self, alive: &Vec<bool>)
        ensures
            final(self)@ == survivors(old(self)@, alive@),
            final(self).capacity() == old(self).capacity(),
            old(self).wf() ==> final(self).wf(),
    {
        let mut kept: Vec<P> = Vec::new();
        let mut index: usize = 0;
        while index < self.particles.len()
            invariant
                index <= self.particles@.len(),
                kept@ == survivors(self.particles@.take(index as int), alive@),
                kept@.len() <= index,
            decreases self.particles@.len() - index,
        {
            proof {
                assert(self.particles@.take(index as int + 1).drop_last() =~= self.particles@.take(index as int));
            }
            if index < alive.len() && alive[index] {
                kept.push(self.particles[index]);
            }
            index = index + 1;
        }
        proof {
            assert(self.particles@.take(self.particles@.len() as int) =~= self.particles@);
        }
        self.particles = kept;
    }
}

/// Offers fill a store up to its capacity and not beyond: a store that held
/// no more than its capacity holds, after any offers, the smaller of its
/// capacity and the number of particles held and offered.
pub proof fn lemma_offers_respect_capacity<P>(particles: Seq<P>, capacity: nat, offers: Seq<P>)
    requires
        particles.len() <= capacity,
    ensures
        offered_all(particles, capacity, offers).len() == if particles.len() + offers.len() <= capacity {
            particles.len() + offers.len()
        } else {
            capacity
        },
    decreases offers.len(),
{
    if offers.len() > 0 {
        lemma_offers_respect_capacity(particles, capacity, offers.drop_last());
    }
}

/// The survivors are no more than the particles, and no more than the flags
/// that are set.
pub proof fn lemma_survivors_len<P>(particles: Seq<P>, alive: Seq<bool>)
    ensures
        survivors(particles, alive).len() <= particles.len(),
    decreases particles.len(),
{
    if particles.len() > 0 {
        lemma_survivors_len(particles.drop_last(), alive);
    }
}

/// Where every flag is set, every particle survives.
pub proof fn lemma_all_alive_survive<P>(particles: Seq<P>, alive: Seq<bool>)
    requires
        particles.len() <= alive.len(),
        forall|i: int| 0 <= i < particles.len() ==> alive[i],
    ensures
        survivors(particles, alive) == particles,
    decreases particles.len(),
{
    if particles.len() > 0 {
        lemma_all_alive_survive(particles.drop_last(), alive);
        assert(particles.drop_last().push(particles.last()) =~= particles);
    }
}

/// The flags of the survivors are all set.
pub proof fn lemma_survivor_flags_set(alive: Seq<bool>, n: int)
    requires
        0 <= n <= alive.len(),
    ensures
        forall|i: int|
            0 <= i < survivors(alive.take(n), alive).len() ==> #[trigger] survivors(alive.take(n), alive)[i],
    decreases n,
{
    if n > 0 {
        lemma_survivor_flags_set(alive, n - 1);
        assert(alive.take(n).drop_last() =~= alive.take(n - 1));
        let before = survivors(alive.take(n - 1), alive);
        let now = survivors(alive.take(n), alive);
        assert(alive.take(n).last() == alive[n - 1]);
        assert forall|i: int| 0 <= i < now.len() implies #[trigger] now[i] by {
            if i < before.len() {
                assert(before[i]);
                assert(now[i] == before[i]);
            }
        }
    }
}

/// Pruning twice in a row removes nothing the second time: with the flags
/// that the survivors brought along, the survivors of the survivors are the
/// survivors.
pub proof fn lemma_prune_idempotent<P>(particles: Seq<P>, alive: Seq<bool>)
    requires
        alive.len() == particles.len(),
    ensures
        survivors(alive, alive).len() == survivors(particles, alive).len(),
        survivors(survivors(particles, alive), survivors(alive, alive)) == survivors(particles, alive),
{
    lemma_survivors_same_len(particles, alive, alive, particles.len() as int);
    assert(particles.take(particles.len() as int) =~= particles);
    assert(alive.take(alive.len() as int) =~= alive);
    lemma_survivor_flags_set(alive, alive.len() as int);
    lemma_all_alive_survive(survivors(particles, alive), survivors(alive, alive));
}

/// Two sequences pruned by the same flags lose the same places.
proof fn lemma_survivors_same_len<P, Q>(a: Seq<P>, b: Seq<Q>, alive: Seq<bool>, n: int)
    requires
        0 <= n <= a.len(),
        a.len() == b.len(),
    ensures
        survivors(a.take(n), alive).len() == survivors(b.take(n), alive).len(),
    decreases n,
{
    if n > 0 {
        lemma_survivors_same_len(a, b, alive, n - 1);
        assert(a.take(n).drop_last() =~= a.take(n - 1));
        assert(b.take(n).drop_last() =~= b.take(n - 1));
    }
}

} // verus!
