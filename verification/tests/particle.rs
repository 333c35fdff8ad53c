use inochi::particle::ParticleSystem;

#[derive(Debug, Clone, Copy, PartialEq)]
struct Particle {
    position: (f32, f32),
    age: f32,
    lifespan: f32,
}

impl Particle {
    fn new(position: (f32, f32)) -> Self {
        Particle { position, age: 0.0, lifespan: f32::INFINITY }
    }

    fn with_lifespan(mut self, lifespan: f32) -> Self {
        self.lifespan = lifespan;
        self
    }

    fn is_alive(&self) -> bool {
        self.age < self.lifespan
    }
}

fn age_all(system: &mut ParticleSystem<Particle>, dt: f32) {
    for i in 0..system.particle_count() {
        let mut p = system.particles()[i];
        p.age += dt;
        system.set_particle(i, p);
    }
}

fn prune(system: &mut ParticleSystem<Particle>) {
    let alive: Vec<bool> = system.particles().iter().map(|p| p.is_alive()).collect();
    system.prune_dead(&alive);
}

#[test]
fn test_particle_system() {
    let mut system = ParticleSystem::new(10);
    assert_eq!(system.particle_count(), 0);

    system.add_particle(Particle::new((0.0, 0.0)));
    assert_eq!(system.particle_count(), 1);
}

#[test]
fn insertion_beyond_capacity_is_dropped() {
    let mut system = ParticleSystem::new(2);
    assert_eq!(system.max_particles(), 2);
    assert!(system.add_particle(1u8));
    assert!(system.add_particle(2u8));
    assert!(!system.add_particle(3u8));
    assert_eq!(system.particles(), &vec![1u8, 2u8]);
    let mut none: ParticleSystem<u8> = ParticleSystem::new(0);
    assert!(!none.add_particle(1));
    assert_eq!(none.particle_count(), 0);
}

#[test]
fn clear_after_inserts_leaves_nothing() {
    let mut system = ParticleSystem::new(100);
    for i in 0..250u32 {
        system.add_particle(i);
    }
    assert_eq!(system.particle_count(), 100);
    system.clear();
    assert_eq!(system.particle_count(), 0);
    assert_eq!(system.max_particles(), 100);
    assert!(system.add_particle(7));
}

#[test]
fn prune_keeps_the_order_of_the_survivors() {
    let mut system = ParticleSystem::new(10);
    for i in 0..6u32 {
        system.add_particle(i);
    }
    system.prune_dead(&vec![true, false, false, true, true, false]);
    assert_eq!(system.particles(), &vec![0, 3, 4]);
    system.prune_dead(&vec![false, false, false]);
    assert_eq!(system.particle_count(), 0);
    system.prune_dead(&vec![]);
    assert_eq!(system.particle_count(), 0);
    // a particle without a flag goes; a flag without a particle is not looked at
    for i in 0..3u32 {
        system.add_particle(i);
    }
    system.prune_dead(&vec![true, true]);
    assert_eq!(system.particles(), &vec![0, 1]);
    system.prune_dead(&vec![false, true, true, true]);
    assert_eq!(system.particles(), &vec![1]);
}

#[test]
fn prune_twice_removes_nothing_more() {
    let mut system = ParticleSystem::new(10);
    system.add_particle(Particle::new((0.0, 0.0)).with_lifespan(1.0));
    system.add_particle(Particle::new((1.0, 0.0)));
    system.add_particle(Particle::new((2.0, 0.0)).with_lifespan(2.0));
    age_all(&mut system, 1.5);
    prune(&mut system);
    let once = system.particles().clone();
    prune(&mut system);
    assert_eq!(system.particles(), &once);
    assert_eq!(once.len(), 2);
    assert_eq!(once[0].position, (1.0, 0.0));
    assert_eq!(once[1].position, (2.0, 0.0));
}

#[test]
fn particle_past_its_lifespan_is_pruned() {
    let mut system = ParticleSystem::new(10);
    system.add_particle(Particle::new((0.0, 0.0)).with_lifespan(1.0));
    age_all(&mut system, 0.6);
    prune(&mut system);
    assert_eq!(system.particle_count(), 1);
    age_all(&mut system, 0.6);
    prune(&mut system);
    assert_eq!(system.particle_count(), 0);
}
