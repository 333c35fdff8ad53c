use inochi::text::{ends_with, same_bytes};
use inochi::config::{AxisResponse, BoundaryAction, BoundaryResponse, BoundaryType, Crossing, ConfigError, ConfigFormat, ConfigManager, ParticleRenderMode, Preset};

#[test]
fn preset_names_and_descriptions() {
    assert_eq!(Preset::ParticleLife.name(), "Particle Life");
    assert_eq!(Preset::Flocking.name(), "Flocking/Boids");
    assert_eq!(Preset::Gravity.name(), "N-Body Gravity");
    assert_eq!(Preset::Electromagnetic.name(), "Electromagnetic");
    assert_eq!(Preset::Brownian.name(), "Brownian Motion");
    assert_eq!(Preset::ReactionDiffusion.name(), "Reaction-Diffusion");
    assert_eq!(
        Preset::ParticleLife.description(),
        "Classic particle life with species-based attraction and repulsion"
    );
    assert_eq!(
        Preset::Flocking.description(),
        "Emergent flocking behavior with separation, alignment, and cohesion"
    );
    assert_eq!(
        Preset::Gravity.description(),
        "Gravitational n-body simulation with realistic orbital dynamics"
    );
    assert_eq!(Preset::Electromagnetic.description(), "Charged particles with electromagnetic forces");
    assert_eq!(Preset::Brownian.description(), "Random walk particles demonstrating Brownian motion");
    assert_eq!(
        Preset::ReactionDiffusion.description(),
        "Reaction-diffusion patterns with activator-inhibitor dynamics"
    );
}

#[test]
fn every_preset_is_listed_once() {
    let all = Preset::all();
    assert_eq!(all.len(), 6);
    for (i, a) in all.iter().enumerate() {
        for b in all.iter().skip(i + 1) {
            assert_ne!(a, b);
            assert_ne!(a.name(), b.name());
        }
    }
}

#[test]
fn closed_sets_of_choices() {
    assert_ne!(ParticleRenderMode::Points, ParticleRenderMode::Circles);
    assert_ne!(ParticleRenderMode::Sprites, ParticleRenderMode::Metaballs);
    assert_ne!(ParticleRenderMode::Lines, ParticleRenderMode::Trails);
    assert_ne!(BoundaryType::Reflective, BoundaryType::Wrapping);
    assert_ne!(BoundaryType::Absorbing, BoundaryType::Elastic);
}

#[test]
fn format_is_read_off_the_path() {
    assert_eq!(ConfigFormat::from_path("settings.json"), Ok(ConfigFormat::Json));
    assert_eq!(ConfigFormat::from_path("presets/life.toml"), Ok(ConfigFormat::Toml));
    assert_eq!(ConfigFormat::from_path(".json"), Ok(ConfigFormat::Json));
    assert_eq!(ConfigFormat::from_path("json"), Err(ConfigError::UnsupportedFormat));
    assert_eq!(ConfigFormat::from_path("settings.JSON"), Err(ConfigError::UnsupportedFormat));
    assert_eq!(ConfigFormat::from_path("settings.json.bak"), Err(ConfigError::UnsupportedFormat));
    assert_eq!(ConfigFormat::from_path(""), Err(ConfigError::UnsupportedFormat));
    assert_eq!(ConfigFormat::from_path("größe.toml"), Ok(ConfigFormat::Toml));
}

#[test]
fn manager_without_a_path_cannot_save() {
    let mut manager = ConfigManager::new(1000usize);
    assert_eq!(manager.save(), Err(ConfigError::NoPath));
    assert_eq!(manager.save_to_file("out.toml"), Ok(ConfigFormat::Toml));
    assert_eq!(manager.save_to_file("out.yaml"), Err(ConfigError::UnsupportedFormat));
    assert_eq!(*manager.config(), 1000);
    manager.config = 5;
    manager.reset_to_defaults(1000);
    assert_eq!(*manager.config(), 1000);
    let loaded = ConfigManager::from_file("conf.json".to_string(), 3usize);
    assert_eq!(loaded.save(), Ok(ConfigFormat::Json));
    let odd = ConfigManager::from_file("conf.txt".to_string(), 3usize);
    assert_eq!(odd.save(), Err(ConfigError::UnsupportedFormat));
    assert_eq!(ConfigError::NoPath.message(), "No config path set. Use save_to_file() instead.");
    assert_eq!(
        ConfigError::UnsupportedFormat.message(),
        "Unsupported config file format. Use .json or .toml"
    );
}

#[test]
fn boundary_actions() {
    assert_eq!(BoundaryType::Reflective.action(), BoundaryAction::Reflect { damped: true });
    assert_eq!(BoundaryType::Elastic.action(), BoundaryAction::Reflect { damped: false });
    assert_eq!(BoundaryType::Wrapping.action(), BoundaryAction::Wrap);
    assert_eq!(BoundaryType::Absorbing.action(), BoundaryAction::Remove);
}

#[test]
fn boundary_responses() {
    let inside = BoundaryResponse { x: AxisResponse::Keep, y: AxisResponse::Keep, remove: false };
    for boundary in [BoundaryType::Reflective, BoundaryType::Absorbing, BoundaryType::Wrapping, BoundaryType::Elastic] {
        assert_eq!(boundary.respond(Crossing::Inside, Crossing::Inside), inside);
    }
    assert_eq!(
        BoundaryType::Reflective.respond(Crossing::Below, Crossing::Above),
        BoundaryResponse {
            x: AxisResponse::BounceOffLower { damped: true },
            y: AxisResponse::BounceOffUpper { damped: true },
            remove: false
        }
    );
    assert_eq!(
        BoundaryType::Elastic.respond(Crossing::Above, Crossing::Inside),
        BoundaryResponse { x: AxisResponse::BounceOffUpper { damped: false }, y: AxisResponse::Keep, remove: false }
    );
    assert_eq!(
        BoundaryType::Wrapping.respond(Crossing::Below, Crossing::Above),
        BoundaryResponse { x: AxisResponse::MoveToUpper, y: AxisResponse::MoveToLower, remove: false }
    );
    assert_eq!(
        BoundaryType::Absorbing.respond(Crossing::Inside, Crossing::Above),
        BoundaryResponse { x: AxisResponse::Keep, y: AxisResponse::Keep, remove: true }
    );
}

#[test]
fn configuration_can_be_changed_in_place() {
    let mut manager = ConfigManager::from_file("a.toml".to_string(), vec![1, 2]);
    manager.config_mut().push(3);
    assert_eq!(manager.config(), &vec![1, 2, 3]);
    assert_eq!(manager.save(), Ok(ConfigFormat::Toml));
}

#[test]
fn test_presets() {
    let mut current = Preset::Brownian.settings();

    for preset in Preset::all() {
        current = preset.settings().apply_to(current);
        // Verify that the preset was applied by checking some config changes
        assert!(current.max_particles > 0);
    }
}

#[test]
fn preset_settings() {
    let life = Preset::ParticleLife.settings();
    assert_eq!((life.max_particles, life.initial_particle_count, life.weighted_species), (500, 300, 3));
    assert!(life.enable_trails);
    assert_eq!(life.trail_length, Some(30));
    let flocking = Preset::Flocking.settings();
    assert_eq!((flocking.max_particles, flocking.initial_particle_count), (200, 150));
    assert!(flocking.show_velocity_vectors && flocking.color_by_velocity && !flocking.enable_trails);
    let gravity = Preset::Gravity.settings();
    assert_eq!((gravity.max_particles, gravity.initial_particle_count), (100, 50));
    assert!(gravity.color_by_energy && gravity.enable_trails);
    assert_eq!(gravity.trail_length, None);
    let charged = Preset::Electromagnetic.settings();
    assert_eq!((charged.max_particles, charged.initial_particle_count, charged.weighted_species), (300, 200, 2));
    assert!(charged.show_force_vectors);
    let brownian = Preset::Brownian.settings();
    assert_eq!((brownian.max_particles, brownian.initial_particle_count), (1000, 500));
    assert_eq!(brownian.particle_render_mode, Some(ParticleRenderMode::Points));
    let reaction = Preset::ReactionDiffusion.settings();
    assert_eq!((reaction.max_particles, reaction.initial_particle_count, reaction.weighted_species), (800, 400, 2));
    assert_eq!(reaction.particle_render_mode, None);
    for preset in Preset::all() {
        let settings = preset.settings();
        assert!(0 < settings.initial_particle_count && settings.initial_particle_count <= settings.max_particles);
    }
    // what a preset leaves open stays
    let merged = flocking.apply_to(life);
    assert_eq!((merged.max_particles, merged.weighted_species, merged.trail_length), (200, 3, Some(30)));
    assert!(merged.enable_trails && merged.show_velocity_vectors);
    assert_eq!(flocking.apply_to(merged), merged);
    assert_eq!(brownian.apply_to(merged).particle_render_mode, Some(ParticleRenderMode::Points));
}

#[test]
fn presets_by_identifier() {
    assert_eq!(Preset::from_identifier("ParticleLife"), Some(Preset::ParticleLife));
    assert_eq!(Preset::from_identifier("Flocking"), Some(Preset::Flocking));
    assert_eq!(Preset::from_identifier("Gravity"), Some(Preset::Gravity));
    assert_eq!(Preset::from_identifier("Electromagnetic"), Some(Preset::Electromagnetic));
    assert_eq!(Preset::from_identifier("Brownian"), Some(Preset::Brownian));
    assert_eq!(Preset::from_identifier("ReactionDiffusion"), Some(Preset::ReactionDiffusion));
    assert_eq!(Preset::from_identifier("gravity"), None);
    assert_eq!(Preset::from_identifier("Gravity "), None);
    assert_eq!(Preset::from_identifier("N-Body Gravity"), None);
    assert_eq!(Preset::from_identifier(""), None);
}

#[test]
fn bytes_compared() {
    assert!(same_bytes(b"", b""));
    assert!(same_bytes(b"abc", b"abc"));
    assert!(!same_bytes(b"abc", b"abd"));
    assert!(!same_bytes(b"abc", b"ab"));
    assert!(!same_bytes(b"ab", b"abc"));
    assert!(ends_with(b"abc", b""));
    assert!(ends_with(b"abc", b"bc"));
    assert!(ends_with(b"abc", b"abc"));
    assert!(!ends_with(b"abc", b"ab"));
    assert!(!ends_with(b"bc", b"abc"));
    assert!(!ends_with(b"", b"a"));
}
