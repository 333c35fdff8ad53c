//! What a configuration chooses from closed sets: the render mode, the
//! boundary and what it does to a particle that left the domain, and the
//! presets with what each of them counts and switches. Also the format of a
//! configuration file, read off its path, and the manager that keeps a
//! configuration with its path.
use crate::text::ends_with;
use crate::text::has_suffix;
use crate::text::same_bytes;
use vstd::prelude::*;
use vstd::utf8::encode_utf8;

verus! {

/// How particles are drawn.
#[derive(Debug, Clone, Copy, PartialEq, Eq, Structural)]
pub enum ParticleRenderMode {
    Points,
    Circles,
    Sprites,
    Metaballs,
    Lines,
    Trails,
}

/// What happens to a particle that leaves the simulation domain.
#[derive(Debug, Clone, Copy, PartialEq, Eq, Structural)]
pub enum BoundaryType {
    Reflective,
    Absorbing,
    Wrapping,
    Elastic,
}

/// What is done to a particle that has left the simulation domain.
#[derive(Debug, Clone, Copy, PartialEq, Eq, Structural)]
pub enum BoundaryAction {
    /// The particle is put back on the edge it crossed and the velocity
    /// across that edge is turned round; `damped` says whether the turned
    /// velocity is reduced.
    Reflect { damped: bool },
    /// The particle is put on the opposite edge.
    Wrap,
    /// The particle is removed from the simulation.
    Remove,
}

impl BoundaryType {
    /// What a boundary of this type does to a particle outside the domain: a
    /// reflective boundary reflects and damps, an elastic one reflects
    /// without loss, a wrapping one wraps, and an absorbing one removes.
    pub open spec fn action_of(self) -> BoundaryAction {
        match self {
            BoundaryType::Reflective => BoundaryAction::Reflect { damped: true },
            BoundaryType::Elastic => BoundaryAction::Reflect { damped: false },
            BoundaryType::Wrapping => BoundaryAction::Wrap,
            BoundaryType::Absorbing => BoundaryAction::Remove,
        }
    }

    /// What to do to a particle that has left the domain.
    pub fn action(&self) -> (action: BoundaryAction)
        ensures
            action == self.action_of(),
    {
        match self {
            BoundaryType::Reflective => BoundaryAction::Reflect { damped: true },
            BoundaryType::Elastic => BoundaryAction::Reflect { damped: false },
            BoundaryType::Wrapping => BoundaryAction::Wrap,
            BoundaryType::Absorbing => BoundaryAction::Remove,
        }
    }
}

/// Where a coordinate of a particle lies along one axis of the domain.
#[derive(Debug, Clone, Copy, PartialEq, Eq, Structural)]
pub enum Crossing {
    /// Below the lower edge.
    Below,
    /// Between the edges, or on one.
    Inside,
    /// Above the upper edge.
    Above,
}

/// What is done to a particle along one axis.
#[derive(Debug, Clone, Copy, PartialEq, Eq, Structural)]
pub enum AxisResponse {
    /// Nothing.
    Keep,
    /// The coordinate is set to the lower edge; the velocity stays.
    MoveToLower,
    /// The coordinate is set to the upper edge; the velocity stays.
    MoveToUpper,
    /// The coordinate is set to the lower edge and the velocity along the
    /// axis is turned round, and reduced if `damped`.
    BounceOffLower { damped: bool },
    /// The coordinate is set to the upper edge and the velocity along the
    /// axis is turned round, and reduced if `damped`.
    BounceOffUpper { damped: bool },
}

/// What is done to a particle after a step, along both axes.
#[derive(Debug, Clone, Copy, PartialEq, Eq, Structural)]
pub struct BoundaryResponse {
    pub x: AxisResponse,
    pub y: AxisResponse,
    /// Whether the particle is removed from the simulation.
    pub remove: bool,
}

/// What `action` does along an axis on which the particle lies at
/// `crossing`: nothing inside the domain; outside, a reflecting boundary puts
/// the particle on the edge it crossed and turns it round, a wrapping one
/// puts it on the opposite edge, and a removing one leaves it where it is.
pub open spec fn axis_response_of(action: BoundaryAction, crossing: Crossing) -> AxisResponse {
    match (action, crossing) {
        (_, Crossing::Inside) => AxisResponse::Keep,
        (BoundaryAction::Remove, _) => AxisResponse::Keep,
        (BoundaryAction::Wrap, Crossing::Below) => AxisResponse::MoveToUpper,
        (BoundaryAction::Wrap, Crossing::Above) => AxisResponse::MoveToLower,
        (BoundaryAction::Reflect { damped }, Crossing::Below) => AxisResponse::BounceOffLower { damped },
        (BoundaryAction::Reflect { damped }, Crossing::Above) => AxisResponse::BounceOffUpper { damped },
    }
}

/// Computes `axis_response_of`.
fn axis_response(action: BoundaryAction, crossing: Crossing) -> (response: AxisResponse)
    ensures
        response == axis_response_of(action, crossing),
{
    match crossing {
        Crossing::Inside => AxisResponse::Keep,
        Crossing::Below => match action {
            BoundaryAction::Remove => AxisResponse::Keep,
            BoundaryAction::Wrap => AxisResponse::MoveToUpper,
            BoundaryAction::Reflect { damped } => AxisResponse::BounceOffLower { damped },
        },
        Crossing::Above => match action {
            BoundaryAction::Remove => AxisResponse::Keep,
            BoundaryAction::Wrap => AxisResponse::MoveToLower,
            BoundaryAction::Reflect { damped } => AxisResponse::BounceOffUpper { damped },
        },
    }
}

impl BoundaryType {
    /// What a boundary of this type does to a particle that lies at `x` and
    /// `y` along the two axes. Only an absorbing boundary removes, and only a
    /// particle outside the domain.
    pub open spec fn response_of(self, x: Crossing, y: Crossing) -> BoundaryResponse {
        BoundaryResponse {
            x: axis_response_of(self.action_of(), x),
            y: axis_response_of(self.action_of(), y),
            remove: self.action_of() == BoundaryAction::Remove && (x != Crossing::Inside || y
                != Crossing::Inside),
        }
    }

    /// What to do to a particle that lies at `x` and `y` along the two axes
    /// of the domain.
    pub fn respond(&self, x: Crossing, y: Crossing) -> (response: BoundaryResponse)
        ensures
            response == self.response_of(x, y),
    {
        let action = self.action();
        let outside = match (x, y) {
            (Crossing::Inside, Crossing::Inside) => false,
            _ => true,
        };
        let removes = match action {
            BoundaryAction::Remove => true,
            _ => false,
        };
        BoundaryResponse { x: axis_response(action, x), y: axis_response(action, y), remove: removes && outside }
    }
}

/// No boundary touches a particle inside the domain.
pub proof fn lemma_inside_is_left_alone(boundary: BoundaryType)
    ensures
        boundary.response_of(Crossing::Inside, Crossing::Inside) == (BoundaryResponse {
            x: AxisResponse::Keep,
            y: AxisResponse::Keep,
            remove: false,
        }),
{
}

/// The built-in simulation presets.
#[derive(Debug, Clone, Copy, PartialEq, Eq, Structural)]
pub enum Preset {
    ParticleLife,
    Flocking,
    Gravity,
    Electromagnetic,
    Brownian,
    ReactionDiffusion,
}

impl Preset {
    /// The catalogue of presets, in menu order.
    pub open spec fn catalogue() -> Seq<Preset> {
        seq![
            Preset::ParticleLife,
            Preset::Flocking,
            Preset::Gravity,
            Preset::Electromagnetic,
            Preset::Brownian,
            Preset::ReactionDiffusion,
        ]
    }

    /// The display name of a preset, as a sequence of characters.
    pub open spec fn name_text(self) -> Seq<char> {
        match self {
            Preset::ParticleLife => "Particle Life"@,
            Preset::Flocking => "Flocking/Boids"@,
            Preset::Gravity => "N-Body Gravity"@,
            Preset::Electromagnetic => "Electromagnetic"@,
            Preset::Brownian => "Brownian Motion"@,
            Preset::ReactionDiffusion => "Reaction-Diffusion"@,
        }
    }

    /// The one-line description of a preset, as a sequence of characters.
    pub open spec fn description_text(self) -> Seq<char> {
        match self {
            Preset::ParticleLife => "Classic particle life with species-based attraction and repulsion"@,
            Preset::Flocking => "Emergent flocking behavior with separation, alignment, and cohesion"@,
            Preset::Gravity => "Gravitational n-body simulation with realistic orbital dynamics"@,
            Preset::Electromagnetic => "Charged particles with electromagnetic forces"@,
            Preset::Brownian => "Random walk particles demonstrating Brownian motion"@,
            Preset::ReactionDiffusion => "Reaction-diffusion patterns with activator-inhibitor dynamics"@,
        }
    }

    /// The preset that an identifier names, where it names one. The
    /// identifiers are the names of the presets in one word, such as
    /// `ParticleLife`.
    pub open spec fn identified(name: Seq<char>) -> Option<Preset> {
        let bytes = encode_utf8(name);
        if bytes == encode_utf8("ParticleLife"@) {
            Some(Preset::ParticleLife)
        } else if bytes == encode_utf8("Flocking"@) {
            Some(Preset::Flocking)
        } else if bytes == encode_utf8("Gravity"@) {
            Some(Preset::Gravity)
        } else if bytes == encode_utf8("Electromagnetic"@) {
            Some(Preset::Electromagnetic)
        } else if bytes == encode_utf8("Brownian"@) {
            Some(Preset::Brownian)
        } else if bytes == encode_utf8("ReactionDiffusion"@) {
            Some(Preset::ReactionDiffusion)
        } else {
            None
        }
    }

    /// The preset that `name` identifies; `None` for an unknown identifier.
    pub fn from_identifier(name: &str) -> (preset: Option<Preset>)
        ensures
            preset == Preset::identified(name@),
    {
        let bytes = name.as_bytes();
        if same_bytes(bytes, "ParticleLife".as_bytes()) {
            Some(Preset::ParticleLife)
        } else if same_bytes(bytes, "Flocking".as_bytes()) {
            Some(Preset::Flocking)
        } else if same_bytes(bytes, "Gravity".as_bytes()) {
            Some(Preset::Gravity)
        } else if same_bytes(bytes, "Electromagnetic".as_bytes()) {
            Some(Preset::Electromagnetic)
        } else if same_bytes(bytes, "Brownian".as_bytes()) {
            Some(Preset::Brownian)
        } else if same_bytes(bytes, "ReactionDiffusion".as_bytes()) {
            Some(Preset::ReactionDiffusion)
        } else {
            None
        }
    }

    /// Every preset exactly once, in menu order.
    pub fn all() -> (presets: Vec<Preset>)
        ensures
            presets@ == Preset::catalogue(),
    {
        let mut presets: Vec<Preset> = Vec::new();
        presets.push(Preset::ParticleLife);
        presets.push(Preset::Flocking);
        presets.push(Preset::Gravity);
        presets.push(Preset::Electromagnetic);
        presets.push(Preset::Brownian);
        presets.push(Preset::ReactionDiffusion);
        assert(presets@ =~= Preset::catalogue());
        presets
    }

    /// The display name of the preset.
    pub fn name(&self) -> (text: &'static str)
        ensures
            text@ == self.name_text(),
    {
        match self {
            Preset::ParticleLife => "Particle Life",
            Preset::Flocking => "Flocking/Boids",
            Preset::Gravity => "N-Body Gravity",
            Preset::Electromagnetic => "Electromagnetic",
            Preset::Brownian => "Brownian Motion",
            Preset::ReactionDiffusion => "Reaction-Diffusion",
        }
    }

    /// A one-line description of what the preset shows.
    pub fn description(&self) -> (text: &'static str)
        ensures
            text@ == self.description_text(),
    {
        match self {
            Preset::ParticleLife => "Classic particle life with species-based attraction and repulsion",
            Preset::Flocking => "Emergent flocking behavior with separation, alignment, and cohesion",
            Preset::Gravity => "Gravitational n-body simulation with realistic orbital dynamics",
            Preset::Electromagnetic => "Charged particles with electromagnetic forces",
            Preset::Brownian => "Random walk particles demonstrating Brownian motion",
            Preset::ReactionDiffusion => "Reaction-diffusion patterns with activator-inhibitor dynamics",
        }
    }
}

/// What a preset sets in a configuration, as far as it is counted or
/// switched: the real-valued settings of a preset are the application's.
#[derive(Debug, Clone, Copy, PartialEq, Eq, Structural)]
pub struct PresetSettings {
    /// The capacity of the particle store.
    pub max_particles: usize,
    /// How many particles the simulation starts with.
    pub initial_particle_count: usize,
    /// How many species get a spawn weight, species `0` first; zero where
    /// the preset leaves the weights as they are.
    pub weighted_species: u32,
    /// Whether the preset switches trails on.
    pub enable_trails: bool,
    /// The trail length, where the preset sets one.
    pub trail_length: Option<usize>,
    /// Whether the preset switches velocity vectors on.
    pub show_velocity_vectors: bool,
    /// Whether the preset switches force vectors on.
    pub show_force_vectors: bool,
    /// Whether the preset switches colouring by velocity on.
    pub color_by_velocity: bool,
    /// Whether the preset switches colouring by energy on.
    pub color_by_energy: bool,
    /// The render mode, where the preset sets one.
    pub particle_render_mode: Option<ParticleRenderMode>,
}

impl PresetSettings {
    /// Settings that hold only a budget: no weights, no switches, no mode.
    pub open spec fn budget(max_particles: usize, initial_particle_count: usize) -> PresetSettings {
        PresetSettings {
            max_particles,
            initial_particle_count,
            weighted_species: 0,
            enable_trails: false,
            trail_length: None,
            show_velocity_vectors: false,
            show_force_vectors: false,
            color_by_velocity: false,
            color_by_energy: false,
            particle_render_mode: None,
        }
    }

    /// The settings that result when these are applied to `current`: the
    /// budget is replaced, every switch that these settings turn on is on, a
    /// trail length and a render mode are replaced where these settings have
    /// one, and so is the number of weighted species where it is not zero.
    /// What these settings leave open stays as it is in `current`.
    pub open spec fn applied_to(self, current: PresetSettings) -> PresetSettings {
        PresetSettings {
            max_particles: self.max_particles,
            initial_particle_count: self.initial_particle_count,
            weighted_species: if self.weighted_species > 0 {
                self.weighted_species
            } else {
                current.weighted_species
            },
            enable_trails: self.enable_trails || current.enable_trails,
            trail_length: if self.trail_length is Some {
                self.trail_length
            } else {
                current.trail_length
            },
            show_velocity_vectors: self.show_velocity_vectors || current.show_velocity_vectors,
            show_force_vectors: self.show_force_vectors || current.show_force_vectors,
            color_by_velocity: self.color_by_velocity || current.color_by_velocity,
            color_by_energy: self.color_by_energy || current.color_by_energy,
            particle_render_mode: if self.particle_render_mode is Some {
                self.particle_render_mode
            } else {
                current.particle_render_mode
            },
        }
    }

    /// Applies these settings to `current`.
    pub fn apply_to(&self, current: PresetSettings) -> (result: PresetSettings)
        ensures
            result == self.applied_to(current),
    {
        PresetSettings {
            max_particles: self.max_particles,
            initial_particle_count: self.initial_particle_count,
            weighted_species: if self.weighted_species > 0 {
                self.weighted_species
            } else {
                current.weighted_species
            },
            enable_trails: self.enable_trails || current.enable_trails,
            trail_length: match self.trail_length {
                Some(length) => Some(length),
                None => current.trail_length,
            },
            show_velocity_vectors: self.show_velocity_vectors || current.show_velocity_vectors,
            show_force_vectors: self.show_force_vectors || current.show_force_vectors,
            color_by_velocity: self.color_by_velocity || current.color_by_velocity,
            color_by_energy: self.color_by_energy || current.color_by_energy,
            particle_render_mode: match self.particle_render_mode {
                Some(mode) => Some(mode),
                None => current.particle_render_mode,
            },
        }
    }

    /// Computes `budget`.
    fn with_budget(max_particles: usize, initial_particle_count: usize) -> (settings: PresetSettings)
        ensures
            settings == Self::budget(max_particles, initial_particle_count),
    {
        PresetSettings {
            max_particles,
            initial_particle_count,
            weighted_species: 0,
            enable_trails: false,
            trail_length: None,
            show_velocity_vectors: false,
            show_force_vectors: false,
            color_by_velocity: false,
            color_by_energy: false,
            particle_render_mode: None,
        }
    }
}

impl Preset {
    /// What the preset sets.
    pub open spec fn settings_of(self) -> PresetSettings {
        match self {
            Preset::ParticleLife => PresetSettings {
                weighted_species: 3,
                enable_trails: true,
                trail_length: Some(30usize),
                ..PresetSettings::budget(500, 300)
            },
            Preset::Flocking => PresetSettings {
                show_velocity_vectors: true,
                color_by_velocity: true,
                ..PresetSettings::budget(200, 150)
            },
            Preset::Gravity => PresetSettings {
                color_by_energy: true,
                enable_trails: true,
                ..PresetSettings::budget(100, 50)
            },
            Preset::Electromagnetic => PresetSettings {
                weighted_species: 2,
                show_force_vectors: true,
                ..PresetSettings::budget(300, 200)
            },
            Preset::Brownian => PresetSettings {
                particle_render_mode: Some(ParticleRenderMode::Points),
                ..PresetSettings::budget(1000, 500)
            },
            Preset::ReactionDiffusion => PresetSettings {
                weighted_species: 2,
                ..PresetSettings::budget(800, 400)
            },
        }
    }

    /// What the preset sets in a configuration, as far as it is counted or
    /// switched.
    pub fn settings(&self) -> (settings: PresetSettings)
        ensures
            settings == self.settings_of(),
    {
        match self {
            Preset::ParticleLife => {
                let mut settings = PresetSettings::with_budget(500, 300);
                settings.weighted_species = 3;
                settings.enable_trails = true;
                settings.trail_length = Some(30);
                settings
            },
            Preset::Flocking => {
                let mut settings = PresetSettings::with_budget(200, 150);
                settings.show_velocity_vectors = true;
                settings.color_by_velocity = true;
                settings
            },
            Preset::Gravity => {
                let mut settings = PresetSettings::with_budget(100, 50);
                settings.color_by_energy = true;
                settings.enable_trails = true;
                settings
            },
            Preset::Electromagnetic => {
                let mut settings = PresetSettings::with_budget(300, 200);
                settings.weighted_species = 2;
                settings.show_force_vectors = true;
                settings
            },
            Preset::Brownian => {
                let mut settings = PresetSettings::with_budget(1000, 500);
                settings.particle_render_mode = Some(ParticleRenderMode::Points);
                settings
            },
            Preset::ReactionDiffusion => {
                let mut settings = PresetSettings::with_budget(800, 400);
                settings.weighted_species = 2;
                settings
            },
        }
    }
}

/// Applying the same settings twice gives what applying them once gives.
pub proof fn lemma_apply_twice(settings: PresetSettings, current: PresetSettings)
    ensures
        settings.applied_to(settings.applied_to(current)) == settings.applied_to(current),
{
}

/// Every preset starts with at least one particle, and with no more
/// particles than its store has room for.
pub proof fn lemma_preset_budget_fits(preset: Preset)
    ensures
        0 < preset.settings_of().initial_particle_count <= preset.settings_of().max_particles,
{
}

/// The catalogue lists every preset, and lists none twice.
pub proof fn lemma_catalogue_complete(p: Preset)
    ensures
        Preset::catalogue().contains(p),
        Preset::catalogue().no_duplicates(),
        Preset::catalogue().len() == 6,
{
    let c = Preset::catalogue();
    assert(c[0] == Preset::ParticleLife);
    assert(c[1] == Preset::Flocking);
    assert(c[2] == Preset::Gravity);
    assert(c[3] == Preset::Electromagnetic);
    assert(c[4] == Preset::Brownian);
    assert(c[5] == Preset::ReactionDiffusion);
}

/// The file formats that a configuration is stored in.
#[derive(Debug, Clone, Copy, PartialEq, Eq, Structural)]
pub enum ConfigFormat {
    Json,
    Toml,
}

/// Why a configuration cannot be loaded or saved.
#[derive(Debug, Clone, Copy, PartialEq, Eq, Structural)]
pub enum ConfigError {
    /// The path ends neither in `.json` nor in `.toml`.
    UnsupportedFormat,
    /// The manager has no path to save to.
    NoPath,
}

/// The format that a path names by its ending: `.json` or `.toml`.
pub open spec fn path_format(path: Seq<char>) -> Option<ConfigFormat> {
    let bytes = encode_utf8(path);
    if has_suffix(bytes, encode_utf8(".json"@)) {
        Some(ConfigFormat::Json)
    } else if has_suffix(bytes, encode_utf8(".toml"@)) {
        Some(ConfigFormat::Toml)
    } else {
        None
    }
}

impl ConfigFormat {
    /// The format that `path` names by its ending: `.json` or `.toml`.
    pub fn from_path(path: &str) -> (format: Result<ConfigFormat, ConfigError>)
        ensures
            format == match path_format(path@) {
                Some(f) => Ok::<ConfigFormat, ConfigError>(f),
                None => Err::<ConfigFormat, ConfigError>(ConfigError::UnsupportedFormat),
            },
    {
        let bytes = path.as_bytes();
        if ends_with(bytes, ".json".as_bytes()) {
            Ok(ConfigFormat::Json)
        } else if ends_with(bytes, ".toml".as_bytes()) {
            Ok(ConfigFormat::Toml)
        } else {
            Err(ConfigError::UnsupportedFormat)
        }
    }
}

impl ConfigError {
    /// The message of an error, as a sequence of characters.
    pub open spec fn message_text(self) -> Seq<char> {
        match self {
            ConfigError::UnsupportedFormat => "Unsupported config file format. Use .json or .toml"@,
            ConfigError::NoPath => "No config path set. Use save_to_file() instead."@,
        }
    }

    /// What to tell the user.
    pub fn message(&self) -> (text: &'static str)
        ensures
            text@ == self.message_text(),
    {
        match self {
            ConfigError::UnsupportedFormat => "Unsupported config file format. Use .json or .toml",
            ConfigError::NoPath => "No config path set. Use save_to_file() instead.",
        }
    }
}

/// Keeps a configuration together with the path of the file that it came
/// from, where it came from one.
#[derive(Debug, Clone)]
pub struct ConfigManager<C> {
    pub config: C,
    pub config_path: Option<String>,
}

impl<C> ConfigManager<C> {
    /// A manager of `config` that has no file.
    pub fn new(config: C) -> (manager: Self)
        ensures
            manager.config == config,
            manager.config_path is None,
    {
        ConfigManager { config, config_path: None }
    }

    /// A manager of `config`, which was read from the file at `path`.
    pub fn from_file(path: String, config: C) -> (manager: Self)
        ensures
            manager.config == config,
            manager.config_path == Some(path),
    {
        ConfigManager { config, config_path: Some(path) }
    }

    /// The format to write a file at `path` in.
    pub fn save_to_file(&self, path: &str) -> (format: Result<ConfigFormat, ConfigError>)
        ensures
            format == match path_format(path@) {
                Some(f) => Ok::<ConfigFormat, ConfigError>(f),
                None => Err::<ConfigFormat, ConfigError>(ConfigError::UnsupportedFormat),
            },
    {
        ConfigFormat::from_path(path)
    }

    /// The format to write the manager's own file in; an error where the
    /// manager has no file or its path names no format.
    pub fn save(&self) -> (format: Result<ConfigFormat, ConfigError>)
        ensures
            format == match self.config_path {
                None => Err::<ConfigFormat, ConfigError>(ConfigError::NoPath),
                Some(path) => match path_format(path@) {
                    Some(f) => Ok::<ConfigFormat, ConfigError>(f),
                    None => Err::<ConfigFormat, ConfigError>(ConfigError::UnsupportedFormat),
                },
            },
    {
        match &self.config_path {
            Some(path) => ConfigFormat::from_path(path.as_str()),
            None => Err(ConfigError::NoPath),
        }
    }

    /// The configuration.
    pub fn config(&self) -> (config: &C)
        ensures
            *config == self.config,
    {
        &self.config
    }

    /// The configuration, to change it. The path stays.
    pub fn config_mut(&mut self) -> (config: &mut C)
        ensures
            *config == old(self).config,
            final(self).config == *final(config),
            final(self).config_path == old(self).config_path,
    {
        &mut self.config
    }

    /// Puts `defaults` in the place of the configuration. The path stays.
    pub fn reset_to_defaults(&mut self, defaults: C)
        ensures
            final(self).config == defaults,
            final(self).config_path == old(self).config_path,
    {
        self.config = defaults;
    }
}

} // verus!
