use inochi::config::Preset;

#[test]
fn all_lists_six_presets_in_menu_order() {
    let all = Preset::all();
    assert_eq!(
        all,
        vec![
            Preset::ParticleLife,
            Preset::Flocking,
            Preset::Gravity,
            Preset::Electromagnetic,
            Preset::Brownian,
            Preset::ReactionDiffusion,
        ]
    );
}
