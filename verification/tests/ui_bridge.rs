use additizer::routing::{
    DataType, Input, InputId, InputMeta, MixedSource, ModuleId, OUTPUT_MODULE_ID,
};
use additizer::routing_graph::RoutingEntry;
use additizer::ui_bridge::{
    GridVec, LinkAction, ModulatedInputs, Module, ModuleType, RoutingState, UiConfig, UiModuleConfig,
    VoicesStatus,
};
use additizer::StereoSample;

const HARMONIC_EDITOR_ID: ModuleId = 1;
const OSCILLATOR_ID: ModuleId = 2;
const SECOND_EDITOR_ID: ModuleId = 3;
const LFO_ID: ModuleId = 4;

fn module(id: ModuleId, module_type: ModuleType, inputs: Vec<InputMeta>, output_type: DataType) -> Module {
    Module { id, module_type, inputs, output_type }
}

fn source(module_id: ModuleId) -> MixedSource {
    MixedSource { module_id, amount: StereoSample::one(), modulation: None }
}

/// A harmonic editor feeding an oscillator that plays into the output.
fn minimal_modules() -> Vec<Module> {
    vec![
        module(HARMONIC_EDITOR_ID, ModuleType::HarmonicEditor, vec![], DataType::Spectral),
        module(
            OSCILLATOR_ID,
            ModuleType::Oscillator,
            vec![InputMeta::spectral(Input::Spectrum), InputMeta::control(Input::Gain)],
            DataType::Audio,
        ),
        module(OUTPUT_MODULE_ID, ModuleType::Output, vec![InputMeta::audio(Input::Audio)], DataType::Audio),
    ]
}

fn minimal_routing() -> Vec<RoutingEntry> {
    vec![
        RoutingEntry {
            input: InputId::new(Input::Spectrum, OSCILLATOR_ID),
            sources: vec![source(HARMONIC_EDITOR_ID)],
        },
        RoutingEntry {
            input: InputId::new(Input::Audio, OUTPUT_MODULE_ID),
            sources: vec![source(OSCILLATOR_ID)],
        },
    ]
}

fn minimal_state() -> RoutingState {
    RoutingState::new(minimal_modules(), minimal_routing())
}

fn with_module(extra: Module) -> RoutingState {
    let mut modules = minimal_modules();
    modules.push(extra);
    RoutingState::new(modules, minimal_routing())
}

fn ui_config() -> UiConfig {
    let mut ui_config = UiConfig::default();
    for (id, label) in [
        (HARMONIC_EDITOR_ID, "Harmonics"),
        (OSCILLATOR_ID, "Oscillator"),
        (OUTPUT_MODULE_ID, "Output"),
    ] {
        ui_config.modules.push(UiModuleConfig { id, label: label.into(), ..UiModuleConfig::default() });
    }
    ui_config
}

#[test]
fn has_linkable_input_rejects_self() {
    let state = minimal_state();

    assert!(!state.can_be_linked(OSCILLATOR_ID, OSCILLATOR_ID));
}

#[test]
fn has_linkable_input_false_when_only_compatible_input_already_taken_by_src() {
    let state = minimal_state();

    // The editor is spectral only; the oscillator's spectrum already comes from it.
    assert!(!state.can_be_linked(HARMONIC_EDITOR_ID, OSCILLATOR_ID));
}

#[test]
fn has_linkable_input_true_for_replacement_direct_source() {
    let state = with_module(module(SECOND_EDITOR_ID, ModuleType::HarmonicEditor, vec![], DataType::Spectral));

    assert!(state.can_be_linked(SECOND_EDITOR_ID, OSCILLATOR_ID));
}

#[test]
fn get_linkable_inputs_excludes_already_connected() {
    let state = minimal_state();

    let linkable = state.get_linkable_inputs(&ui_config(), HARMONIC_EDITOR_ID, OSCILLATOR_ID);
    assert!(
        linkable.iter().all(|input| input.input_type != Input::Spectrum),
        "connected harmonic editor must not appear as available for Spectrum"
    );
}

#[test]
fn get_linkable_inputs_includes_alternate_direct_source() {
    let state = with_module(module(SECOND_EDITOR_ID, ModuleType::HarmonicEditor, vec![], DataType::Spectral));

    let linkable = state.get_linkable_inputs(&ui_config(), SECOND_EDITOR_ID, OSCILLATOR_ID);
    assert!(
        linkable.iter().any(|input| input.input_type == Input::Spectrum),
        "second harmonic editor can replace Spectrum source"
    );
}

#[test]
fn get_linkable_inputs_excludes_self_and_type_mismatch() {
    let state = minimal_state();

    assert!(state.get_linkable_inputs(&ui_config(), OSCILLATOR_ID, OSCILLATOR_ID).is_empty());
    assert!(state
        .get_linkable_inputs(&ui_config(), OUTPUT_MODULE_ID, OSCILLATOR_ID)
        .iter()
        .all(|input| input.input_type != Input::Spectrum));
}

/// The routing after the engine carried out `action` for a link from `src` into `dst`.
fn apply_link(routing: &[RoutingEntry], src: ModuleId, dst: InputId, action: LinkAction) -> Vec<RoutingEntry> {
    let mut routing = routing.to_vec();
    let new_source = match action {
        LinkAction::SetDirect => source(src),
        LinkAction::AddMixed(amount) => MixedSource { module_id: src, amount, modulation: None },
    };
    match routing.iter_mut().find(|entry| entry.input == dst) {
        Some(entry) => match action {
            LinkAction::SetDirect => entry.sources = vec![new_source],
            LinkAction::AddMixed(_) => entry.sources.push(new_source),
        },
        None => routing.push(RoutingEntry { input: dst, sources: vec![new_source] }),
    }
    routing
}

#[test]
fn create_link_routes_direct_spectrum() {
    let mut modules = minimal_modules();
    modules.push(module(SECOND_EDITOR_ID, ModuleType::HarmonicEditor, vec![], DataType::Spectral));
    let state = RoutingState::new(modules.clone(), minimal_routing());
    let spectrum = InputId::new(Input::Spectrum, OSCILLATOR_ID);

    let action = state.create_link_action(spectrum).expect("the oscillator has a spectrum input");
    assert!(matches!(action, LinkAction::SetDirect));
    let state = RoutingState::new(modules, apply_link(&minimal_routing(), SECOND_EDITOR_ID, spectrum, action));

    let connected = state.get_connected_input_sources(&ui_config(), spectrum);
    assert_eq!(connected.len(), 1);
    assert_eq!(connected[0].src, SECOND_EDITOR_ID);
    assert!(connected[0].modulation.is_none());
}

#[test]
fn create_link_routes_mixed_gain() {
    let mut modules = minimal_modules();
    modules.push(module(LFO_ID, ModuleType::Lfo, vec![], DataType::Control));
    let state = RoutingState::new(modules.clone(), minimal_routing());
    let gain = InputId::new(Input::Gain, OSCILLATOR_ID);

    let action = state.create_link_action(gain).expect("the oscillator has a gain input");
    match action {
        LinkAction::AddMixed(amount) => assert_eq!(amount.channels, StereoSample::zero().channels),
        LinkAction::SetDirect => panic!("a control input mixes its sources"),
    }
    let state = RoutingState::new(modules, apply_link(&minimal_routing(), LFO_ID, gain, action));

    let connected = state.get_connected_input_sources(&ui_config(), gain);
    assert_eq!(connected.len(), 1);
    assert_eq!(connected[0].src, LFO_ID);
}

#[test]
fn get_available_mixed_excludes_connected_source() {
    let mut modules = minimal_modules();
    modules.push(module(LFO_ID, ModuleType::Lfo, vec![], DataType::Control));
    let mut routing = minimal_routing();
    routing.push(RoutingEntry { input: InputId::new(Input::Gain, OSCILLATOR_ID), sources: vec![source(LFO_ID)] });
    let state = RoutingState::new(modules, routing);

    let linkable = state.get_linkable_inputs(&ui_config(), LFO_ID, OSCILLATOR_ID);
    assert!(linkable.iter().all(|input| input.input_type != Input::Gain));
}

#[test]
fn has_linkable_input_false_for_spectral_into_audio_only_module() {
    let state = minimal_state();

    assert!(!state.can_be_linked(HARMONIC_EDITOR_ID, OUTPUT_MODULE_ID));
}

#[test]
fn cycles_are_not_linkable() {
    let modules = vec![
        module(1, ModuleType::Lfo, vec![InputMeta::control(Input::Skew)], DataType::Control),
        module(2, ModuleType::Lfo, vec![InputMeta::control(Input::Skew)], DataType::Control),
    ];
    let routing = vec![RoutingEntry { input: InputId::new(Input::Skew, 2), sources: vec![source(1)] }];
    let state = RoutingState::new(modules, routing);

    assert!(!state.can_be_linked(2, 1));
}

#[test]
fn module_labels_come_from_the_ui_config() {
    let state = minimal_state();
    let items = state.get_modules(&ui_config());

    assert_eq!(items.len(), 3);
    assert!(items.iter().any(|item| item.id == OSCILLATOR_ID && item.label == "Oscillator"));
    assert!(state.has_module_id(HARMONIC_EDITOR_ID));
    assert!(!state.has_module_id(LFO_ID));
}

#[test]
fn ui_config_positions_and_labels() {
    let mut config = ui_config();
    assert_eq!(config.get_module_position(OSCILLATOR_ID), GridVec::default());
    config.set_module_position(OSCILLATOR_ID, GridVec::new(3, 4));
    assert_eq!(config.get_module_position(OSCILLATOR_ID), GridVec::new(3, 4));
    config.set_module_position(LFO_ID, GridVec::new(7, 7));
    assert_eq!(config.get_module_position(LFO_ID), GridVec::new(0, 0));

    config.set_module_label(OSCILLATOR_ID, "Lead".to_string());
    assert_eq!(config.get_module_label(OSCILLATOR_ID), "Lead");
    config.set_module_label(LFO_ID, "nobody".to_string());
    assert_eq!(config.get_module_label(LFO_ID), "");
    assert_eq!(config.modules.len(), 3);
}

#[test]
fn new_modules_get_a_label_and_the_next_row() {
    let mut config = ui_config();
    config.add_module_config(12, ModuleType::Oscillator);
    assert_eq!(config.get_module_label(12), "Oscillator 12");
    assert_eq!(config.get_module_position(12), GridVec::new(1, 3));
    assert_eq!(config.modules.len(), 4);

    config.add_module_config(12, ModuleType::Lfo);
    assert_eq!(config.get_module_label(12), "Lfo 12");
    assert_eq!(config.get_module_position(12), GridVec::new(1, 4));
    assert_eq!(config.modules.len(), 4);
    assert_eq!(ModuleType::SpectralMixer.label(), "SpectralMixer");
}

#[test]
fn modulated_values_are_shown_for_connected_inputs_while_voices_sound() {
    let state = minimal_state();
    let spectrum = InputId::new(Input::Spectrum, OSCILLATOR_ID);
    let gain = InputId::new(Input::Gain, OSCILLATOR_ID);
    let mut modulated = ModulatedInputs::new();
    let sounding = VoicesStatus { playing: 1, ..VoicesStatus::default() };

    assert!(state.get_input_modulated_value(&modulated, &sounding, false, spectrum).is_none());
    modulated.record(spectrum, 1, 0.5f32.to_bits());
    modulated.record(gain, 0, 0.25f32.to_bits());
    assert_eq!(modulated.get(spectrum).map(|v| v.channels), Some([0, 0.5f32.to_bits()]));

    let shown = state.get_input_modulated_value(&modulated, &sounding, false, spectrum).expect("connected");
    assert_eq!(shown.value.channels, [0, 0.5f32.to_bits()]);
    assert!(shown.is_stereo);
    assert!(state.get_input_modulated_value(&modulated, &VoicesStatus::default(), false, spectrum).is_none());
    // The gain input has no source.
    assert!(state.get_input_modulated_value(&modulated, &sounding, false, gain).is_none());

    modulated.record(spectrum, 0, 1.0f32.to_bits());
    assert_eq!(modulated.get(spectrum).map(|v| v.channels), Some([1.0f32.to_bits(), 0.5f32.to_bits()]));
}

#[test]
fn spectral_modules_show_one_value_unless_spectra_are_stereo() {
    let mut modules = minimal_modules();
    modules.push(module(LFO_ID, ModuleType::SpectralFilter, vec![InputMeta::spectral(Input::Spectrum)], DataType::Spectral));
    let mut routing = minimal_routing();
    let input = InputId::new(Input::Spectrum, LFO_ID);
    routing.push(RoutingEntry { input, sources: vec![source(HARMONIC_EDITOR_ID)] });
    let state = RoutingState::new(modules, routing);
    let mut modulated = ModulatedInputs::new();
    modulated.record(input, 0, 0.5f32.to_bits());
    let sounding = VoicesStatus { releasing: 2, ..VoicesStatus::default() };

    assert!(!state.get_input_modulated_value(&modulated, &sounding, false, input).unwrap().is_stereo);
    assert!(state.get_input_modulated_value(&modulated, &sounding, true, input).unwrap().is_stereo);
}

#[test]
fn can_be_linked_agrees_with_linkable_inputs() {
    let lfo = module(LFO_ID, ModuleType::Lfo, vec![], DataType::Control);
    let editor = module(SECOND_EDITOR_ID, ModuleType::HarmonicEditor, vec![], DataType::Spectral);
    for state in [minimal_state(), with_module(lfo), with_module(editor)] {
        for src in [HARMONIC_EDITOR_ID, OSCILLATOR_ID, SECOND_EDITOR_ID, LFO_ID, OUTPUT_MODULE_ID, 99] {
            for dst in [HARMONIC_EDITOR_ID, OSCILLATOR_ID, SECOND_EDITOR_ID, LFO_ID, OUTPUT_MODULE_ID, 99] {
                assert_eq!(
                    state.can_be_linked(src, dst),
                    !state.get_linkable_inputs(&ui_config(), src, dst).is_empty(),
                    "src {src} dst {dst}"
                );
            }
        }
    }
    let state = with_module(module(SECOND_EDITOR_ID, ModuleType::HarmonicEditor, vec![], DataType::Spectral));
    assert!(state.can_be_linked(SECOND_EDITOR_ID, OSCILLATOR_ID));
    assert!(!state.can_be_linked(HARMONIC_EDITOR_ID, OSCILLATOR_ID));
}

#[test]
fn module_settings_stay_keyed_by_id() {
    let mut config = ui_config();
    config.add_module_config(OSCILLATOR_ID, ModuleType::Oscillator);
    config.insert_module(UiModuleConfig { id: LFO_ID, label: "Lfo".into(), ..UiModuleConfig::default() });
    config.insert_module(UiModuleConfig { id: LFO_ID, label: "Lfo again".into(), ..UiModuleConfig::default() });
    let mut ids: Vec<ModuleId> = config.modules.iter().map(|m| m.id).collect();
    assert_eq!(ids.len(), 4);
    ids.sort();
    ids.dedup();
    assert_eq!(ids.len(), 4);
    assert_eq!(config.get_module_label(LFO_ID), "Lfo again");
}
