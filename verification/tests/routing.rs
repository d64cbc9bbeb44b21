use additizer::routing::{
    data_types_compatible, DataType, Input, InputId, InputMeta, InputSlot, InputSlots, InputSource,
    MixedSource, ModuleLink, VolumeType,
};
use additizer::routing_graph::{has_cycle, RoutingEntry};
use additizer::StereoSample;

fn source(module_id: i32, modulation: Option<i32>) -> MixedSource {
    MixedSource { module_id, amount: StereoSample::one(), modulation }
}

#[test]
fn input_meta_constructors() {
    let m = InputMeta::direct_audio(Input::Audio);
    assert!(m.is_direct && m.data_type == DataType::Audio);
    let m = InputMeta::audio(Input::AudioMix(2));
    assert!(!m.is_direct && m.data_type == DataType::Audio && m.input_type == Input::AudioMix(2));
    let m = InputMeta::control(Input::Gain);
    assert!(!m.is_direct && m.data_type == DataType::Control);
    let m = InputMeta::spectral(Input::Spectrum);
    assert!(m.is_direct && m.data_type == DataType::Spectral);
}

#[test]
fn control_may_feed_audio_but_not_the_reverse() {
    assert!(data_types_compatible(DataType::Control, DataType::Audio));
    assert!(data_types_compatible(DataType::Spectral, DataType::Spectral));
    assert!(!data_types_compatible(DataType::Audio, DataType::Control));
    assert!(!data_types_compatible(DataType::Spectral, DataType::Audio));
}

#[test]
fn volume_type_labels() {
    assert_eq!(VolumeType::Gain.label(), "Gain");
    assert_eq!(VolumeType::Db.label(), "dB");
    assert_eq!(VolumeType::default(), VolumeType::Gain);
}

#[test]
fn module_links_modulation() {
    let dst = InputId::new(Input::Gain, 3);
    let mut direct = ModuleLink::direct(1, dst);
    assert!(direct.is_direct());
    assert!(!direct.set_modulation(2));
    assert_eq!(direct.modulation(), None);

    let mut mixed = ModuleLink::mixed(1, dst, StereoSample::one());
    assert!(!mixed.is_direct());
    assert!(mixed.set_modulation(4));
    assert_eq!(mixed.modulation(), Some(4));
    assert_eq!((mixed.src(), mixed.dst()), (1, dst));
    mixed.clear_modulation();
    assert_eq!(mixed.modulation(), None);
}

#[test]
fn input_source_ids_and_links() {
    let direct = InputSource::Direct(5);
    assert_eq!(direct.source_ids(), vec![5]);
    assert!(direct.contains_module(5));

    let mut mixed = InputSource::Mixed(vec![source(1, Some(2)), source(3, None)]);
    assert_eq!(mixed.source_ids(), vec![1, 2, 3]);
    assert!(mixed.contains_module(3));
    // A modulator is not a source of the input.
    assert!(!mixed.contains_module(2));
    assert!(!mixed.contains_module(4));

    let dst = InputId::new(Input::Gain, 9);
    let links = mixed.links(dst);
    assert_eq!(links.len(), 2);
    assert_eq!(links[0].modulation(), Some(2));

    let half = StereoSample::splat_bits(0.5f32.to_bits());
    assert!(mixed.update_amount(3, half));
    assert!(!mixed.update_amount(7, half));
    assert!(mixed.clear_modulation(1));
    assert_eq!(mixed.source_ids(), vec![1, 3]);
}

#[test]
fn input_slots_update_amount() {
    let mut slots = InputSlots::new(Input::Level);
    assert!(slots.is_empty());
    assert_eq!(slots.first_slot(), None);
    slots.slots.push(InputSlot { src_slot: 4, modulation_slot: None, amount: StereoSample::one() });
    slots.slots.push(InputSlot { src_slot: 6, modulation_slot: Some(1), amount: StereoSample::one() });
    assert_eq!(slots.first_slot(), Some(4));

    let amount = StereoSample::from_bits(0.25f32.to_bits(), 0.75f32.to_bits());
    slots.update_amount(6, amount);
    assert_eq!(slots.slots[1].amount.channels, amount.channels);
    assert_eq!(slots.slots[0].amount.channels, StereoSample::one().channels);
    assert_eq!(amount.left_bits(), 0.25f32.to_bits());
    assert_eq!(amount.channel_bits(1), 0.75f32.to_bits());
}

#[test]
fn cycles_are_found_through_modulators() {
    // 1 -> 2 (modulated by 3), 2 -> 4
    let routing = vec![
        RoutingEntry { input: InputId::new(Input::Gain, 2), sources: vec![source(1, Some(3))] },
        RoutingEntry { input: InputId::new(Input::Audio, 4), sources: vec![source(2, None)] },
    ];

    assert!(has_cycle(&routing, 4, 1));
    assert!(has_cycle(&routing, 4, 3));
    assert!(has_cycle(&routing, 2, 1));
    assert!(!has_cycle(&routing, 2, 2));
    assert!(!has_cycle(&routing, 1, 4));
    assert!(!has_cycle(&routing, 3, 1));
}
