use additizer::modules::spectral_eq::{
    add_filter, limit_filters, move_filter, remove_filter, set_filter, MAX_EQ_FILTERS,
};
use additizer::modules::spectral_noise::NoiseColor;
use additizer::modules::wave_shaper::ShaperType;
use additizer::output::OutputModule;
use additizer::phase::Phase;
use additizer::routing::OUTPUT_MODULE_ID;
use additizer::utils::NthElement;
use additizer::voice::VoiceId;
use additizer::modules::spectral_filter;
use additizer::modules::spectral_mixer;
use additizer::modules::spectral_noise::{clamp_bandwidth, spectrum_length, PhaseAction, PhaseResets};
use additizer::modules::oscillator::{WaveBuffersState, WaveBuild};
use additizer::modules::wave_shaper;
use additizer::routing::{
    DataType, Input, InputSlot, InputSlots, MixType, SpectralInputSlot, VoiceEvent, VolumeType,
};
use additizer::StereoSample;

#[test]
fn from_config_keeps_at_most_16_filters() {
    let filters = vec![1_000.0f32; MAX_EQ_FILTERS + 4];

    assert_eq!(limit_filters(&filters).len(), MAX_EQ_FILTERS);
    assert_eq!(limit_filters(&filters[..3]).len(), 3);
}

fn cutoffs(filters: &[f32]) -> [f32; 3] {
    [filters[0], filters[1], filters[2]]
}

#[test]
fn move_filter_reorders_bands() {
    let mut bands = vec![100.0f32, 1_000.0, 8_000.0];

    move_filter(&mut bands, 0, 0);
    move_filter(&mut bands, 3, 0);
    assert_eq!(cutoffs(&bands), [100.0, 1_000.0, 8_000.0]);

    move_filter(&mut bands, 2, 0);
    assert_eq!(cutoffs(&bands), [8_000.0, 100.0, 1_000.0]);

    move_filter(&mut bands, 0, 1);
    assert_eq!(cutoffs(&bands), [100.0, 8_000.0, 1_000.0]);
}

#[test]
fn band_list_edits() {
    let mut bands: Vec<u32> = Vec::new();
    for i in 0..20 {
        add_filter(&mut bands, i);
    }
    assert_eq!(bands.len(), MAX_EQ_FILTERS);
    set_filter(&mut bands, 3, 99);
    set_filter(&mut bands, 30, 7);
    assert_eq!(bands[3], 99);
    remove_filter(&mut bands, 0);
    remove_filter(&mut bands, 40);
    assert_eq!(bands.len(), MAX_EQ_FILTERS - 1);
    assert_eq!(bands[0], 1);
    move_filter(&mut bands, 5, 9);
    move_filter(&mut bands, 9, 5);
    assert_eq!(bands[2], 99);
    assert_eq!(bands[5], 6);
}

#[test]
fn noise_colors_have_labels() {
    let labels: Vec<&str> = NoiseColor::all().iter().map(|c| c.label()).collect();
    assert_eq!(labels, ["White", "Pink", "Brown"]);
    assert_eq!(NoiseColor::default(), NoiseColor::White);
    assert_eq!(ShaperType::default(), ShaperType::HardClip);
}

#[test]
fn output_module_has_the_reserved_id() {
    assert_eq!(OutputModule::new().get_id(), OUTPUT_MODULE_ID);
}

#[test]
fn voice_ids_match_by_host_id_or_by_key() {
    let with_id = VoiceId::new(0, 60, Some(7));
    let by_key = VoiceId::new(0, 60, None);

    assert!(with_id.match_voice(by_key));
    assert!(!by_key.match_voice(with_id));
    assert!(with_id.match_voice(VoiceId::new(3, 10, Some(7))));
    assert!(!with_id.match_voice(VoiceId::new(0, 61, None)));
    assert!(with_id.match_by_voice_id(7));
    assert!(!by_key.match_by_voice_id(7));
    assert!(with_id.match_by_note(by_key));
    assert!(!with_id.match_by_note(VoiceId::new(1, 60, Some(7))));
}

#[test]
fn nth_element_selects_every_nth_harmonic() {
    let every_third = NthElement::new(3, 1, false);
    assert!(every_third.matches(1));
    assert!(every_third.matches(7));
    assert!(!every_third.matches(8));
    assert!(!every_third.matches(0));

    let single = NthElement::new(0, 5, false);
    assert!(single.matches(5));
    assert!(!single.matches(6));

    let others = NthElement::new(2, 0, true);
    assert!(!others.matches(4));
    assert!(others.matches(5));
}

#[test]
fn phase_wave_index_takes_the_top_bits() {
    let phase = Phase::from_raw(0xC000_0000);
    assert_eq!(phase.wave_index::<10>(), 0x300);
    assert_eq!(Phase::intermediate_bits::<10>(), 22);
    assert_eq!(Phase::intermediate_mask::<10>(), (1 << 22) - 1);
    let sum = Phase::from_raw(u32::MAX) + Phase::from_raw(2);
    assert_eq!(sum.raw(), 1);
    assert_eq!(Phase::zero().raw(), 0);
}

fn slots(input_type: Input, src: &[usize]) -> InputSlots {
    InputSlots {
        input_type,
        slots: src.iter().map(|&s| InputSlot { src_slot: s, modulation_slot: None, amount: StereoSample::one() }).collect(),
    }
}

fn src_slots(s: &InputSlots) -> Vec<usize> {
    s.slots.iter().map(|slot| slot.src_slot).collect()
}

#[test]
fn filter_inputs_take_the_last_entry_of_each_type() {
    let inputs = [slots(Input::Cutoff, &[1]), slots(Input::Drive, &[2, 3]), slots(Input::Cutoff, &[4]), slots(Input::Gain, &[9])];
    let spectral = [
        SpectralInputSlot { input_type: Input::Spectrum, slot: 5 },
        SpectralInputSlot { input_type: Input::SpectrumTo, slot: 6 },
    ];
    let mut filter_inputs = spectral_filter::Inputs::from_slots(&inputs, &spectral);

    assert_eq!(filter_inputs.spectrum, Some(5));
    assert_eq!(src_slots(&filter_inputs.cutoff), [4]);
    assert_eq!(src_slots(&filter_inputs.drive), [2, 3]);
    assert!(filter_inputs.resonance.slots.is_empty());
    assert_eq!(filter_inputs.resonance.input_type, Input::Resonance);

    let half = StereoSample::splat_bits(0.5f32.to_bits());
    filter_inputs.update_amount(Input::Drive, 3, half);
    assert_eq!(filter_inputs.drive.slots[1].amount.channels, half.channels);
    assert_eq!(filter_inputs.drive.slots[0].amount.channels, StereoSample::one().channels);
    assert_eq!(spectral_filter::inputs().len(), 4);
    assert_eq!(spectral_filter::inputs()[0].data_type, DataType::Spectral);
}

#[test]
fn wave_shaper_reads_the_first_audio_source() {
    let inputs = [slots(Input::Audio, &[7, 8]), slots(Input::Distortion, &[1])];
    let shaper_inputs = wave_shaper::Inputs::from_slots(&inputs);

    assert_eq!(shaper_inputs.audio, Some(7));
    assert_eq!(src_slots(&shaper_inputs.distortion), [1]);
    assert!(shaper_inputs.clipping_level.slots.is_empty());
    assert_eq!(wave_shaper::Inputs::from_slots(&[slots(Input::Audio, &[])]).audio, None);
    assert_eq!(wave_shaper::inputs().len(), 3);
}

#[test]
fn mixer_inputs_by_spectrum() {
    let inputs = [slots(Input::GainMix(2), &[3]), slots(Input::LevelMix(7), &[4]), slots(Input::Level, &[5])];
    let spectral = [
        SpectralInputSlot { input_type: Input::SpectrumMix(0), slot: 1 },
        SpectralInputSlot { input_type: Input::SpectrumMix(5), slot: 2 },
        SpectralInputSlot { input_type: Input::SpectrumMix(6), slot: 3 },
    ];
    let mut mixer_inputs = spectral_mixer::Inputs::from_slots(&inputs, &spectral);

    assert_eq!(mixer_inputs.spectrum_mix, [Some(1), None, None, None, None, Some(2)]);
    assert_eq!(src_slots(&mixer_inputs.gain_mix[2]), [3]);
    assert_eq!(mixer_inputs.gain_mix[2].input_type, Input::GainMix(2));
    assert!(mixer_inputs.level_mix.iter().all(|s| s.slots.is_empty()));
    assert_eq!(src_slots(&mixer_inputs.level), [5]);

    let half = StereoSample::splat_bits(0.5f32.to_bits());
    mixer_inputs.update_amount(Input::GainMix(2), 3, half);
    mixer_inputs.update_amount(Input::GainMix(9), 3, StereoSample::zero());
    assert_eq!(mixer_inputs.gain_mix[2].slots[0].amount.channels, half.channels);

    let metas = spectral_mixer::inputs();
    assert_eq!(metas.len(), 20);
    assert_eq!(metas[2].input_type, Input::SpectrumMix(0));
    assert_eq!(metas[19].input_type, Input::LevelMix(5));
}

fn reset(voice_idx: usize, prev_voice_idx: Option<usize>) -> VoiceEvent {
    VoiceEvent::Reset { voice_idx, prev_voice_idx, note: 60, velocity: 1.0f32.to_bits(), offset: 0 }
}

#[test]
fn noise_phases_are_stolen_or_renewed_on_reset() {
    let mut resets = PhaseResets::new();
    resets.process_events(&[reset(1, Some(4)), reset(2, None), VoiceEvent::Kill { voice_idx: 4, offset: 0 }, reset(3, Some(3))]);

    assert_eq!(resets.take(0, true), PhaseAction::Keep);
    assert_eq!(resets.take(1, true), PhaseAction::CopyFrom(4));
    assert_eq!(resets.take(1, true), PhaseAction::Keep);
    assert_eq!(resets.take(2, true), PhaseAction::Randomize);
    assert_eq!(resets.take(3, true), PhaseAction::Randomize);

    resets.process_events(&[reset(1, Some(4))]);
    assert_eq!(resets.take(1, false), PhaseAction::Randomize);
}

#[test]
fn mixer_params_limit_the_number_of_spectra() {
    let input = spectral_mixer::InputParams { mix_type: MixType::Add, volume_type: VolumeType::Gain };
    let mut params = spectral_mixer::Params::new(0, input, VolumeType::Db);
    assert_eq!(params.num_inputs, 0);
    params.set_num_inputs(0);
    assert_eq!(params.num_inputs, 1);
    params.set_num_inputs(9);
    assert_eq!(params.num_inputs, spectral_mixer::MAX_INPUTS);
    params.set_num_inputs(3);
    assert_eq!(params.num_inputs, 3);

    params.set_mix_type(5, MixType::Multiply);
    params.set_volume_type(5, VolumeType::Db);
    assert_eq!(params.inputs[5], spectral_mixer::InputParams { mix_type: MixType::Multiply, volume_type: VolumeType::Db });
    assert_eq!(params.inputs[4], input);
    params.set_output_volume_type(VolumeType::Gain);
    assert_eq!(params.output_volume_type, VolumeType::Gain);
}

#[test]
fn noise_bandwidth_is_clamped() {
    assert_eq!(clamp_bandwidth(-5, 512), 0);
    assert_eq!(clamp_bandwidth(0, 512), 0);
    assert_eq!(clamp_bandwidth(24, 512), 24);
    assert_eq!(clamp_bandwidth(1000, 512), 512);
}

#[test]
fn noise_spectrum_length_edges() {
    assert_eq!(spectrum_length(8, 3, 513), 9);
    assert_eq!(spectrum_length(8, 300, 513), 9);
    assert_eq!(spectrum_length(0, 40, 513), 41);
    assert_eq!(spectrum_length(0, 2000, 513), 513);
    assert_eq!(spectrum_length(512, 0, 513), 513);
    assert_eq!(spectrum_length(600, 0, 513), 513);
}

#[test]
fn oscillator_wave_buffers_build_both_then_alternate() {
    let mut state = WaveBuffersState::new();
    assert_eq!(state.prepare(), WaveBuild::Both);
    assert_eq!(state.fade_buffers(), (0, 1));
    assert_eq!(state.prepare(), WaveBuild::Target(0));
    assert_eq!(state.fade_buffers(), (1, 0));
    assert_eq!(state.prepare(), WaveBuild::Target(1));
    assert_eq!(state.fade_buffers(), (0, 1));
    assert!(state.wave_buffers_initialized);
}

const BAND_LIMIT_FREQUENCY: f32 = 24_000.0;
const SPECTRUM_SIZE: usize = 1024;

fn note_to_pitch(note: f32) -> f32 {
    (note - 69.0) * (1.0 / 12.0)
}

fn pitch_to_freq(pitch: f32) -> f32 {
    pitch.exp2() * 440.0
}

fn pitch_bandwidth(pitch: f32) -> usize {
    let frequency = pitch_to_freq(pitch).max(1.0);
    (BAND_LIMIT_FREQUENCY / frequency).floor() as usize
}

fn noise_spectrum_length(bandwidth: i32, pitch: f32) -> usize {
    spectrum_length(bandwidth, pitch_bandwidth(pitch), SPECTRUM_SIZE)
}

#[test]
fn note_based_bandwidth_tracks_pitch() {
    let low = note_to_pitch(36.0);
    let high = note_to_pitch(96.0);

    assert!(noise_spectrum_length(0, low) > noise_spectrum_length(0, high));

    let frequency = pitch_to_freq(low).max(1.0);
    let expected = ((BAND_LIMIT_FREQUENCY / frequency).floor() as usize + 1).min(SPECTRUM_SIZE);

    assert_eq!(noise_spectrum_length(0, low), expected);
}

#[test]
fn fixed_bandwidth_ignores_pitch() {
    assert_eq!(noise_spectrum_length(8, note_to_pitch(36.0)), 9);
    assert_eq!(noise_spectrum_length(8, note_to_pitch(96.0)), 9);
}
