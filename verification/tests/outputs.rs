use additizer::routing::outputs::SamplesOutput;
use additizer::routing::outputs::SpectralOutput as BinsOutput;
use additizer::routing::outputs_arena::OutputsArena;
use additizer::routing::process_context::VoiceTarget;
use additizer::routing::voice_router::{
    voice_bandwidth, voice_targets, spectral_prefix_len, AudioVoiceState, ControlVoiceState,
    SpectralVoiceState,
};
use additizer::routing::{DataType, InputSlot};
use additizer::types::{ScalarOutput, SpectralOutput};
use additizer::voices_handler::{Note, PlayingVoices, VoiceEvents, VoicesHandler, NOTE_BANDWIDTH};
use additizer::StereoSample;

fn slot(src_slot: usize) -> InputSlot {
    InputSlot { src_slot, modulation_slot: None, amount: StereoSample::one() }
}

#[test]
fn scalar_output_advances_by_one_block() {
    let mut output = ScalarOutput::new(0.0f32);
    output.advance(1.5);
    assert_eq!(output.previous(), 0.0);
    assert_eq!(output.current(), 1.5);
    output.advance(-2.0);
    assert_eq!(output.get(false), 1.5);
    assert_eq!(output.get(true), -2.0);
}

#[test]
fn spectral_output_hands_out_the_stale_buffer() {
    let mut output = SpectralOutput::new(vec![1u32], vec![2u32]);
    assert_eq!(output.get(true), &vec![1]);
    assert_eq!(output.get(false), &vec![2]);

    let next = output.advance();
    assert_eq!(next, &vec![1]);
    *next = vec![3];
    assert_eq!(output.get(true), &vec![2]);
    assert_eq!(output.get(false), &vec![3]);

    *output.advance() = vec![4];
    assert_eq!(output.get(true), &vec![3]);
    assert_eq!(output.get(false), &vec![4]);
}

#[test]
fn spectral_bins_are_limited_to_the_buffer() {
    let mut output = BinsOutput::new(vec![10, 20, 30, 40]);
    assert!(output.get().is_empty());
    output.set_length(2);
    assert_eq!(output.get(), &[10, 20]);
    output.set_length(9);
    assert_eq!(output.get(), &[10, 20, 30, 40]);
    output.set_length(0);
    assert!(output.get().is_empty());
}

#[test]
fn get_scalar_reads_control_output() {
    let mut arena = OutputsArena::new();
    let src_slot = arena.allocate_samples_slot(true);

    assert!(arena.can_read_scalar(&[slot(src_slot)]));
}

#[test]
fn get_scalar_refuses_audio_output() {
    let mut arena = OutputsArena::new();
    let src_slot = arena.allocate_samples_slot(false);

    assert!(!arena.can_read_scalar(&[slot(src_slot)]));
}

#[test]
fn get_scalar_refuses_audio_rate_modulator() {
    let mut arena = OutputsArena::new();
    let src_slot = arena.allocate_samples_slot(true);
    let modulation_slot = arena.allocate_samples_slot(false);
    let slots = [InputSlot { src_slot, modulation_slot: Some(modulation_slot), amount: StereoSample::one() }];

    assert!(!arena.can_read_scalar(&slots));
}

#[test]
fn reused_slot_updates_rate() {
    let mut arena = OutputsArena::new();
    let src_slot = arena.allocate_samples_slot(false);
    arena.free_samples_slot(src_slot);

    let reused = arena.allocate_samples_slot(true);
    assert_eq!(reused, src_slot);
    assert!(arena.can_read_scalar(&[slot(reused)]));
}

#[test]
fn add_buff_to_reads_control_as_control() {
    let mut arena = OutputsArena::new();
    let src_slot = arena.allocate_samples_slot(true);

    assert!(arena.can_read_buffer(&[slot(src_slot)], true));
}

#[test]
fn add_buff_to_reads_audio_or_control_as_audio() {
    let mut arena = OutputsArena::new();
    let audio_slot = arena.allocate_samples_slot(false);
    let control_slot = arena.allocate_samples_slot(true);

    assert!(arena.can_read_buffer(&[slot(audio_slot)], false));
    assert!(arena.can_read_buffer(&[slot(control_slot)], false));
}

#[test]
fn add_buff_to_refuses_audio_as_control() {
    let mut arena = OutputsArena::new();
    let src_slot = arena.allocate_samples_slot(false);

    assert!(!arena.can_read_buffer(&[slot(src_slot)], true));
}

#[test]
fn arena_slots_are_distinct_and_reused_last_in_first_out() {
    let mut arena = OutputsArena::new();
    let a = arena.allocate_slot(DataType::Audio);
    let b = arena.allocate_slot(DataType::Control);
    let s = arena.allocate_slot(DataType::Spectral);
    assert_eq!((a, b, s), (0, 1, 0));
    arena.free_slot(DataType::Audio, a);
    arena.free_slot(DataType::Control, b);
    assert_eq!(arena.allocate_slot(DataType::Audio), b);
    assert_eq!(arena.allocate_slot(DataType::Audio), a);
    assert_eq!(arena.allocate_slot(DataType::Control), 2);
    assert!(!arena.is_control(b));
    assert!(arena.is_control(2));
    assert!(!arena.is_samples(3));
}

#[test]
fn voice_state_offsets_follow_the_trigger() {
    let triggered = VoiceTarget { channel_idx: 0, voice_idx: 3, note_bandwidth: 40, triggered: Some(5), is_last: true };
    let held = VoiceTarget { triggered: None, ..triggered };

    let audio = AudioVoiceState::for_target(&triggered, 0);
    assert_eq!((audio.offset, audio.bandwidth, audio.triggered), (5, 41, true));
    assert_eq!(audio.samples(64), 59);
    let audio = AudioVoiceState::for_target(&held, 16);
    assert_eq!((audio.offset, audio.bandwidth, audio.triggered), (0, 17, false));

    let control = ControlVoiceState::for_target(&held);
    assert_eq!(control.offset, 1);
    assert_eq!(control.samples(64), 64);
    assert_eq!(control.block_to_voice_offset(0), 0);
    assert_eq!(control.block_to_voice_offset(10), 9);

    let spectral = SpectralVoiceState::for_target(&triggered, 0);
    assert_eq!((spectral.bandwidth, spectral.triggered), (41, Some(5)));
    assert_eq!(voice_bandwidth(0, 7), 8);
    assert_eq!(spectral_prefix_len(1024, 41), 41);
    assert_eq!(spectral_prefix_len(16, 41), 16);
}

fn note(note: u8) -> Note {
    Note { channel: 0, note, velocity: 1.0f32.to_bits(), host_id: None }
}

#[test]
fn voice_targets_cover_every_channel_and_repeat_triggered_spectra() {
    let mut handler = VoicesHandler::new(4, false);
    let mut events = VoiceEvents::new();
    handler.handle_note_on(note(60), 3, &mut events);
    handler.reset_triggers();
    handler.handle_note_on(note(64), 7, &mut events);
    let mut playing = PlayingVoices::new();
    handler.get_playing_voices(&mut playing);
    let voices = playing.as_slice();
    assert_eq!(voices.len(), 2);
    assert_eq!(voices[0].triggered(), Some(7));
    assert_eq!(voices[1].triggered(), None);
    assert_eq!(voices[0].note_bandwidth(), NOTE_BANDWIDTH[64] as usize);

    let targets = voice_targets(2, voices, false);
    assert_eq!(targets.len(), 4);
    assert_eq!(targets[0], VoiceTarget::new(0, &voices[0], 0));
    assert!(targets[0].is_last);
    assert_eq!(targets[3], VoiceTarget::new(1, &voices[1], 1));

    let targets = voice_targets(1, voices, true);
    assert_eq!(targets.len(), 3);
    assert_eq!(targets[0].triggered, Some(7));
    assert_eq!(targets[1], VoiceTarget { triggered: None, ..targets[0] });
    assert_eq!(targets[2].voice_idx, voices[1].voice_idx());
}

#[test]
fn note_bandwidth_table_matches_the_float_formula() {
    for note in 0..=255u8 {
        let pitch = (note as f32 - 69.0) * (1.0 / 12.0);
        let frequency = pitch.exp2() * 440.0;
        let expected = (24_000.0f32 / frequency).floor() as u16;
        assert_eq!(NOTE_BANDWIDTH[note as usize], expected, "note {note}");
    }
}

#[test]
fn samples_output_block_edges() {
    let mut out = SamplesOutput::new(vec![1, 2, 3, 4, 5, 6], 9);
    assert_eq!(out.scalar(Some(2)), 3);
    assert_eq!(out.scalar(None), 9);

    out.start_control_voice(None, 4, 0);
    assert_eq!(out.buffer(), &[9, 2, 3, 4, 5, 6]);
    out.keep_next_frame(4);
    assert_eq!(out.next_frame_sample(), 5);

    out.start_audio_voice(Some(3), 4, 0);
    assert_eq!(out.buffer(), &[0, 0, 0, 4, 5, 6]);
    out.start_control_voice(Some(9), 2, 7);
    assert_eq!(out.buffer(), &[7, 7, 0, 4, 5, 6]);

    out.fill_with_ext_control(1, &[10, 11, 12]);
    assert_eq!(out.buffer(), &[7, 11, 12, 12, 5, 6]);
    assert_eq!(out.next_frame_sample(), 12);

    out.fill_with_ext_control_value(2, 4, 8);
    assert_eq!(out.buffer(), &[7, 11, 8, 8, 8, 6]);
    assert_eq!(out.next_frame_sample(), 8);

    out.buffer_mut()[5] = 1;
    assert_eq!(out.buffer()[5], 1);
}

#[test]
fn only_the_last_pass_updates_the_editor() {
    let last = VoiceTarget { channel_idx: 1, voice_idx: 0, note_bandwidth: 4, triggered: None, is_last: true };
    assert!(last.needs_ui_update(true));
    assert!(!last.needs_ui_update(false));
    assert!(!last.needs_ui_update_mono(true));
    assert!(VoiceTarget { channel_idx: 0, ..last }.needs_ui_update_mono(true));
    assert!(!VoiceTarget { is_last: false, ..last }.needs_ui_update(true));
}

#[test]
fn fresh_arena_hands_out_slots_in_order() {
    let mut arena = OutputsArena::new();
    let samples: Vec<usize> = [true, false, true, false].iter().map(|&c| arena.allocate_samples_slot(c)).collect();
    assert_eq!(samples, vec![0, 1, 2, 3]);
    let spectral: Vec<usize> = (0..3).map(|_| arena.allocate_spectral_slot()).collect();
    assert_eq!(spectral, vec![0, 1, 2]);
    arena.free_samples_slot(1);
    assert_eq!(arena.allocate_samples_slot(true), 1);
    assert!(arena.is_control(1));
    assert_eq!(arena.allocate_samples_slot(false), 4);
}

#[test]
fn spectral_passes_count_triggered_voices_twice() {
    let mut handler = VoicesHandler::new(4, false);
    let mut events = VoiceEvents::new();
    handler.handle_note_on(note(60), 0, &mut events);
    handler.reset_triggers();
    handler.handle_note_on(note(62), 2, &mut events);
    handler.handle_note_on(note(64), 5, &mut events);
    let mut playing = PlayingVoices::new();
    handler.get_playing_voices(&mut playing);
    let voices = playing.as_slice();
    assert_eq!(voice_targets(2, voices, true).len(), 2 * (3 + 2));
    assert_eq!(voice_targets(2, voices, false).len(), 2 * 3);
    assert_eq!(voice_targets(0, voices, true).len(), 0);
}
