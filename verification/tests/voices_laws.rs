use additizer::routing::VoiceEvent;
use additizer::voices_handler::{DecayingVoices, Note, PlayingVoices, VoiceEvents, VoicesHandler};

fn key(channel: u8, note: u8) -> Note {
    Note { channel, note, velocity: 1.0f32.to_bits(), host_id: None }
}

#[test]
fn choke_all_frees_every_voice() {
    let mut h = VoicesHandler::new(4, false);
    let mut ev = VoiceEvents::new();
    for note in 60..68 {
        h.handle_note_on(key(0, note), 0, &mut ev);
    }
    h.handle_note_off(key(0, 67), 0, &mut ev);
    h.choke_all_voices();

    let m = h.get_metrics();
    assert_eq!((m.waiting, m.playing, m.releasing, m.killing), (0, 0, 0, 0));
    assert_eq!(h.num_free_voices(), 20);
}

#[test]
fn voices_are_never_shared() {
    let mut h = VoicesHandler::new(16, false);
    let mut ev = VoiceEvents::new();
    for note in 40..70 {
        h.handle_note_on(key(note % 3, note), 0, &mut ev);
        if note % 4 == 0 {
            h.handle_note_off(key(note % 3, note), 0, &mut ev);
        }
    }
    let mut playing = PlayingVoices::new();
    h.get_playing_voices(&mut playing);
    let mut voices: Vec<usize> = playing.as_slice().iter().map(|v| v.voice_idx()).collect();
    let count = voices.len();
    voices.sort();
    voices.dedup();
    assert_eq!(voices.len(), count);
    assert_eq!(count + h.num_free_voices(), 20);
}

#[test]
fn polyphony_never_exceeds_the_voice_count() {
    let mut h = VoicesHandler::new(3, false);
    let mut ev = VoiceEvents::new();
    for note in 50..60 {
        h.handle_note_on(key(0, note), 0, &mut ev);
        let m = h.get_metrics();
        assert!(m.playing + m.releasing <= 3);
    }
}

#[test]
fn fresh_key_is_the_newest_voice() {
    let mut h = VoicesHandler::new(4, false);
    let mut ev = VoiceEvents::new();
    h.handle_note_on(key(0, 60), 0, &mut ev);
    h.handle_note_on(key(0, 64), 5, &mut ev);

    let mut playing = PlayingVoices::new();
    h.get_playing_voices(&mut playing);
    let newest = playing.as_slice()[0];
    assert_eq!(newest.triggered(), Some(5));
    match ev.events().last() {
        Some(VoiceEvent::Reset { voice_idx, note, offset, .. }) => {
            assert_eq!((*voice_idx, *note, *offset), (newest.voice_idx(), 64, 5));
        }
        _ => panic!("expected Reset"),
    }
}

#[test]
fn finished_decay_frees_every_fading_voice() {
    let mut h = VoicesHandler::new(2, false);
    let mut ev = VoiceEvents::new();
    for note in [60, 62, 64, 65] {
        h.handle_note_on(key(0, note), 0, &mut ev);
    }
    for note in [60, 62, 64, 65] {
        h.handle_note_off(key(0, note), 0, &mut ev);
    }
    let mut decaying = DecayingVoices::new();
    h.get_decaying_voices(&mut decaying);
    let mut terminated = Vec::new();
    h.update_decaying_voices(decaying.as_slice(), &mut terminated);

    let m = h.get_metrics();
    assert_eq!((m.releasing, m.killing), (0, 0));
    assert_eq!(h.num_free_voices() + m.playing, 20);
    assert_eq!(terminated.len(), 4);
}

#[test]
fn note_off_releases_the_key() {
    let mut h = VoicesHandler::new(4, false);
    let mut ev = VoiceEvents::new();
    h.handle_note_on(key(1, 70), 0, &mut ev);
    h.handle_note_off(Note { velocity: 0.25f32.to_bits(), ..key(1, 70) }, 9, &mut ev);

    let m = h.get_metrics();
    assert_eq!((m.playing, m.releasing), (0, 1));
    assert_eq!(
        ev.events().last(),
        Some(&VoiceEvent::Release { voice_idx: 0, velocity: 0.25f32.to_bits(), offset: 9 })
    );
}

#[test]
fn mono_keeps_one_note_per_channel() {
    for legato in [false, true] {
        let mut h = VoicesHandler::new(1, legato);
        let mut ev = VoiceEvents::new();
        for note in [60, 62, 64] {
            h.handle_note_on(key(0, note), 0, &mut ev);
            h.handle_note_on(key(1, note + 12), 0, &mut ev);
            assert_eq!(h.get_metrics().playing, 2);
        }
        assert_eq!(h.get_metrics().waiting, 4);
    }
}

#[test]
fn triggers_mark_only_restarted_voices() {
    let mut h = VoicesHandler::new(4, false);
    let mut ev = VoiceEvents::new();
    h.handle_note_on(key(0, 60), 0, &mut ev);
    h.reset_triggers();
    h.handle_note_on(key(0, 64), 7, &mut ev);
    h.handle_note_off(key(0, 60), 9, &mut ev);

    let mut playing = PlayingVoices::new();
    h.get_playing_voices(&mut playing);
    let voices = playing.as_slice();
    assert_eq!(voices.len(), 2);
    assert_eq!(voices[0].triggered(), Some(7));
    assert_eq!(voices[1].triggered(), None);

    h.reset_triggers();
    h.handle_choke(key(0, 60));
    let mut playing = PlayingVoices::new();
    h.get_playing_voices(&mut playing);
    assert_eq!(playing.as_slice().len(), 1);
    assert_eq!(playing.as_slice()[0].triggered(), None);
}

#[test]
fn played_voices_are_distinct_with_killing_notes() {
    let mut h = VoicesHandler::new(2, false);
    let mut ev = VoiceEvents::new();
    for note in 60..66 {
        h.handle_note_on(key(0, note), note as usize, &mut ev);
    }
    let m = h.get_metrics();
    let mut playing = PlayingVoices::new();
    h.get_playing_voices(&mut playing);
    let mut voices: Vec<usize> = playing.as_slice().iter().map(|v| v.voice_idx()).collect();
    assert_eq!(voices.len(), m.playing + m.releasing + m.killing);
    assert!(m.killing > 0);
    assert!(voices.iter().all(|&v| v < 20));
    voices.sort();
    voices.dedup();
    assert_eq!(voices.len(), m.playing + m.releasing + m.killing);
}

#[test]
fn decay_pass_without_voices_hands_out_nothing() {
    let mut h = VoicesHandler::new(4, false);
    let mut ev = VoiceEvents::new();
    h.handle_note_on(key(0, 60), 0, &mut ev);
    h.handle_note_off(key(0, 60), 0, &mut ev);
    let mut decaying = DecayingVoices::new();
    h.get_decaying_voices(&mut decaying);
    let mut terminated = Vec::new();
    h.update_decaying_voices(decaying.as_slice(), &mut terminated);
    assert_eq!(terminated.len(), 1);
    let mut again = Vec::new();
    h.update_decaying_voices(&[], &mut again);
    assert!(again.is_empty());
    assert_eq!(h.num_free_voices(), 20);
}

#[test]
fn decay_pass_frees_only_finished_voices() {
    let mut h = VoicesHandler::new(8, false);
    let mut ev = VoiceEvents::new();
    for note in 60..64 {
        h.handle_note_on(key(0, note), 0, &mut ev);
    }
    for note in 60..63 {
        h.handle_note_off(key(0, note), 0, &mut ev);
    }
    let mut decaying = DecayingVoices::new();
    h.get_decaying_voices(&mut decaying);
    assert_eq!(decaying.len(), 3);
    decaying.as_mut_slice()[1].mark_active();
    let still_fading = decaying.as_slice()[1].index();

    let mut terminated = Vec::new();
    h.update_decaying_voices(decaying.as_slice(), &mut terminated);
    assert_eq!(terminated.len(), 2);
    let m = h.get_metrics();
    assert_eq!((m.playing, m.releasing, m.killing), (1, 1, 0));
    assert_eq!(h.num_free_voices(), 18);

    let mut decaying = DecayingVoices::new();
    h.get_decaying_voices(&mut decaying);
    assert_eq!(decaying.len(), 1);
    assert_eq!(decaying.as_slice()[0].index(), still_fading);
}
