use vstd::prelude::*;
use vstd::multiset::Multiset;

use crate::routing::{MAX_VOICES, VoiceEvent};
use crate::seq_search::{first_index, last_index, lemma_first_index_props};
use crate::voices_handler::{
    DecayingVoice, decay_all, decay_one, lemma_vm_push_free, lemma_vm_remove_killing, lemma_voices_remove,
    uses_voice,
    VoiceIdx, VoicesModel, Note, PlayingNote, all_voices, choke_all_step, choke_step,
    has_note, has_playing, kill_step, lemma_choke_all_wf, lemma_remove_insert, lemma_some_voice,
    lemma_vm_push_killing, lemma_vm_remove_releasing, lemma_voices_drop_last, make_room_step,
    note_is, note_off_step, note_on_step, playing_is, poly_first,
    take_voice, voice_multiset, voices_of, voices_wf, grab_step, lemma_owned_voices_in_range,
    legato_step, mono_step, poly_step, playing_on_channel, note_on_channel, same_key,
};

verus! {

/// Every voice the allocator holds: the free ones, then those of the playing,
/// releasing and killing notes.
pub open spec fn held_voices(m: VoicesModel) -> Seq<VoiceIdx> {
    m.free_voices + voices_of(m.playing) + voices_of(m.releasing) + voices_of(m.killing)
}

/// No voice is ever held twice: two notes never share a voice, and a free voice
/// is in no note's hands; all `MAX_VOICES` voices are accounted for.
pub proof fn lemma_voices_never_shared(m: VoicesModel)
    requires
        voices_wf(m),
    ensures
        held_voices(m).no_duplicates(),
        held_voices(m).len() == MAX_VOICES,
{
    broadcast use vstd::multiset::group_multiset_axioms;
    broadcast use vstd::seq_lib::group_to_multiset_ensures;

    let a = m.free_voices;
    let b = voices_of(m.playing);
    let c = voices_of(m.releasing);
    let d = voices_of(m.killing);
    vstd::seq_lib::lemma_multiset_commutative(a, b);
    vstd::seq_lib::lemma_multiset_commutative(a + b, c);
    vstd::seq_lib::lemma_multiset_commutative(a + b + c, d);
    assert(held_voices(m).to_multiset() =~= voice_multiset(m));
    let s = Seq::new(MAX_VOICES as nat, |i: int| i as VoiceIdx);
    assert(s.no_duplicates());
    s.lemma_multiset_has_no_duplicates();
    held_voices(m).lemma_multiset_has_no_duplicates_conv();
    assert(held_voices(m).to_multiset().len() == s.to_multiset().len());
}

/// Choking every note leaves every voice free and nothing held.
pub proof fn lemma_choke_all_frees_every_voice(m: VoicesModel)
    requires
        voices_wf(m),
    ensures
        choke_all_step(m).playing.len() == 0,
        choke_all_step(m).releasing.len() == 0,
        choke_all_step(m).killing.len() == 0,
        choke_all_step(m).waiting.len() == 0,
        choke_all_step(m).free_voices.len() == MAX_VOICES,
        forall|v: VoiceIdx| (v as usize) < MAX_VOICES ==> #[trigger] choke_all_step(m).free_voices.contains(v),
{
    broadcast use vstd::multiset::group_multiset_axioms;
    broadcast use vstd::seq_lib::group_to_multiset_ensures;

    let c = choke_all_step(m);
    lemma_choke_all_wf(m);
    lemma_some_voice(c);
    assert(voices_of(Seq::<PlayingNote>::empty()) =~= Seq::<VoiceIdx>::empty());
    assert(Seq::<VoiceIdx>::empty().to_multiset() =~= Multiset::<VoiceIdx>::empty());
    assert(c.free_voices.to_multiset() =~= all_voices());
    assert forall|v: VoiceIdx| (v as usize) < MAX_VOICES implies #[trigger] c.free_voices.contains(v) by {
        let s = Seq::new(MAX_VOICES as nat, |i: int| i as VoiceIdx);
        assert(s[v as int] == v);
        assert(s.contains(v));
        assert(s.to_multiset().count(v) > 0);
        assert(c.free_voices.to_multiset().count(v) > 0);
    }
}

/// A note-on for a key that is already held changes nothing and causes no event.
pub proof fn lemma_note_on_held_key_ignored(m: VoicesModel, n: Note, offset: usize)
    requires
        has_note(m.waiting, n) || has_playing(m.playing, n),
    ensures
        note_on_step(m, n, offset) == (m, Seq::<VoiceEvent>::empty()),
{
}

/// A note-off for a key that is neither held without a voice nor playing
/// changes nothing and causes no event.
pub proof fn lemma_note_off_unknown_ignored(m: VoicesModel, n: Note, offset: usize)
    requires
        !has_note(m.waiting, n),
        !has_playing(m.playing, n),
    ensures
        note_off_step(m, n, offset) == (m, Seq::<VoiceEvent>::empty()),
{
    lemma_first_index_props(m.waiting, note_is(n));
    lemma_first_index_props(m.playing, playing_is(n));
}

/// Choking a key the allocator does not know changes nothing.
pub proof fn lemma_choke_unknown_ignored(m: VoicesModel, n: Note)
    requires
        !has_note(m.waiting, n),
        !has_playing(m.playing, n),
        !has_playing(m.releasing, n),
        !has_playing(m.killing, n),
    ensures
        choke_step(m, n) == m,
{
    lemma_first_index_props(m.waiting, note_is(n));
    lemma_first_index_props(m.playing, playing_is(n));
    lemma_first_index_props(m.releasing, playing_is(n));
    lemma_first_index_props(m.killing, playing_is(n));
}

/// The first part of a polyphonic note-on keeps the invariant and does not add
/// to the notes that sound or release.
proof fn lemma_poly_first(m: VoicesModel, n: Note, offset: usize)
    requires
        voices_wf(m),
    ensures
        voices_wf(poly_first(m, n, offset).0),
        poly_first(m, n, offset).0.playing.len() + poly_first(m, n, offset).0.releasing.len()
            <= m.playing.len() + m.releasing.len(),
        poly_first(m, n, offset).0.seq_idx == m.seq_idx,
        poly_first(m, n, offset).0.num_voices == m.num_voices,
{
    let i = first_index(m.releasing, playing_is(n));
    lemma_first_index_props(m.releasing, playing_is(n));
    if i >= 0 {
        let r = m.releasing[i];
        let m1 = VoicesModel { releasing: m.releasing.remove(i), ..m };
        lemma_vm_remove_releasing(m, i);
        lemma_vm_push_killing(m1, r);
        lemma_remove_insert(voice_multiset(m), r.voice_idx);
    }
}

/// Making room keeps the invariant and, when every allowed voice was busy,
/// takes one note away from those that sound or release.
proof fn lemma_make_room(m: VoicesModel, offset: usize)
    requires
        voices_wf(m),
    ensures
        voices_wf(make_room_step(m, offset).0),
        make_room_step(m, offset).0.seq_idx == m.seq_idx,
        make_room_step(m, offset).0.num_voices == m.num_voices,
        make_room_step(m, offset).0.playing.len() + make_room_step(m, offset).0.releasing.len()
            <= m.playing.len() + m.releasing.len(),
        m.playing.len() + m.releasing.len() >= m.num_voices ==> make_room_step(m, offset).0.playing.len()
            + make_room_step(m, offset).0.releasing.len() + 1 == m.playing.len() + m.releasing.len(),
{
    broadcast use vstd::multiset::group_multiset_axioms;

    if m.playing.len() + m.releasing.len() >= m.num_voices {
        if m.releasing.len() > 0 {
            let r = m.releasing.last();
            let m1 = VoicesModel { releasing: m.releasing.drop_last(), ..m };
            lemma_voices_drop_last(m.releasing);
            lemma_vm_push_killing(m1, r);
            assert(voice_multiset(m1) =~= voice_multiset(m).remove(r.voice_idx));
            lemma_remove_insert(voice_multiset(m), r.voice_idx);
        } else {
            let p = m.playing.last();
            let m1 = VoicesModel { playing: m.playing.drop_last(), waiting: m.waiting.push(p.note), ..m };
            lemma_voices_drop_last(m.playing);
            lemma_vm_push_killing(m1, p);
            assert(voice_multiset(m1) =~= voice_multiset(m).remove(p.voice_idx));
            lemma_remove_insert(voice_multiset(m), p.voice_idx);
        }
    }
}

/// Taking a voice never adds to the notes that sound or release.
proof fn lemma_take_voice_len(m: VoicesModel)
    requires
        voices_wf(m),
    ensures
        take_voice(m).0.playing.len() + take_voice(m).0.releasing.len() <= m.playing.len()
            + m.releasing.len(),
        take_voice(m).0.seq_idx == m.seq_idx,
{
    lemma_some_voice(m);
}

/// With several voices, a note-on never leaves more notes sounding or releasing
/// than the voice count allows, when the count was respected before.
pub proof fn lemma_polyphony_bounded(m: VoicesModel, n: Note, offset: usize)
    requires
        voices_wf(m),
        m.num_voices > 1,
        m.playing.len() + m.releasing.len() <= m.num_voices,
    ensures
        note_on_step(m, n, offset).0.playing.len() + note_on_step(m, n, offset).0.releasing.len()
            <= m.num_voices,
{
    if !(has_note(m.waiting, n) || has_playing(m.playing, n)) {
        let m1 = poly_first(m, n, offset).0;
        lemma_poly_first(m, n, offset);
        let m2 = make_room_step(m1, offset).0;
        lemma_make_room(m1, offset);
        lemma_take_voice_len(m2);
    }
}

/// A key that was not held sounds after its note-on: it is the newest playing
/// note, and it got the next sequence number.
pub proof fn lemma_note_on_plays_fresh_key(m: VoicesModel, n: Note, offset: usize)
    requires
        voices_wf(m),
        !has_note(m.waiting, n),
        !has_playing(m.playing, n),
    ensures
        note_on_step(m, n, offset).0.playing.len() > 0,
        note_on_step(m, n, offset).0.playing[0].note == n,
        note_on_step(m, n, offset).0.playing[0].seq_idx == m.seq_idx,
{
    if m.num_voices == 1 {
        let i = first_index(m.playing, crate::voices_handler::playing_on_channel(n.channel));
        lemma_first_index_props(m.playing, crate::voices_handler::playing_on_channel(n.channel));
        let j = first_index(m.releasing, crate::voices_handler::playing_on_channel(n.channel));
        lemma_first_index_props(m.releasing, crate::voices_handler::playing_on_channel(n.channel));
        if i >= 0 {
            let p = m.playing[i];
            let m1 = VoicesModel { playing: m.playing.remove(i), waiting: m.waiting.push(p.note), ..m };
            if !m.legato {
                let m2 = kill_step(m1, p, offset).0;
                assert(m2.seq_idx == m.seq_idx);
            }
        }
    } else {
        lemma_poly_first(m, n, offset);
        lemma_make_room(poly_first(m, n, offset).0, offset);
    }
}

/// Lifting a playing key, with no other key held and no legato hand-over,
/// moves its note to the front of the releasing queue and releases its voice.
pub proof fn lemma_note_off_releases(m: VoicesModel, n: Note, offset: usize)
    requires
        m.waiting.len() == 0,
        has_playing(m.playing, n),
        !(m.num_voices == 1 && m.legato),
    ensures
        ({
            let i = first_index(m.playing, playing_is(n));
            let p = m.playing[i];
            &&& 0 <= i < m.playing.len()
            &&& note_off_step(m, n, offset) == (
                VoicesModel { playing: m.playing.remove(i), releasing: seq![p] + m.releasing, ..m },
                seq![VoiceEvent::Release { voice_idx: p.voice_idx as usize, velocity: n.velocity, offset }],
            )
        }),
{
    lemma_first_index_props(m.waiting, note_is(n));
    lemma_first_index_props(m.playing, playing_is(n));
    let i = choose|i: int| 0 <= i < m.playing.len() && #[trigger] playing_is(n)(m.playing[i]);
    assert(first_index(m.playing, playing_is(n)) >= 0);
}

/// The voices of the notes that are fading out: releasing, then killing.
pub open spec fn decaying_voices(m: VoicesModel) -> Multiset<VoiceIdx> {
    voices_of(m.releasing).to_multiset().add(voices_of(m.killing).to_multiset())
}

/// The voices a list of decaying voices names.
pub open spec fn voices_named(ds: Seq<DecayingVoice>) -> Seq<VoiceIdx> {
    ds.map_values(|d: DecayingVoice| d.spec_voice_idx())
}

/// A finished decay of a fading voice frees exactly that voice.
proof fn lemma_decay_one_frees(m: VoicesModel, d: DecayingVoice)
    requires
        voices_wf(m),
        !d.spec_still_active(),
        decaying_voices(m).count(d.spec_voice_idx()) > 0,
    ensures
        voices_wf(decay_one(m, d)),
        decaying_voices(decay_one(m, d)) == decaying_voices(m).remove(d.spec_voice_idx()),
{
    broadcast use vstd::multiset::group_multiset_axioms;
    broadcast use vstd::seq_lib::group_to_multiset_ensures;

    let v = d.spec_voice_idx();
    let ri = first_index(m.releasing, uses_voice(v));
    let ki = first_index(m.killing, uses_voice(v));
    lemma_first_index_props(m.releasing, uses_voice(v));
    lemma_first_index_props(m.killing, uses_voice(v));
    if ri >= 0 {
        lemma_vm_remove_releasing(m, ri);
        lemma_voices_remove(m.releasing, ri);
        let m1 = VoicesModel {
            releasing: m.releasing.remove(ri),
            terminate: m.terminate.push(m.releasing[ri].note),
            ..m
        };
        lemma_vm_push_free(m1, v);
        lemma_remove_insert(voice_multiset(m), v);
        assert(decaying_voices(decay_one(m, d)) =~= decaying_voices(m).remove(v));
    } else if ki >= 0 {
        lemma_vm_remove_killing(m, ki);
        lemma_voices_remove(m.killing, ki);
        let k = m.killing[ki];
        let m1 = crate::voices_handler::terminate_killed(VoicesModel { killing: m.killing.remove(ki), ..m }, k.note);
        lemma_vm_push_free(m1, v);
        lemma_remove_insert(voice_multiset(m), v);
        assert(decaying_voices(decay_one(m, d)) =~= decaying_voices(m).remove(v));
    } else {
        if voices_of(m.releasing).to_multiset().count(v) > 0 {
            assert(voices_of(m.releasing).contains(v));
            let i = choose|i: int| 0 <= i < voices_of(m.releasing).len() && voices_of(m.releasing)[i] == v;
            assert(uses_voice(v)(m.releasing[i]));
        } else {
            assert(voices_of(m.killing).to_multiset().count(v) > 0);
            assert(voices_of(m.killing).contains(v));
            let i = choose|i: int| 0 <= i < voices_of(m.killing).len() && voices_of(m.killing)[i] == v;
            assert(uses_voice(v)(m.killing[i]));
        }
    }
}

/// The voices of the entries of `ds` whose decay has finished, in order.
pub open spec fn finished_voices(ds: Seq<DecayingVoice>) -> Seq<VoiceIdx>
    decreases ds.len(),
{
    if ds.len() == 0 {
        Seq::empty()
    } else if ds.last().spec_still_active() {
        finished_voices(ds.drop_last())
    } else {
        finished_voices(ds.drop_last()).push(ds.last().spec_voice_idx())
    }
}

/// A decay pass frees exactly the fading voices whose decay has finished:
/// given entries for fading voices (each named at most as often as it fades,
/// as `get_decaying_voices` hands them out), some of them marked still
/// active, the voices of the finished entries leave the releasing and killing
/// notes and become free; the voices still active keep fading, and the
/// playing notes are untouched.
pub proof fn lemma_decay_frees_finished(m: VoicesModel, ds: Seq<DecayingVoice>)
    requires
        voices_wf(m),
        finished_voices(ds).to_multiset().subset_of(decaying_voices(m)),
    ensures
        voices_wf(decay_all(m, ds)),
        decaying_voices(decay_all(m, ds)) == decaying_voices(m).sub(finished_voices(ds).to_multiset()),
        decay_all(m, ds).playing == m.playing,
        decay_all(m, ds).free_voices.to_multiset() == m.free_voices.to_multiset().add(
            finished_voices(ds).to_multiset(),
        ),
    decreases ds.len(),
{
    broadcast use vstd::multiset::group_multiset_axioms;
    broadcast use vstd::seq_lib::group_to_multiset_ensures;

    if ds.len() == 0 {
        assert(finished_voices(ds) =~= Seq::<VoiceIdx>::empty());
        assert(decaying_voices(m).sub(finished_voices(ds).to_multiset()) =~= decaying_voices(m));
        assert(m.free_voices.to_multiset().add(finished_voices(ds).to_multiset()) =~= m.free_voices.to_multiset());
    } else {
        let pre = ds.drop_last();
        let d = ds.last();
        let v = d.spec_voice_idx();
        if d.spec_still_active() {
            lemma_decay_frees_finished(m, pre);
        } else {
            assert(finished_voices(ds) == finished_voices(pre).push(v));
            assert(finished_voices(pre).to_multiset().subset_of(decaying_voices(m))) by {
                assert forall|x: VoiceIdx|
                    finished_voices(pre).to_multiset().count(x) <= decaying_voices(m).count(x) by {
                    assert(finished_voices(ds).to_multiset().count(x) <= decaying_voices(m).count(x));
                }
            }
            lemma_decay_frees_finished(m, pre);
            let m1 = decay_all(m, pre);
            assert(finished_voices(ds).to_multiset().count(v) <= decaying_voices(m).count(v));
            assert(decaying_voices(m1).count(v) > 0);
            lemma_decay_one_frees(m1, d);
            lemma_decay_one_keeps_playing(m1, d);
            assert(decaying_voices(decay_all(m, ds)) =~= decaying_voices(m).sub(
                finished_voices(ds).to_multiset(),
            ));
            assert(decay_all(m, ds).free_voices.to_multiset() =~= m.free_voices.to_multiset().add(
                finished_voices(ds).to_multiset(),
            ));
        }
    }
}

/// A finished decay leaves the playing notes alone and frees its voice, if
/// that voice was fading.
proof fn lemma_decay_one_keeps_playing(m: VoicesModel, d: DecayingVoice)
    requires
        voices_wf(m),
        !d.spec_still_active(),
        decaying_voices(m).count(d.spec_voice_idx()) > 0,
    ensures
        decay_one(m, d).playing == m.playing,
        decay_one(m, d).free_voices == m.free_voices.push(d.spec_voice_idx()),
{
    broadcast use vstd::multiset::group_multiset_axioms;
    broadcast use vstd::seq_lib::group_to_multiset_ensures;

    let v = d.spec_voice_idx();
    lemma_first_index_props(m.releasing, uses_voice(v));
    lemma_first_index_props(m.killing, uses_voice(v));
    if first_index(m.releasing, uses_voice(v)) < 0 && first_index(m.killing, uses_voice(v)) < 0 {
        if voices_of(m.releasing).to_multiset().count(v) > 0 {
            assert(voices_of(m.releasing).contains(v));
            let i = choose|i: int| 0 <= i < voices_of(m.releasing).len() && voices_of(m.releasing)[i] == v;
            assert(uses_voice(v)(m.releasing[i]));
        } else {
            assert(voices_of(m.killing).contains(v));
            let i = choose|i: int| 0 <= i < voices_of(m.killing).len() && voices_of(m.killing)[i] == v;
            assert(uses_voice(v)(m.killing[i]));
        }
    }
}

/// When every entry is finished, the finished voices are all the voices named.
proof fn lemma_all_finished(ds: Seq<DecayingVoice>)
    requires
        forall|i: int| 0 <= i < ds.len() ==> !(#[trigger] ds[i]).spec_still_active(),
    ensures
        finished_voices(ds) == voices_named(ds),
    decreases ds.len(),
{
    if ds.len() > 0 {
        let pre = ds.drop_last();
        assert forall|i: int| 0 <= i < pre.len() implies !(#[trigger] pre[i]).spec_still_active() by {
            assert(pre[i] == ds[i]);
        }
        lemma_all_finished(pre);
        assert(!ds[ds.len() - 1].spec_still_active());
        assert(voices_named(ds) =~= voices_named(pre).push(ds.last().spec_voice_idx()));
    } else {
        assert(voices_named(ds) =~= Seq::<VoiceIdx>::empty());
    }
}

/// Once every voice handed out for decay (each releasing and killing voice,
/// in any order) reports that it is done, no note is releasing or killing any
/// more, and every voice that no playing note holds is free.
pub proof fn lemma_finished_decay_frees_all(m: VoicesModel, ds: Seq<DecayingVoice>)
    requires
        voices_wf(m),
        forall|i: int| 0 <= i < ds.len() ==> !(#[trigger] ds[i]).spec_still_active(),
        voices_named(ds).to_multiset() == decaying_voices(m),
    ensures
        voices_wf(decay_all(m, ds)),
        decay_all(m, ds).releasing.len() == 0,
        decay_all(m, ds).killing.len() == 0,
        decay_all(m, ds).free_voices.len() + decay_all(m, ds).playing.len() == MAX_VOICES,
{
    broadcast use vstd::multiset::group_multiset_axioms;
    broadcast use vstd::seq_lib::group_to_multiset_ensures;

    lemma_all_finished(ds);
    lemma_decay_frees_finished(m, ds);
    let r = decay_all(m, ds);
    assert(decaying_voices(r) =~= Multiset::<VoiceIdx>::empty());
    if r.releasing.len() > 0 {
        let v = voices_of(r.releasing)[0];
        assert(voices_of(r.releasing).contains(v));
        assert(decaying_voices(r).count(v) > 0);
    }
    if r.killing.len() > 0 {
        let v = voices_of(r.killing)[0];
        assert(voices_of(r.killing).contains(v));
        assert(decaying_voices(r).count(v) > 0);
    }
    lemma_some_voice(r);
}

/// No two notes of `s` are on the same MIDI channel.
pub open spec fn one_per_channel(s: Seq<PlayingNote>) -> bool {
    forall|i: int, j: int| 0 <= i < j < s.len() ==> s[i].note.channel != s[j].note.channel
}

/// No note of `s` is on channel `c`.
pub open spec fn none_on_channel(s: Seq<PlayingNote>, c: u8) -> bool {
    forall|i: int| 0 <= i < s.len() ==> s[i].note.channel != c
}

/// Taking a voice for a new note keeps both properties of the playing notes.
proof fn lemma_take_voice_keeps_channels(m: VoicesModel, c: u8)
    requires
        voices_wf(m),
        one_per_channel(m.playing),
        none_on_channel(m.playing, c),
    ensures
        one_per_channel(take_voice(m).0.playing),
        none_on_channel(take_voice(m).0.playing, c),
{
    lemma_some_voice(m);
}

/// With a single voice, a note-on for a new key leaves at most one note
/// playing on each channel, when that held before: the new note replaces
/// whatever played on its channel.
pub proof fn lemma_mono_one_note_per_channel(m: VoicesModel, n: Note, offset: usize)
    requires
        voices_wf(m),
        m.num_voices == 1,
        one_per_channel(m.playing),
    ensures
        one_per_channel(note_on_step(m, n, offset).0.playing),
{
    if !(has_note(m.waiting, n) || has_playing(m.playing, n)) {
        let c = n.channel;
        let i = first_index(m.playing, crate::voices_handler::playing_on_channel(c));
        lemma_first_index_props(m.playing, crate::voices_handler::playing_on_channel(c));
        let j = first_index(m.releasing, crate::voices_handler::playing_on_channel(c));
        lemma_first_index_props(m.releasing, crate::voices_handler::playing_on_channel(c));
        if i >= 0 {
            let p = m.playing[i];
            let rest = m.playing.remove(i);
            assert(none_on_channel(rest, c)) by {
                assert forall|k: int| 0 <= k < rest.len() implies rest[k].note.channel != c by {
                    if k < i {
                        assert(rest[k] == m.playing[k]);
                    } else {
                        assert(rest[k] == m.playing[k + 1]);
                    }
                }
            }
            assert(one_per_channel(rest)) by {
                assert forall|a: int, b: int| 0 <= a < b < rest.len() implies rest[a].note.channel
                    != rest[b].note.channel by {
                    let a1 = if a < i { a } else { a + 1 };
                    let b1 = if b < i { b } else { b + 1 };
                    assert(rest[a] == m.playing[a1]);
                    assert(rest[b] == m.playing[b1]);
                }
            }
            let m1 = VoicesModel { playing: rest, waiting: m.waiting.push(p.note), ..m };
            if m.legato {
                let r = note_on_step(m, n, offset).0.playing;
                assert(r == seq![PlayingNote { note: n, voice_idx: p.voice_idx, seq_idx: m.seq_idx }] + rest);
                assert forall|a: int, b: int| 0 <= a < b < r.len() implies r[a].note.channel != r[b].note.channel by {
                    if a == 0 {
                        assert(r[b] == rest[b - 1]);
                    } else {
                        assert(r[a] == rest[a - 1]);
                        assert(r[b] == rest[b - 1]);
                    }
                }
            } else {
                let m2 = kill_step(m1, p, offset).0;
                lemma_vm_remove_playing_wf(m, i, p, offset);
                lemma_take_voice_keeps_channels(m2, c);
                let t = take_voice(m2).0.playing;
                let r = note_on_step(m, n, offset).0.playing;
                assert forall|a: int, b: int| 0 <= a < b < r.len() implies r[a].note.channel != r[b].note.channel by {
                    if a == 0 {
                        assert(r[b] == t[b - 1]);
                    } else {
                        assert(r[a] == t[a - 1]);
                        assert(r[b] == t[b - 1]);
                    }
                }
            }
        } else {
            let m2 = if j >= 0 {
                let rr = m.releasing[j];
                lemma_vm_remove_releasing(m, j);
                let m1 = VoicesModel { releasing: m.releasing.remove(j), ..m };
                lemma_vm_push_killing(m1, rr);
                lemma_remove_insert(voice_multiset(m), rr.voice_idx);
                kill_step(m1, rr, offset).0
            } else {
                m
            };
            assert(none_on_channel(m2.playing, c));
            lemma_take_voice_keeps_channels(m2, c);
            let t = take_voice(m2).0.playing;
            let r = note_on_step(m, n, offset).0.playing;
            assert forall|a: int, b: int| 0 <= a < b < r.len() implies r[a].note.channel != r[b].note.channel by {
                if a == 0 {
                    assert(r[b] == t[b - 1]);
                } else {
                    assert(r[a] == t[a - 1]);
                    assert(r[b] == t[b - 1]);
                }
            }
        }
    }
}

/// Moving the playing note at `i` to the killing queue (its key waiting again) keeps the invariant.
proof fn lemma_vm_remove_playing_wf(m: VoicesModel, i: int, p: PlayingNote, offset: usize)
    requires
        voices_wf(m),
        0 <= i < m.playing.len(),
        p == m.playing[i],
    ensures
        voices_wf(
            kill_step(VoicesModel { playing: m.playing.remove(i), waiting: m.waiting.push(p.note), ..m }, p, offset).0,
        ),
{
    let m1 = VoicesModel { playing: m.playing.remove(i), waiting: m.waiting.push(p.note), ..m };
    crate::voices_handler::lemma_vm_remove_playing(m, i);
    lemma_vm_push_killing(m1, p);
    lemma_remove_insert(voice_multiset(m), p.voice_idx);
}

/// `e` (re)starts voice `v`.
pub open spec fn restarts(e: VoiceEvent, v: int) -> bool {
    e matches VoiceEvent::Reset { voice_idx, .. } && voice_idx == v
}

/// Some event of `events` (re)starts voice `v`.
pub open spec fn restarted(events: Seq<VoiceEvent>, v: int) -> bool {
    exists|k: int| 0 <= k < events.len() && #[trigger] restarts(events[k], v)
}

proof fn lemma_restarted_concat(a: Seq<VoiceEvent>, b: Seq<VoiceEvent>, v: int)
    ensures
        restarted(a + b, v) == (restarted(a, v) || restarted(b, v)),
{
    if restarted(a + b, v) {
        let k = choose|k: int| 0 <= k < (a + b).len() && #[trigger] restarts((a + b)[k], v);
        if k < a.len() {
            assert(restarts(a[k], v));
        } else {
            assert(restarts(b[k - a.len()], v));
        }
    }
    if restarted(a, v) {
        let k = choose|k: int| 0 <= k < a.len() && #[trigger] restarts(a[k], v);
        assert(restarts((a + b)[k], v));
    }
    if restarted(b, v) {
        let k = choose|k: int| 0 <= k < b.len() && #[trigger] restarts(b[k], v);
        assert(restarts((a + b)[a.len() + k], v));
    }
}

/// Triggers of `m2` are those of `m`, with the offset set for each voice that
/// `events` (re)starts.
pub open spec fn triggers_after(m: VoicesModel, m2: VoicesModel, events: Seq<VoiceEvent>, offset: usize) -> bool {
    &&& m2.triggers.len() == m.triggers.len()
    &&& forall|v: int|
        0 <= v < m.triggers.len() ==> #[trigger] m2.triggers[v] == if restarted(events, v) {
            Some(offset as u16)
        } else {
            m.triggers[v]
        }
}

proof fn lemma_grab_triggers(m: VoicesModel, prev: Option<VoiceIdx>, n: Note, offset: usize)
    requires
        voices_wf(m),
    ensures
        triggers_after(m, grab_step(m, prev, n, offset).0, grab_step(m, prev, n, offset).1, offset),
{
    let (m1, v) = take_voice(m);
    lemma_take_voice_in_range(m);
    let ev = grab_step(m, prev, n, offset).1;
    assert forall|w: int| 0 <= w < m.triggers.len() implies restarted(ev, w) == (w == v as int) by {
        if w == v as int {
            assert(restarts(ev[0], w));
        }
    }
}

proof fn lemma_take_voice_in_range(m: VoicesModel)
    requires
        voices_wf(m),
    ensures
        take_voice(m).0.triggers == m.triggers,
        (take_voice(m).1 as usize) < MAX_VOICES,
{
    broadcast use vstd::multiset::group_multiset_axioms;
    broadcast use vstd::seq_lib::group_to_multiset_ensures;

    lemma_some_voice(m);
    lemma_owned_voices_in_range(m);
    if m.free_voices.len() > 0 {
        let v = m.free_voices.last();
        assert(m.free_voices.contains(v));
        assert(m.free_voices.to_multiset().count(v) > 0);
        assert(voice_multiset(m).count(v) > 0);
        assert(all_voices().count(v) > 0);
        let s = Seq::new(MAX_VOICES as nat, |i: int| i as VoiceIdx);
        assert(s.contains(v));
        let k = choose|k: int| 0 <= k < s.len() && s[k] == v;
        assert(s[k] == k as VoiceIdx);
    } else if m.killing.len() > 0 {
        assert(m.killing[m.killing.len() - 1] == m.killing.last());
    } else if m.releasing.len() > 0 {
        assert(m.releasing[m.releasing.len() - 1] == m.releasing.last());
    } else {
        assert(m.playing[m.playing.len() - 1] == m.playing.last());
    }
}

/// A note-on sets the trigger offset of the voice it (re)starts, if any, to
/// its offset, and leaves every other voice's trigger as it was.
pub proof fn lemma_note_on_sets_trigger(m: VoicesModel, n: Note, offset: usize)
    requires
        voices_wf(m),
    ensures
        triggers_after(m, note_on_step(m, n, offset).0, note_on_step(m, n, offset).1, offset),
{
    if has_note(m.waiting, n) || has_playing(m.playing, n) {
        assert forall|v: int| 0 <= v < m.triggers.len() implies !restarted(Seq::<VoiceEvent>::empty(), v) by {}
    } else if m.num_voices == 1 {
        lemma_mono_triggers(m, n, offset);
    } else {
        lemma_poly_triggers(m, n, offset);
    }
}

/// A kill step restarts no voice and leaves the triggers alone.
proof fn lemma_kill_triggers(m: VoicesModel, p: PlayingNote, offset: usize)
    ensures
        kill_step(m, p, offset).0.triggers == m.triggers,
        forall|v: int| !#[trigger] restarted(kill_step(m, p, offset).1, v),
{
    assert forall|v: int| !#[trigger] restarted(kill_step(m, p, offset).1, v) by {
        let ev = kill_step(m, p, offset).1;
        if restarted(ev, v) {
            let k = choose|k: int| 0 <= k < ev.len() && #[trigger] restarts(ev[k], v);
            assert(k == 0);
        }
    }
}

proof fn lemma_mono_triggers(m: VoicesModel, n: Note, offset: usize)
    requires
        voices_wf(m),
        m.num_voices == 1,
    ensures
        triggers_after(m, mono_step(m, n, offset).0, mono_step(m, n, offset).1, offset),
{
    let i = first_index(m.playing, playing_on_channel(n.channel));
    lemma_first_index_props(m.playing, playing_on_channel(n.channel));
    if i >= 0 {
        let p = m.playing[i];
        let m1 = VoicesModel { playing: m.playing.remove(i), waiting: m.waiting.push(p.note), ..m };
        if m.legato {
            let ev = legato_step(m1, p.voice_idx, n, offset).1;
            assert forall|v: int| !#[trigger] restarted(ev, v) by {
                if restarted(ev, v) {
                    let k = choose|k: int| 0 <= k < ev.len() && #[trigger] restarts(ev[k], v);
                    assert(k == 0);
                }
            }
        } else {
            let (m2, e1) = kill_step(m1, p, offset);
            lemma_kill_triggers(m1, p, offset);
            lemma_vm_remove_playing_wf(m, i, p, offset);
            lemma_grab_triggers(m2, Some(p.voice_idx), n, offset);
            let (m3, e2) = grab_step(m2, Some(p.voice_idx), n, offset);
            assert forall|v: int| 0 <= v < m.triggers.len() implies restarted(e1 + e2, v) == restarted(e2, v) by {
                lemma_restarted_concat(e1, e2, v);
            }
        }
    } else {
        let j = first_index(m.releasing, playing_on_channel(n.channel));
        lemma_first_index_props(m.releasing, playing_on_channel(n.channel));
        if j >= 0 {
            let r = m.releasing[j];
            let m1 = VoicesModel { releasing: m.releasing.remove(j), ..m };
            let (m2, e1) = kill_step(m1, r, offset);
            lemma_kill_triggers(m1, r, offset);
            lemma_vm_remove_releasing(m, j);
            lemma_vm_push_killing(m1, r);
            lemma_remove_insert(voice_multiset(m), r.voice_idx);
            lemma_grab_triggers(m2, Some(r.voice_idx), n, offset);
            let (m3, e2) = grab_step(m2, Some(r.voice_idx), n, offset);
            assert forall|v: int| 0 <= v < m.triggers.len() implies restarted(e1 + e2, v) == restarted(e2, v) by {
                lemma_restarted_concat(e1, e2, v);
            }
        } else {
            lemma_grab_triggers(m, None, n, offset);
        }
    }
}

proof fn lemma_poly_triggers(m: VoicesModel, n: Note, offset: usize)
    requires
        voices_wf(m),
    ensures
        triggers_after(m, poly_step(m, n, offset).0, poly_step(m, n, offset).1, offset),
{
    let (m1, e1, prev) = poly_first(m, n, offset);
    lemma_poly_first(m, n, offset);
    let i = first_index(m.releasing, playing_is(n));
    if i >= 0 {
        let r = m.releasing[i];
        lemma_kill_triggers(VoicesModel { releasing: m.releasing.remove(i), ..m }, r, offset);
    } else {
        assert forall|v: int| !#[trigger] restarted(e1, v) by {}
    }
    let (m2, e2) = make_room_step(m1, offset);
    lemma_make_room(m1, offset);
    if m1.playing.len() + m1.releasing.len() >= m1.num_voices {
        if m1.releasing.len() > 0 {
            lemma_kill_triggers(VoicesModel { releasing: m1.releasing.drop_last(), ..m1 }, m1.releasing.last(), offset);
        } else if m1.playing.len() > 0 {
            let p = m1.playing.last();
            lemma_kill_triggers(VoicesModel { playing: m1.playing.drop_last(), waiting: m1.waiting.push(p.note), ..m1 }, p, offset);
        } else {
            assert forall|v: int| !#[trigger] restarted(e2, v) by {}
        }
    } else {
        assert forall|v: int| !#[trigger] restarted(e2, v) by {}
    }
    lemma_grab_triggers(m2, prev, n, offset);
    let (m3, e3) = grab_step(m2, prev, n, offset);
    assert forall|v: int| 0 <= v < m.triggers.len() implies restarted(e1 + e2 + e3, v) == restarted(e3, v) by {
        lemma_restarted_concat(e1, e2, v);
        lemma_restarted_concat(e1 + e2, e3, v);
    }
}

/// Right after `reset_triggers`, a note-on leaves a voice with a trigger
/// offset exactly when it (re)started that voice, and the offset is the
/// note-on's.
pub proof fn lemma_trigger_marks_restart_since_reset(m: VoicesModel, n: Note, offset: usize)
    requires
        voices_wf(m),
        m.triggers == crate::voices_handler::no_triggers(),
    ensures
        forall|v: int|
            0 <= v < MAX_VOICES ==> #[trigger] note_on_step(m, n, offset).0.triggers[v] == if restarted(
                note_on_step(m, n, offset).1,
                v,
            ) {
                Some(offset as u16)
            } else {
                None::<u16>
            },
{
    lemma_note_on_sets_trigger(m, n, offset);
}

/// A note-off sets trigger offsets only where the note-on it passes to a
/// waiting key (re)starts a voice.
pub proof fn lemma_note_off_sets_trigger(m: VoicesModel, n: Note, offset: usize)
    requires
        voices_wf(m),
    ensures
        triggers_after(m, note_off_step(m, n, offset).0, note_off_step(m, n, offset).1, offset),
{
    broadcast use vstd::multiset::group_multiset_axioms;

    let wi = first_index(m.waiting, note_is(n));
    if wi >= 0 {
        assert forall|v: int| !#[trigger] restarted(Seq::<VoiceEvent>::empty(), v) by {}
    } else {
        let pi = first_index(m.playing, playing_is(n));
        lemma_first_index_props(m.playing, playing_is(n));
        if pi < 0 {
            assert forall|v: int| !#[trigger] restarted(Seq::<VoiceEvent>::empty(), v) by {}
        } else {
            let p = m.playing[pi];
            let m1 = VoicesModel { playing: m.playing.remove(pi), ..m };
            let wj = last_index(m.waiting, note_on_channel(n.channel));
            if m.num_voices == 1 && m.legato && wj >= 0 {
                let ev = note_off_step(m, n, offset).1;
                assert forall|v: int| !#[trigger] restarted(ev, v) by {
                    if restarted(ev, v) {
                        let k = choose|k: int| 0 <= k < ev.len() && #[trigger] restarts(ev[k], v);
                        assert(k == 0);
                    }
                }
            } else {
                let m2 = VoicesModel { releasing: seq![p] + m1.releasing, ..m1 };
                let e1 = seq![
                    VoiceEvent::Release { voice_idx: p.voice_idx as usize, velocity: n.velocity, offset },
                ];
                assert forall|v: int| !#[trigger] restarted(e1, v) by {
                    if restarted(e1, v) {
                        let k = choose|k: int| 0 <= k < e1.len() && #[trigger] restarts(e1[k], v);
                        assert(k == 0);
                    }
                }
                if m2.waiting.len() > 0 {
                    let m3 = VoicesModel { waiting: m2.waiting.drop_last(), ..m2 };
                    crate::voices_handler::lemma_vm_remove_playing(m, pi);
                    crate::voices_handler::lemma_vm_push_releasing(m1, p);
                    lemma_remove_insert(voice_multiset(m), p.voice_idx);
                    assert(voice_multiset(m3) == voice_multiset(m2));
                    lemma_note_on_sets_trigger(m3, m2.waiting.last(), offset);
                    let e2 = note_on_step(m3, m2.waiting.last(), offset).1;
                    assert forall|v: int| 0 <= v < m.triggers.len() implies restarted(e1 + e2, v) == restarted(e2, v) by {
                        lemma_restarted_concat(e1, e2, v);
                    }
                }
            }
        }
    }
}

/// Chokes and finished decays restart no voice: they leave every trigger
/// offset as it was.
pub proof fn lemma_chokes_and_decays_keep_triggers(m: VoicesModel, n: Note, ds: Seq<DecayingVoice>)
    ensures
        choke_step(m, n).triggers == m.triggers,
        choke_all_step(m).triggers == m.triggers,
        decay_all(m, ds).triggers == m.triggers,
    decreases ds.len(),
{
    if ds.len() > 0 {
        lemma_chokes_and_decays_keep_triggers(m, n, ds.drop_last());
    }
}

/// Once the ended notes have been handed out, a pass with no decaying voices
/// changes nothing and hands out nothing more.
pub proof fn lemma_decay_nothing_is_idle(m: VoicesModel)
    requires
        m.terminate.len() == 0,
    ensures
        decay_all(m, Seq::empty()) == m,
        decay_all(m, Seq::empty()).terminate.len() == 0,
{
}


/// Under the invariant no two fading notes share a voice.
proof fn lemma_fading_voices_distinct(m: VoicesModel)
    requires
        voices_wf(m),
    ensures
        forall|j: int, k: int|
            0 <= j < m.releasing.len() && 0 <= k < m.releasing.len() && j != k ==> (#[trigger] m.releasing[j]).voice_idx
                != (#[trigger] m.releasing[k]).voice_idx,
        forall|j: int, k: int|
            0 <= j < m.killing.len() && 0 <= k < m.killing.len() && j != k ==> (#[trigger] m.killing[j]).voice_idx
                != (#[trigger] m.killing[k]).voice_idx,
        forall|j: int, k: int|
            0 <= j < m.releasing.len() && 0 <= k < m.killing.len() ==> (#[trigger] m.releasing[j]).voice_idx
                != (#[trigger] m.killing[k]).voice_idx,
{
    lemma_voices_never_shared(m);
    let h = held_voices(m);
    let r0 = m.free_voices.len() + m.playing.len();
    let k0 = r0 + m.releasing.len();
    assert forall|j: int| 0 <= j < m.releasing.len() implies h[r0 + j] == (#[trigger] m.releasing[j]).voice_idx by {}
    assert forall|j: int| 0 <= j < m.killing.len() implies h[k0 + j] == (#[trigger] m.killing[j]).voice_idx by {}
    assert forall|j: int, k: int|
        0 <= j < m.releasing.len() && 0 <= k < m.releasing.len() && j != k implies (#[trigger] m.releasing[j]).voice_idx
            != (#[trigger] m.releasing[k]).voice_idx by {
        assert(h[r0 + j] != h[r0 + k]);
    }
    assert forall|j: int, k: int|
        0 <= j < m.killing.len() && 0 <= k < m.killing.len() && j != k implies (#[trigger] m.killing[j]).voice_idx
            != (#[trigger] m.killing[k]).voice_idx by {
        assert(h[k0 + j] != h[k0 + k]);
    }
    assert forall|j: int, k: int|
        0 <= j < m.releasing.len() && 0 <= k < m.killing.len() implies (#[trigger] m.releasing[j]).voice_idx
            != (#[trigger] m.killing[k]).voice_idx by {
        assert(h[r0 + j] != h[k0 + k]);
    }
}

/// When the decay of a releasing note's voice finishes, that very note ends:
/// it leaves the releasing queue, its note is the one reported as ended, and
/// its voice becomes free. When the voice belongs to a killing note, that note
/// leaves the killing queue and is reported ended unless its key is still
/// held (waiting for a voice).
pub proof fn lemma_finished_decay_ends_its_note(m: VoicesModel, d: DecayingVoice, i: int)
    requires
        voices_wf(m),
        !d.spec_still_active(),
    ensures
        0 <= i < m.releasing.len() && m.releasing[i].voice_idx == d.spec_voice_idx() ==> {
            &&& decay_one(m, d).releasing == m.releasing.remove(i)
            &&& decay_one(m, d).terminate == m.terminate.push(m.releasing[i].note)
            &&& decay_one(m, d).free_voices == m.free_voices.push(d.spec_voice_idx())
            &&& decay_one(m, d).playing == m.playing
            &&& decay_one(m, d).killing == m.killing
        },
        0 <= i < m.killing.len() && m.killing[i].voice_idx == d.spec_voice_idx() ==> {
            &&& decay_one(m, d).killing == m.killing.remove(i)
            &&& decay_one(m, d).terminate == if has_note(m.waiting, m.killing[i].note) {
                m.terminate
            } else {
                m.terminate.push(m.killing[i].note)
            }
            &&& decay_one(m, d).free_voices == m.free_voices.push(d.spec_voice_idx())
            &&& decay_one(m, d).playing == m.playing
            &&& decay_one(m, d).releasing == m.releasing
        },
{
    let v = d.spec_voice_idx();
    lemma_fading_voices_distinct(m);
    lemma_first_index_props(m.releasing, uses_voice(v));
    lemma_first_index_props(m.killing, uses_voice(v));
    let ri = first_index(m.releasing, uses_voice(v));
    let ki = first_index(m.killing, uses_voice(v));
    if 0 <= i < m.releasing.len() && m.releasing[i].voice_idx == v {
        assert(uses_voice(v)(m.releasing[i]));
        if ri != i {
            assert(ri >= 0);
            assert(m.releasing[ri].voice_idx != m.releasing[i].voice_idx);
        }
    }
    if 0 <= i < m.killing.len() && m.killing[i].voice_idx == v {
        assert(uses_voice(v)(m.killing[i]));
        if ri >= 0 {
            assert(m.releasing[ri].voice_idx != m.killing[i].voice_idx);
        }
        if ki != i {
            assert(ki >= 0);
            assert(m.killing[ki].voice_idx != m.killing[i].voice_idx);
        }
    }
}

/// Choking a key stops the note of that key that is still playing, if there
/// is one: exactly one playing note of the key goes, its voice becomes free,
/// and the releasing and killing notes are untouched. With no playing note of
/// the key, a releasing one goes instead; with neither, a killing one. The key
/// is reported ended.
pub proof fn lemma_choke_stops_the_sounding_note(m: VoicesModel, n: Note)
    ensures
        has_playing(m.playing, n) ==> exists|i: int|
            0 <= i < m.playing.len() && same_key(#[trigger] m.playing[i].note, n) && {
                &&& choke_step(m, n).playing == m.playing.remove(i)
                &&& choke_step(m, n).free_voices == m.free_voices.push(m.playing[i].voice_idx)
                &&& choke_step(m, n).releasing == m.releasing
                &&& choke_step(m, n).killing == m.killing
            },
        !has_playing(m.playing, n) && has_playing(m.releasing, n) ==> exists|i: int|
            0 <= i < m.releasing.len() && same_key(#[trigger] m.releasing[i].note, n) && {
                &&& choke_step(m, n).releasing == m.releasing.remove(i)
                &&& choke_step(m, n).free_voices == m.free_voices.push(m.releasing[i].voice_idx)
                &&& choke_step(m, n).playing == m.playing
                &&& choke_step(m, n).killing == m.killing
            },
        !has_playing(m.playing, n) && !has_playing(m.releasing, n) && has_playing(m.killing, n) ==> exists|i: int|
            0 <= i < m.killing.len() && same_key(#[trigger] m.killing[i].note, n) && {
                &&& choke_step(m, n).killing == m.killing.remove(i)
                &&& choke_step(m, n).free_voices == m.free_voices.push(m.killing[i].voice_idx)
                &&& choke_step(m, n).playing == m.playing
                &&& choke_step(m, n).releasing == m.releasing
            },
        has_playing(m.playing, n) || has_playing(m.releasing, n) || has_playing(m.killing, n) || has_note(
            m.waiting,
            n,
        ) ==> choke_step(m, n).terminate == m.terminate.push(n),
{
    lemma_first_index_props(m.playing, playing_is(n));
    lemma_first_index_props(m.releasing, playing_is(n));
    lemma_first_index_props(m.killing, playing_is(n));
    let pi = first_index(m.playing, playing_is(n));
    let ri = first_index(m.releasing, playing_is(n));
    let ki = first_index(m.killing, playing_is(n));
    if has_playing(m.playing, n) {
        let j = choose|j: int| 0 <= j < m.playing.len() && #[trigger] playing_is(n)(m.playing[j]);
        assert(pi >= 0);
        assert(playing_is(n)(m.playing[pi]));
    } else if has_playing(m.releasing, n) {
        let j = choose|j: int| 0 <= j < m.releasing.len() && #[trigger] playing_is(n)(m.releasing[j]);
        assert(pi < 0);
        assert(ri >= 0);
        assert(playing_is(n)(m.releasing[ri]));
    } else if has_playing(m.killing, n) {
        let j = choose|j: int| 0 <= j < m.killing.len() && #[trigger] playing_is(n)(m.killing[j]);
        assert(ki >= 0);
        assert(playing_is(n)(m.killing[ki]));
    }
    if has_note(m.waiting, n) {
        let m1 = if pi >= 0 {
            VoicesModel { playing: m.playing.remove(pi), free_voices: m.free_voices.push(m.playing[pi].voice_idx), ..m }
        } else if ri >= 0 {
            VoicesModel { releasing: m.releasing.remove(ri), free_voices: m.free_voices.push(m.releasing[ri].voice_idx), ..m }
        } else if ki >= 0 {
            VoicesModel { killing: m.killing.remove(ki), free_voices: m.free_voices.push(m.killing[ki].voice_idx), ..m }
        } else {
            m
        };
        assert(m1.waiting == m.waiting);
        lemma_first_index_props(m.waiting, note_is(n));
        let j = choose|j: int| 0 <= j < m.waiting.len() && #[trigger] note_is(n)(m.waiting[j]);
        assert(first_index(m.waiting, note_is(n)) >= 0);
    }
}

/// Choking every note reports each note that was playing, releasing or held
/// without a voice as ended, and each killing note whose key is not held any
/// more; what was reported before stays first.
pub proof fn lemma_choke_all_reports_every_note(m: VoicesModel)
    ensures
        choke_all_step(m).terminate.len() >= m.terminate.len() + m.playing.len() + m.releasing.len() + m.waiting.len(),
        choke_all_step(m).terminate.subrange(0, m.terminate.len() as int) == m.terminate,
        forall|i: int| 0 <= i < m.playing.len() ==> choke_all_step(m).terminate.contains(#[trigger] m.playing[i].note),
        forall|i: int| 0 <= i < m.releasing.len() ==> choke_all_step(m).terminate.contains(#[trigger] m.releasing[i].note),
        forall|i: int| 0 <= i < m.waiting.len() ==> choke_all_step(m).terminate.contains(#[trigger] m.waiting[i]),
        forall|i: int|
            0 <= i < m.killing.len() && !has_note(m.waiting, m.killing[i].note) ==> choke_all_step(m).terminate.contains(
                #[trigger] m.killing[i].note,
            ),
{
    let t = choke_all_step(m).terminate;
    let kf = crate::voices_handler::killed_for_good(m.killing, m.waiting);
    let a = m.terminate.len() as int;
    let b = a + m.playing.len();
    let c = b + m.releasing.len();
    let e = c + kf.len();
    assert(t.len() == e + m.waiting.len());
    assert forall|i: int| 0 <= i < m.playing.len() implies t.contains(#[trigger] m.playing[i].note) by {
        assert(t[a + i] == m.playing[i].note);
    }
    assert forall|i: int| 0 <= i < m.releasing.len() implies t.contains(#[trigger] m.releasing[i].note) by {
        assert(t[b + i] == m.releasing[i].note);
    }
    assert forall|i: int| 0 <= i < m.waiting.len() implies t.contains(#[trigger] m.waiting[i]) by {
        assert(t[e + i] == m.waiting[i]);
    }
    assert forall|i: int|
        0 <= i < m.killing.len() && !has_note(m.waiting, m.killing[i].note) implies t.contains(
            #[trigger] m.killing[i].note,
        ) by {
        let pred = crate::voices_handler::not_held(m.waiting);
        assert(pred(m.killing[i]));
        m.killing.lemma_filter_contains(pred, i);
        let j = choose|j: int| 0 <= j < kf.len() && kf[j] == m.killing[i];
        assert(t[c + j] == m.killing[i].note);
    }
    assert(t.subrange(0, a) =~= m.terminate);
}

/// When a new key needs a voice and every allowed voice is busy with a
/// playing or releasing note, the room is made by killing the note that was
/// released earliest (the last of the releasing queue, which takes new
/// releases at its front): its voice is the one killed, and the other
/// releasing notes keep releasing.
pub proof fn lemma_room_made_by_killing_oldest_release(m: VoicesModel, n: Note, offset: usize)
    requires
        voices_wf(m),
        m.num_voices > 1,
        !has_note(m.waiting, n),
        !has_playing(m.playing, n),
        !has_playing(m.releasing, n),
        m.playing.len() + m.releasing.len() >= m.num_voices,
        m.releasing.len() > 0,
    ensures
        note_on_step(m, n, offset).1.len() > 0,
        note_on_step(m, n, offset).1[0] == (VoiceEvent::Kill {
            voice_idx: m.releasing[m.releasing.len() - 1].voice_idx as usize,
            offset,
        }),
        note_on_step(m, n, offset).0.releasing == m.releasing.subrange(0, m.releasing.len() - 1),
{
    lemma_first_index_props(m.releasing, playing_is(n));
    assert(first_index(m.releasing, playing_is(n)) < 0) by {
        if first_index(m.releasing, playing_is(n)) >= 0 {
            let i = first_index(m.releasing, playing_is(n));
            assert(playing_is(n)(m.releasing[i]));
        }
    }
    let (m1, e1, prev) = poly_first(m, n, offset);
    assert(m1 == m && e1.len() == 0 && prev is None);
    let r = m.releasing.last();
    let m2 = make_room_step(m, offset).0;
    let e2 = make_room_step(m, offset).1;
    assert(m2.killing.len() > 0);
    assert(m2.releasing =~= m.releasing.subrange(0, m.releasing.len() - 1));
    let e3 = grab_step(m2, prev, n, offset).1;
    assert((e1 + e2 + e3)[0] == e2[0]);
}

/// Lifting a playing key while other keys are held without a voice (and no
/// legato hand-over) gives a voice back to the key held last: it becomes the
/// newest playing note.
pub proof fn lemma_note_off_resumes_newest_held(m: VoicesModel, n: Note, offset: usize)
    requires
        voices_wf(m),
        !has_note(m.waiting, n),
        has_playing(m.playing, n),
        !(m.num_voices == 1 && m.legato),
        m.waiting.len() > 0,
        !has_playing(m.playing, m.waiting[m.waiting.len() - 1]),
        !has_note(m.waiting.subrange(0, m.waiting.len() - 1), m.waiting[m.waiting.len() - 1]),
    ensures
        note_off_step(m, n, offset).0.playing.len() > 0,
        note_off_step(m, n, offset).0.playing[0].note == m.waiting[m.waiting.len() - 1],
{
    broadcast use vstd::multiset::group_multiset_axioms;

    lemma_first_index_props(m.waiting, note_is(n));
    lemma_first_index_props(m.playing, playing_is(n));
    let pi = first_index(m.playing, playing_is(n));
    let j = choose|j: int| 0 <= j < m.playing.len() && #[trigger] playing_is(n)(m.playing[j]);
    assert(pi >= 0);
    let p = m.playing[pi];
    let m1 = VoicesModel { playing: m.playing.remove(pi), ..m };
    let m2 = VoicesModel { releasing: seq![p] + m1.releasing, ..m1 };
    let w = m2.waiting.last();
    let m3 = VoicesModel { waiting: m2.waiting.drop_last(), ..m2 };
    crate::voices_handler::lemma_vm_remove_playing(m, pi);
    crate::voices_handler::lemma_vm_push_releasing(m1, p);
    lemma_remove_insert(voice_multiset(m), p.voice_idx);
    assert(voice_multiset(m3) == voice_multiset(m2));
    assert(m3.waiting =~= m.waiting.subrange(0, m.waiting.len() - 1));
    assert(!has_playing(m3.playing, w)) by {
        if has_playing(m3.playing, w) {
            let k = choose|k: int| 0 <= k < m3.playing.len() && #[trigger] playing_is(w)(m3.playing[k]);
            if k < pi {
                assert(playing_is(w)(m.playing[k]));
            } else {
                assert(playing_is(w)(m.playing[k + 1]));
            }
        }
    }
    lemma_note_on_plays_fresh_key(m3, w, offset);
}

/// When a new key needs a voice, every allowed voice is busy and nothing is
/// releasing, the oldest playing note (the last of the playing queue) is
/// killed to make room, and its key goes back to the keys held without a
/// voice.
pub proof fn lemma_room_made_by_killing_oldest_playing(m: VoicesModel, n: Note, offset: usize)
    requires
        voices_wf(m),
        m.num_voices > 1,
        !has_note(m.waiting, n),
        !has_playing(m.playing, n),
        m.releasing.len() == 0,
        m.playing.len() >= m.num_voices,
    ensures
        note_on_step(m, n, offset).1.len() > 0,
        note_on_step(m, n, offset).1[0] == (VoiceEvent::Kill {
            voice_idx: m.playing[m.playing.len() - 1].voice_idx as usize,
            offset,
        }),
        note_on_step(m, n, offset).0.waiting == m.waiting.push(m.playing[m.playing.len() - 1].note),
        note_on_step(m, n, offset).0.playing.subrange(1, m.playing.len() as int) == m.playing.subrange(
            0,
            m.playing.len() - 1,
        ),
{
    lemma_first_index_props(m.releasing, playing_is(n));
    let (m1, e1, prev) = poly_first(m, n, offset);
    assert(m1 == m && e1.len() == 0 && prev is None);
    let m2 = make_room_step(m, offset).0;
    let e2 = make_room_step(m, offset).1;
    assert(m2.killing.len() > 0);
    let e3 = grab_step(m2, prev, n, offset).1;
    assert((e1 + e2 + e3)[0] == e2[0]);
    let r = note_on_step(m, n, offset).0;
    assert(r.playing.subrange(1, m.playing.len() as int) =~= m.playing.subrange(0, m.playing.len() - 1));
}

/// Lifting a key that is held without a voice forgets that key and causes no
/// event; its note is reported ended unless a killed note of the key is still
/// fading (it is reported when that decay ends).
pub proof fn lemma_note_off_of_waiting_key(m: VoicesModel, n: Note, offset: usize, i: int)
    requires
        0 <= i < m.waiting.len(),
        same_key(m.waiting[i], n),
        forall|j: int| 0 <= j < m.waiting.len() && j != i ==> !same_key(#[trigger] m.waiting[j], n),
    ensures
        note_off_step(m, n, offset).1.len() == 0,
        note_off_step(m, n, offset).0.waiting == m.waiting.remove(i),
        note_off_step(m, n, offset).0.terminate == if has_playing(m.killing, m.waiting[i]) {
            m.terminate
        } else {
            m.terminate.push(m.waiting[i])
        },
        note_off_step(m, n, offset).0.playing == m.playing,
        note_off_step(m, n, offset).0.releasing == m.releasing,
        note_off_step(m, n, offset).0.killing == m.killing,
        note_off_step(m, n, offset).0.free_voices == m.free_voices,
{
    lemma_first_index_props(m.waiting, note_is(n));
    assert(note_is(n)(m.waiting[i]));
    let wi = first_index(m.waiting, note_is(n));
    if wi != i {
        assert(note_is(n)(m.waiting[wi]));
    }
}

/// With one voice and legato, lifting the sounding key while keys of its
/// channel are held without a voice hands the voice, without restarting it,
/// to the key of that channel held last; the lifted note is reported ended.
pub proof fn lemma_legato_note_off_hands_voice_to_newest_held(m: VoicesModel, n: Note, offset: usize, p: int, j: int)
    requires
        m.num_voices == 1,
        m.legato,
        !has_note(m.waiting, n),
        0 <= p < m.playing.len(),
        same_key(m.playing[p].note, n),
        forall|k: int| 0 <= k < p ==> !same_key(#[trigger] m.playing[k].note, n),
        0 <= j < m.waiting.len(),
        m.waiting[j].channel == n.channel,
        forall|k: int| j < k < m.waiting.len() ==> (#[trigger] m.waiting[k]).channel != n.channel,
    ensures
        note_off_step(m, n, offset).1 == seq![
            VoiceEvent::Update {
                voice_idx: m.playing[p].voice_idx as usize,
                note: m.waiting[j].note,
                velocity: m.waiting[j].velocity,
                offset,
            },
        ],
        note_off_step(m, n, offset).0.playing[0].note == m.waiting[j],
        note_off_step(m, n, offset).0.playing[0].voice_idx == m.playing[p].voice_idx,
        note_off_step(m, n, offset).0.waiting == m.waiting.remove(j),
        note_off_step(m, n, offset).0.terminate == m.terminate.push(m.playing[p].note),
{
    lemma_first_index_props(m.waiting, note_is(n));
    lemma_first_index_props(m.playing, playing_is(n));
    crate::seq_search::lemma_last_index_props(m.waiting, note_on_channel(n.channel));
    assert(playing_is(n)(m.playing[p]));
    let pi = first_index(m.playing, playing_is(n));
    if pi != p {
        assert(playing_is(n)(m.playing[pi]));
    }
    assert(note_on_channel(n.channel)(m.waiting[j]));
    let wj = last_index(m.waiting, note_on_channel(n.channel));
    if wj != j {
        assert(note_on_channel(n.channel)(m.waiting[wj]));
    }
}

/// With one voice, a new key replaces the note sounding on its channel (the
/// first of the playing queue on that channel), whose key is then held
/// without a voice. Without legato the replaced note is killed and the new
/// note starts on a voice, naming the replaced voice; with legato the new note
/// takes over the replaced voice without restarting it.
pub proof fn lemma_mono_note_on_replaces_channel_note(m: VoicesModel, n: Note, offset: usize, i: int)
    requires
        voices_wf(m),
        m.num_voices == 1,
        !has_note(m.waiting, n),
        !has_playing(m.playing, n),
        0 <= i < m.playing.len(),
        m.playing[i].note.channel == n.channel,
        forall|k: int| 0 <= k < i ==> (#[trigger] m.playing[k]).note.channel != n.channel,
    ensures
        note_on_step(m, n, offset).0.waiting == m.waiting.push(m.playing[i].note),
        !m.legato ==> {
            &&& note_on_step(m, n, offset).1.len() == 2
            &&& note_on_step(m, n, offset).1[0] == (VoiceEvent::Kill {
                voice_idx: m.playing[i].voice_idx as usize,
                offset,
            })
            &&& note_on_step(m, n, offset).1[1] matches VoiceEvent::Reset { prev_voice_idx, note, .. }
                && prev_voice_idx == Some(m.playing[i].voice_idx as usize) && note == n.note
        },
        m.legato ==> {
            &&& note_on_step(m, n, offset).1 == seq![
                VoiceEvent::Update {
                    voice_idx: m.playing[i].voice_idx as usize,
                    note: n.note,
                    velocity: n.velocity,
                    offset,
                },
            ]
            &&& note_on_step(m, n, offset).0.playing[0].voice_idx == m.playing[i].voice_idx
            &&& note_on_step(m, n, offset).0.playing[0].note == n
        },
{
    lemma_first_index_props(m.playing, playing_on_channel(n.channel));
    assert(playing_on_channel(n.channel)(m.playing[i]));
    let fi = first_index(m.playing, playing_on_channel(n.channel));
    if fi != i {
        assert(playing_on_channel(n.channel)(m.playing[fi]));
    }
    if !m.legato {
        let p = m.playing[i];
        let m1 = VoicesModel { playing: m.playing.remove(i), waiting: m.waiting.push(p.note), ..m };
        let m2 = kill_step(m1, p, offset).0;
        assert(m2.killing.len() > 0);
    }
}

/// With several voices, pressing again a key whose note is still releasing
/// kills that releasing note first, and the new note starts naming the
/// killed note's voice as the one it replaces.
pub proof fn lemma_poly_retrigger_kills_release(m: VoicesModel, n: Note, offset: usize, i: int)
    requires
        voices_wf(m),
        m.num_voices > 1,
        !has_note(m.waiting, n),
        !has_playing(m.playing, n),
        0 <= i < m.releasing.len(),
        same_key(m.releasing[i].note, n),
        forall|k: int| 0 <= k < i ==> !same_key(#[trigger] m.releasing[k].note, n),
    ensures
        note_on_step(m, n, offset).1.len() >= 2,
        note_on_step(m, n, offset).1[0] == (VoiceEvent::Kill {
            voice_idx: m.releasing[i].voice_idx as usize,
            offset,
        }),
        note_on_step(m, n, offset).1.last() matches VoiceEvent::Reset { prev_voice_idx, note, .. }
            && prev_voice_idx == Some(m.releasing[i].voice_idx as usize) && note == n.note,
{
    lemma_first_index_props(m.releasing, playing_is(n));
    assert(playing_is(n)(m.releasing[i]));
    let ri = first_index(m.releasing, playing_is(n));
    if ri != i {
        assert(playing_is(n)(m.releasing[ri]));
    }
    let (m1, e1, prev) = poly_first(m, n, offset);
    lemma_poly_first(m, n, offset);
    let (m2, e2) = make_room_step(m1, offset);
    let e3 = grab_step(m2, prev, n, offset).1;
    assert((e1 + e2 + e3)[0] == e1[0]);
    assert((e1 + e2 + e3).last() == e3[0]);
}

/// With several voices and room to spare, a new key starts at once on a
/// voice, replacing none: the voice freed last, when one is free; otherwise
/// the voice of the oldest killed note (the last of the killing queue), whose
/// note is then reported ended unless its key is still held.
pub proof fn lemma_new_key_takes_last_freed_voice(m: VoicesModel, n: Note, offset: usize)
    requires
        voices_wf(m),
        m.num_voices > 1,
        !has_note(m.waiting, n),
        !has_playing(m.playing, n),
        !has_playing(m.releasing, n),
        m.playing.len() + m.releasing.len() < m.num_voices,
    ensures
        m.free_voices.len() > 0 ==> {
            &&& note_on_step(m, n, offset).1 == seq![
                VoiceEvent::Reset {
                    voice_idx: m.free_voices[m.free_voices.len() - 1] as usize,
                    prev_voice_idx: None,
                    note: n.note,
                    velocity: n.velocity,
                    offset,
                },
            ]
            &&& note_on_step(m, n, offset).0.free_voices == m.free_voices.subrange(0, m.free_voices.len() - 1)
            &&& note_on_step(m, n, offset).0.killing == m.killing
            &&& note_on_step(m, n, offset).0.releasing == m.releasing
        },
        m.free_voices.len() == 0 && m.killing.len() > 0 ==> {
            let k = m.killing[m.killing.len() - 1];
            &&& note_on_step(m, n, offset).1 == seq![
                VoiceEvent::Reset {
                    voice_idx: k.voice_idx as usize,
                    prev_voice_idx: None,
                    note: n.note,
                    velocity: n.velocity,
                    offset,
                },
            ]
            &&& note_on_step(m, n, offset).0.killing == m.killing.subrange(0, m.killing.len() - 1)
            &&& note_on_step(m, n, offset).0.terminate == if has_note(m.waiting, k.note) {
                m.terminate
            } else {
                m.terminate.push(k.note)
            }
        },
{
    lemma_first_index_props(m.releasing, playing_is(n));
    assert(first_index(m.releasing, playing_is(n)) < 0) by {
        if first_index(m.releasing, playing_is(n)) >= 0 {
            let i = first_index(m.releasing, playing_is(n));
            assert(playing_is(n)(m.releasing[i]));
        }
    }
    let (m1, e1, prev) = poly_first(m, n, offset);
    assert(m1 == m && e1.len() == 0 && prev is None);
    let (m2, e2) = make_room_step(m, offset);
    assert(m2 == m && e2.len() == 0);
    let e3 = grab_step(m, prev, n, offset).1;
    assert(e1 + e2 + e3 =~= e3);
}

/// An expression for a key goes to the voice of its playing note when the
/// key is playing, else to the voice of its releasing note; a key with no
/// voice causes no event.
pub proof fn lemma_expression_goes_to_sounding_voice(
    m: VoicesModel,
    n: Note,
    expression: crate::routing::Expression,
    offset: usize,
    value: crate::stereo_sample::SampleBits,
)
    ensures
        has_playing(m.playing, n) ==> exists|i: int|
            0 <= i < m.playing.len() && same_key(#[trigger] m.playing[i].note, n)
                && crate::voices_handler::expression_events(m, n, expression, offset, value) == seq![
                VoiceEvent::Expression { voice_idx: m.playing[i].voice_idx as usize, expression, offset, value },
            ],
        !has_playing(m.playing, n) && has_playing(m.releasing, n) ==> exists|i: int|
            0 <= i < m.releasing.len() && same_key(#[trigger] m.releasing[i].note, n)
                && crate::voices_handler::expression_events(m, n, expression, offset, value) == seq![
                VoiceEvent::Expression { voice_idx: m.releasing[i].voice_idx as usize, expression, offset, value },
            ],
        !has_playing(m.playing, n) && !has_playing(m.releasing, n) ==> crate::voices_handler::expression_events(
            m,
            n,
            expression,
            offset,
            value,
        ).len() == 0,
{
    lemma_first_index_props(m.playing, playing_is(n));
    lemma_first_index_props(m.releasing, playing_is(n));
    let pi = first_index(m.playing, playing_is(n));
    let ri = first_index(m.releasing, playing_is(n));
    if has_playing(m.playing, n) {
        let j = choose|j: int| 0 <= j < m.playing.len() && #[trigger] playing_is(n)(m.playing[j]);
        assert(pi >= 0);
        assert(playing_is(n)(m.playing[pi]));
    } else if has_playing(m.releasing, n) {
        let j = choose|j: int| 0 <= j < m.releasing.len() && #[trigger] playing_is(n)(m.releasing[j]);
        assert(ri >= 0);
        assert(playing_is(n)(m.releasing[ri]));
    }
}
} // verus!
