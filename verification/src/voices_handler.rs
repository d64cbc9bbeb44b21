use vstd::prelude::*;
use vstd::multiset::Multiset;
use std::collections::VecDeque;
use smallvec::SmallVec;

use crate::routing::{Expression, MAX_VOICES, VoiceEvent};
use crate::seq_search::{
    first_index, found_at, is_first, is_last, last_index, lemma_first_index_is, lemma_first_index_none,
    lemma_last_index_is, lemma_last_index_none,
};
use crate::stereo_sample::SampleBits;

verus! {

pub const MAX_AVAILABLE_VOICES: usize = 16;

pub type VoiceIdx = u8;

/// A held key: MIDI channel and note number, the note-on velocity
/// (as `f32` bits) and the host's id for the note, if any.
#[derive(Debug, Clone, Copy, PartialEq, Eq, Structural)]
pub struct Note {
    pub channel: u8,
    pub note: u8,
    pub velocity: SampleBits,
    pub host_id: Option<i32>,
}

impl Note {
    /// Two notes are the same key when channel and note number agree.
    pub fn is_same(&self, other: &Self) -> (r: bool)
        ensures
            r == same_key(*self, *other),
    {
        self.channel == other.channel && self.note == other.note
    }
}

/// A note that owns a voice, with the order in which it got it.
#[derive(Debug, Clone, Copy, PartialEq, Eq, Structural)]
pub struct PlayingNote {
    pub note: Note,
    pub voice_idx: VoiceIdx,
    pub seq_idx: u32,
}

/// A voice that is fading out; modules mark it active while it still sounds.
#[derive(Debug, Clone, Copy)]
pub struct DecayingVoice {
    voice_idx: VoiceIdx,
    still_active: bool,
}

impl DecayingVoice {
    pub closed spec fn spec_voice_idx(&self) -> VoiceIdx {
        self.voice_idx
    }

    pub closed spec fn spec_still_active(&self) -> bool {
        self.still_active
    }

    pub fn new(voice_idx: VoiceIdx) -> (d: Self)
        ensures
            d.spec_voice_idx() == voice_idx,
            !d.spec_still_active(),
    {
        Self { voice_idx, still_active: false }
    }

    /// Done unless some module marked it active since the last reset.
    pub fn is_done(&self) -> (r: bool)
        ensures
            r == !self.spec_still_active(),
    {
        !self.still_active
    }

    pub fn index(&self) -> (r: usize)
        ensures
            r == self.spec_voice_idx() as usize,
    {
        self.voice_idx as usize
    }

    pub fn mark_active(&mut self)
        ensures
            final(self).spec_voice_idx() == old(self).spec_voice_idx(),
            final(self).spec_still_active(),
    {
        self.still_active = true;
    }

    pub fn reset(&mut self)
        ensures
            final(self).spec_voice_idx() == old(self).spec_voice_idx(),
            !final(self).spec_still_active(),
    {
        self.still_active = false;
    }
}

/// Number of harmonics of each note number that lie below 24 kHz,
/// `floor(24000 / (440 * 2^((note - 69) / 12)))`, for note numbers 0 to 255.
pub const NOTE_BANDWIDTH: [u16; 256] = [
    2935, 2770, 2615, 2468, 2329, 2199, 2075, 1959, 1849, 1745, 1647, 1555, 1467, 1385, 1307, 1234,
    1164, 1099, 1037, 979, 924, 872, 823, 777, 733, 692, 653, 617, 582, 549, 518, 489,
    462, 436, 411, 388, 366, 346, 326, 308, 291, 274, 259, 244, 231, 218, 205, 194,
    183, 173, 163, 154, 145, 137, 129, 122, 115, 109, 102, 97, 91, 86, 81, 77,
    72, 68, 64, 61, 57, 54, 51, 48, 45, 43, 40, 38, 36, 34, 32, 30,
    28, 27, 25, 24, 22, 21, 20, 19, 18, 17, 16, 15, 14, 13, 12, 12,
    11, 10, 10, 9, 9, 8, 8, 7, 7, 6, 6, 6, 5, 5, 5, 4,
    4, 4, 4, 3, 3, 3, 3, 3, 2, 2, 2, 2, 2, 2, 2, 1,
    1, 1, 1, 1, 1, 1, 1, 1, 1, 1, 1, 0, 0, 0, 0, 0,
    0, 0, 0, 0, 0, 0, 0, 0, 0, 0, 0, 0, 0, 0, 0, 0,
    0, 0, 0, 0, 0, 0, 0, 0, 0, 0, 0, 0, 0, 0, 0, 0,
    0, 0, 0, 0, 0, 0, 0, 0, 0, 0, 0, 0, 0, 0, 0, 0,
    0, 0, 0, 0, 0, 0, 0, 0, 0, 0, 0, 0, 0, 0, 0, 0,
    0, 0, 0, 0, 0, 0, 0, 0, 0, 0, 0, 0, 0, 0, 0, 0,
    0, 0, 0, 0, 0, 0, 0, 0, 0, 0, 0, 0, 0, 0, 0, 0,
    0, 0, 0, 0, 0, 0, 0, 0, 0, 0, 0, 0, 0, 0, 0, 0,
];

/// The state of the voice allocator.
#[verifier::ext_equal]
pub ghost struct VoicesModel {
    pub num_voices: nat,
    pub legato: bool,
    /// Held notes that currently have no voice (newest last).
    pub waiting: Seq<Note>,
    /// Sounding notes (newest first).
    pub playing: Seq<PlayingNote>,
    /// Notes in their release phase (newest first).
    pub releasing: Seq<PlayingNote>,
    /// Notes being faded out quickly because their voice is needed (newest first).
    pub killing: Seq<PlayingNote>,
    /// Notes that ended and are not reported yet.
    pub terminate: Seq<Note>,
    /// Unused voices; the next one handed out is the last.
    pub free_voices: Seq<VoiceIdx>,
    /// Per voice: the in-block offset at which it was (re)started in this block.
    pub triggers: Seq<Option<u16>>,
    /// Sequence number given to the next note that gets a voice.
    pub seq_idx: u32,
}

pub open spec fn same_key(a: Note, b: Note) -> bool {
    a.channel == b.channel && a.note == b.note
}

pub open spec fn note_is(n: Note) -> spec_fn(Note) -> bool {
    |w: Note| same_key(w, n)
}

pub open spec fn playing_is(n: Note) -> spec_fn(PlayingNote) -> bool {
    |p: PlayingNote| same_key(p.note, n)
}

pub open spec fn playing_on_channel(channel: u8) -> spec_fn(PlayingNote) -> bool {
    |p: PlayingNote| p.note.channel == channel
}

pub open spec fn note_on_channel(channel: u8) -> spec_fn(Note) -> bool {
    |w: Note| w.channel == channel
}

pub open spec fn uses_voice(v: VoiceIdx) -> spec_fn(PlayingNote) -> bool {
    |p: PlayingNote| p.voice_idx == v
}

pub open spec fn has_note(s: Seq<Note>, n: Note) -> bool {
    exists|i: int| 0 <= i < s.len() && #[trigger] note_is(n)(s[i])
}

pub open spec fn has_playing(s: Seq<PlayingNote>, n: Note) -> bool {
    exists|i: int| 0 <= i < s.len() && #[trigger] playing_is(n)(s[i])
}

pub open spec fn voice_of_playing() -> spec_fn(PlayingNote) -> VoiceIdx {
    |p: PlayingNote| p.voice_idx
}

pub open spec fn note_of_playing() -> spec_fn(PlayingNote) -> Note {
    |p: PlayingNote| p.note
}

pub open spec fn voices_of(s: Seq<PlayingNote>) -> Seq<VoiceIdx> {
    s.map_values(voice_of_playing())
}

pub open spec fn notes_of(s: Seq<PlayingNote>) -> Seq<Note> {
    s.map_values(note_of_playing())
}

/// Every voice the allocator holds, wherever it is.
pub open spec fn voice_multiset(m: VoicesModel) -> Multiset<VoiceIdx> {
    m.free_voices.to_multiset().add(voices_of(m.playing).to_multiset()).add(
        voices_of(m.releasing).to_multiset(),
    ).add(voices_of(m.killing).to_multiset())
}

/// Each voice index `0..MAX_VOICES` exactly once.
pub open spec fn all_voices() -> Multiset<VoiceIdx> {
    Seq::new(MAX_VOICES as nat, |i: int| i as VoiceIdx).to_multiset()
}

/// The allocator's invariant: every voice is in exactly one of the free list
/// and the playing, releasing and killing queues, and nowhere else.
pub open spec fn voices_wf(m: VoicesModel) -> bool {
    &&& m.triggers.len() == MAX_VOICES
    &&& 1 <= m.num_voices <= MAX_AVAILABLE_VOICES
    &&& voice_multiset(m) == all_voices()
}

pub open spec fn wrap_inc(s: u32) -> u32 {
    if s == u32::MAX {
        0
    } else {
        (s + 1) as u32
    }
}

pub open spec fn opt_index(v: Option<VoiceIdx>) -> Option<usize> {
    match v {
        Some(i) => Some(i as usize),
        None => None,
    }
}

/// A killed note ends for good unless it is still held (waiting for a voice).
pub open spec fn terminate_killed(m: VoicesModel, note: Note) -> VoicesModel {
    if has_note(m.waiting, note) {
        m
    } else {
        VoicesModel { terminate: m.terminate.push(note), ..m }
    }
}

/// Which voice a new note gets: a free one, else the newest killing one,
/// else the newest releasing one, else the newest playing one (whose note
/// goes back to waiting).
pub open spec fn take_voice(m: VoicesModel) -> (VoicesModel, VoiceIdx) {
    if m.free_voices.len() > 0 {
        (VoicesModel { free_voices: m.free_voices.drop_last(), ..m }, m.free_voices.last())
    } else if m.killing.len() > 0 {
        let k = m.killing.last();
        (terminate_killed(VoicesModel { killing: m.killing.drop_last(), ..m }, k.note), k.voice_idx)
    } else if m.releasing.len() > 0 {
        let r = m.releasing.last();
        (
            VoicesModel {
                releasing: m.releasing.drop_last(),
                terminate: m.terminate.push(r.note),
                ..m
            },
            r.voice_idx,
        )
    } else {
        let p = m.playing.last();
        (
            VoicesModel { playing: m.playing.drop_last(), waiting: m.waiting.push(p.note), ..m },
            p.voice_idx,
        )
    }
}

/// Starts `note` on a voice taken by `take_voice`.
pub open spec fn grab_step(m: VoicesModel, prev: Option<VoiceIdx>, note: Note, offset: usize) -> (
    VoicesModel,
    Seq<VoiceEvent>,
) {
    let (m1, v) = take_voice(m);
    (
        VoicesModel {
            playing: seq![PlayingNote { note, voice_idx: v, seq_idx: m.seq_idx }] + m1.playing,
            seq_idx: wrap_inc(m.seq_idx),
            triggers: m1.triggers.update(v as int, Some(offset as u16)),
            ..m1
        },
        seq![
            VoiceEvent::Reset {
                voice_idx: v as usize,
                prev_voice_idx: opt_index(prev),
                note: note.note,
                velocity: note.velocity,
                offset,
            },
        ],
    )
}

/// Moves voice `v` to `note` without restarting it.
pub open spec fn legato_step(m: VoicesModel, v: VoiceIdx, note: Note, offset: usize) -> (
    VoicesModel,
    Seq<VoiceEvent>,
) {
    (
        VoicesModel {
            playing: seq![PlayingNote { note, voice_idx: v, seq_idx: m.seq_idx }] + m.playing,
            seq_idx: wrap_inc(m.seq_idx),
            ..m
        },
        seq![
            VoiceEvent::Update {
                voice_idx: v as usize,
                note: note.note,
                velocity: note.velocity,
                offset,
            },
        ],
    )
}

/// Puts `p` into the killing queue.
pub open spec fn kill_step(m: VoicesModel, p: PlayingNote, offset: usize) -> (
    VoicesModel,
    Seq<VoiceEvent>,
) {
    (
        VoicesModel { killing: seq![p] + m.killing, ..m },
        seq![VoiceEvent::Kill { voice_idx: p.voice_idx as usize, offset }],
    )
}

/// Note-on with a single voice: replaces what sounds on the same channel.
pub open spec fn mono_step(m: VoicesModel, n: Note, offset: usize) -> (VoicesModel, Seq<VoiceEvent>) {
    let i = first_index(m.playing, playing_on_channel(n.channel));
    if i >= 0 {
        let p = m.playing[i];
        let m1 = VoicesModel { playing: m.playing.remove(i), waiting: m.waiting.push(p.note), ..m };
        if m.legato {
            legato_step(m1, p.voice_idx, n, offset)
        } else {
            let (m2, e1) = kill_step(m1, p, offset);
            let (m3, e2) = grab_step(m2, Some(p.voice_idx), n, offset);
            (m3, e1 + e2)
        }
    } else {
        let j = first_index(m.releasing, playing_on_channel(n.channel));
        if j >= 0 {
            let r = m.releasing[j];
            let m1 = VoicesModel { releasing: m.releasing.remove(j), ..m };
            let (m2, e1) = kill_step(m1, r, offset);
            let (m3, e2) = grab_step(m2, Some(r.voice_idx), n, offset);
            (m3, e1 + e2)
        } else {
            grab_step(m, None, n, offset)
        }
    }
}

/// Frees room for one more note when every allowed voice is busy:
/// kills the oldest releasing note, else the oldest playing one.
pub open spec fn make_room_step(m: VoicesModel, offset: usize) -> (VoicesModel, Seq<VoiceEvent>) {
    if m.playing.len() + m.releasing.len() >= m.num_voices {
        if m.releasing.len() > 0 {
            let r = m.releasing.last();
            kill_step(VoicesModel { releasing: m.releasing.drop_last(), ..m }, r, offset)
        } else if m.playing.len() > 0 {
            let p = m.playing.last();
            kill_step(
                VoicesModel { playing: m.playing.drop_last(), waiting: m.waiting.push(p.note), ..m },
                p,
                offset,
            )
        } else {
            (m, Seq::empty())
        }
    } else {
        (m, Seq::empty())
    }
}

/// First part of a polyphonic note-on: a releasing note of the same key is
/// killed, and its voice is named as the one the new note replaces.
pub open spec fn poly_first(m: VoicesModel, n: Note, offset: usize) -> (
    VoicesModel,
    Seq<VoiceEvent>,
    Option<VoiceIdx>,
) {
    let i = first_index(m.releasing, playing_is(n));
    if i >= 0 {
        let r = m.releasing[i];
        let (mk, ek) = kill_step(VoicesModel { releasing: m.releasing.remove(i), ..m }, r, offset);
        (mk, ek, Some(r.voice_idx))
    } else {
        (m, Seq::<VoiceEvent>::empty(), None::<VoiceIdx>)
    }
}

/// Note-on with several voices.
pub open spec fn poly_step(m: VoicesModel, n: Note, offset: usize) -> (VoicesModel, Seq<VoiceEvent>) {
    let (m1, e1, prev) = poly_first(m, n, offset);
    let (m2, e2) = make_room_step(m1, offset);
    let (m3, e3) = grab_step(m2, prev, n, offset);
    (m3, e1 + e2 + e3)
}

/// Note-on: a note that is already held is ignored.
pub open spec fn note_on_step(m: VoicesModel, n: Note, offset: usize) -> (
    VoicesModel,
    Seq<VoiceEvent>,
) {
    if has_note(m.waiting, n) || has_playing(m.playing, n) {
        (m, Seq::empty())
    } else if m.num_voices == 1 {
        mono_step(m, n, offset)
    } else {
        poly_step(m, n, offset)
    }
}

/// Note-off.
pub open spec fn note_off_step(m: VoicesModel, n: Note, offset: usize) -> (
    VoicesModel,
    Seq<VoiceEvent>,
) {
    let wi = first_index(m.waiting, note_is(n));
    if wi >= 0 {
        let w = m.waiting[wi];
        let m1 = VoicesModel { waiting: m.waiting.remove(wi), ..m };
        (
            if has_playing(m.killing, w) {
                m1
            } else {
                VoicesModel { terminate: m1.terminate.push(w), ..m1 }
            },
            Seq::empty(),
        )
    } else {
        let pi = first_index(m.playing, playing_is(n));
        if pi < 0 {
            (m, Seq::empty())
        } else {
            let p = m.playing[pi];
            let m1 = VoicesModel { playing: m.playing.remove(pi), ..m };
            let wj = last_index(m.waiting, note_on_channel(n.channel));
            if m.num_voices == 1 && m.legato && wj >= 0 {
                let wn = m.waiting[wj];
                legato_step(
                    VoicesModel {
                        waiting: m1.waiting.remove(wj),
                        terminate: m1.terminate.push(p.note),
                        ..m1
                    },
                    p.voice_idx,
                    wn,
                    offset,
                )
            } else {
                let m2 = VoicesModel { releasing: seq![p] + m1.releasing, ..m1 };
                let e1 = seq![
                    VoiceEvent::Release {
                        voice_idx: p.voice_idx as usize,
                        velocity: n.velocity,
                        offset,
                    },
                ];
                if m2.waiting.len() > 0 {
                    let (m3, e2) = note_on_step(
                        VoicesModel { waiting: m2.waiting.drop_last(), ..m2 },
                        m2.waiting.last(),
                        offset,
                    );
                    (m3, e1 + e2)
                } else {
                    (m2, e1)
                }
            }
        }
    }
}

/// Choke: the note stops at once and its voice becomes free.
pub open spec fn choke_step(m: VoicesModel, n: Note) -> VoicesModel {
    let pi = first_index(m.playing, playing_is(n));
    let ri = first_index(m.releasing, playing_is(n));
    let ki = first_index(m.killing, playing_is(n));
    let (m1, found) = if pi >= 0 {
        (
            VoicesModel {
                playing: m.playing.remove(pi),
                free_voices: m.free_voices.push(m.playing[pi].voice_idx),
                ..m
            },
            true,
        )
    } else if ri >= 0 {
        (
            VoicesModel {
                releasing: m.releasing.remove(ri),
                free_voices: m.free_voices.push(m.releasing[ri].voice_idx),
                ..m
            },
            true,
        )
    } else if ki >= 0 {
        (
            VoicesModel {
                killing: m.killing.remove(ki),
                free_voices: m.free_voices.push(m.killing[ki].voice_idx),
                ..m
            },
            true,
        )
    } else {
        (m, false)
    };
    let wi = first_index(m1.waiting, note_is(n));
    let m2 = if wi >= 0 {
        VoicesModel { waiting: m1.waiting.remove(wi), ..m1 }
    } else {
        m1
    };
    if found || wi >= 0 {
        VoicesModel { terminate: m2.terminate.push(n), ..m2 }
    } else {
        m2
    }
}

pub open spec fn not_held(waiting: Seq<Note>) -> spec_fn(PlayingNote) -> bool {
    |k: PlayingNote| !has_note(waiting, k.note)
}

/// Killing notes whose key is not held any more.
pub open spec fn killed_for_good(killing: Seq<PlayingNote>, waiting: Seq<Note>) -> Seq<PlayingNote> {
    killing.filter(not_held(waiting))
}

/// Every note ends and every voice becomes free.
pub open spec fn choke_all_step(m: VoicesModel) -> VoicesModel {
    VoicesModel {
        playing: Seq::empty(),
        releasing: Seq::empty(),
        killing: Seq::empty(),
        waiting: Seq::empty(),
        terminate: m.terminate + notes_of(m.playing) + notes_of(m.releasing) + notes_of(
            killed_for_good(m.killing, m.waiting),
        ) + m.waiting,
        free_voices: m.free_voices + voices_of(m.playing) + voices_of(m.releasing) + voices_of(
            m.killing,
        ),
        ..m
    }
}

/// The voice an expression for `n` goes to: the playing note, else the releasing one.
pub open spec fn expression_voice(m: VoicesModel, n: Note) -> Option<VoiceIdx> {
    let pi = first_index(m.playing, playing_is(n));
    let ri = first_index(m.releasing, playing_is(n));
    if pi >= 0 {
        Some(m.playing[pi].voice_idx)
    } else if ri >= 0 {
        Some(m.releasing[ri].voice_idx)
    } else {
        None
    }
}

/// The event an expression for `n` causes: none when `n` has no voice.
pub open spec fn expression_events(
    m: VoicesModel,
    n: Note,
    expression: Expression,
    offset: usize,
    value: SampleBits,
) -> Seq<VoiceEvent> {
    match expression_voice(m, n) {
        Some(v) => seq![VoiceEvent::Expression { voice_idx: v as usize, expression, offset, value }],
        None => Seq::empty(),
    }
}

/// A voice whose decay has finished: its note ends and the voice is free again.
pub open spec fn decay_one(m: VoicesModel, d: DecayingVoice) -> VoicesModel {
    if d.spec_still_active() {
        m
    } else {
        let v = d.spec_voice_idx();
        let ri = first_index(m.releasing, uses_voice(v));
        let ki = first_index(m.killing, uses_voice(v));
        if ri >= 0 {
            VoicesModel {
                releasing: m.releasing.remove(ri),
                terminate: m.terminate.push(m.releasing[ri].note),
                free_voices: m.free_voices.push(v),
                ..m
            }
        } else if ki >= 0 {
            let k = m.killing[ki];
            let m1 = terminate_killed(VoicesModel { killing: m.killing.remove(ki), ..m }, k.note);
            VoicesModel { free_voices: m1.free_voices.push(v), ..m1 }
        } else {
            m
        }
    }
}

/// `decay_one` applied to each decaying voice in order.
pub open spec fn decay_all(m: VoicesModel, ds: Seq<DecayingVoice>) -> VoicesModel
    decreases ds.len(),
{
    if ds.len() == 0 {
        m
    } else {
        decay_one(decay_all(m, ds.drop_last()), ds.last())
    }
}


/// A voice that sounds in the current block, as modules see it.
#[derive(Debug, Clone, Copy)]
pub struct PlayingVoice {
    voice_idx: VoiceIdx,
    note_bandwidth: u16,
    triggered: Option<u16>,
}

impl PlayingVoice {
    pub closed spec fn spec_voice_idx(&self) -> VoiceIdx {
        self.voice_idx
    }

    pub closed spec fn spec_note_bandwidth(&self) -> u16 {
        self.note_bandwidth
    }

    pub closed spec fn spec_triggered(&self) -> Option<u16> {
        self.triggered
    }

    /// A voice playing MIDI note `note`, band-limited to the harmonics of that
    /// note below 24 kHz, not triggered in this block.
    pub fn new(voice_idx: VoiceIdx, note: u8) -> (v: Self)
        ensures
            v.spec_voice_idx() == voice_idx,
            v.spec_note_bandwidth() == NOTE_BANDWIDTH[note as int],
            v.spec_triggered() == None::<u16>,
    {
        Self { voice_idx, note_bandwidth: NOTE_BANDWIDTH[note as usize], triggered: None }
    }

    pub fn voice_idx(&self) -> (r: usize)
        ensures
            r == self.spec_voice_idx() as usize,
    {
        self.voice_idx as usize
    }

    pub fn note_bandwidth(&self) -> (r: usize)
        ensures
            r == self.spec_note_bandwidth() as usize,
    {
        self.note_bandwidth as usize
    }

    /// In-block offset at which this voice was (re)started, if it was in this block.
    pub fn triggered(&self) -> (r: Option<usize>)
        ensures
            r == match self.spec_triggered() {
                Some(o) => Some(o as usize),
                None => None::<usize>,
            },
    {
        match self.triggered {
            Some(offset) => Some(offset as usize),
            None => None,
        }
    }
}

/// The model of a playing voice built for `voice_idx` playing `note`.
pub open spec fn playing_voice_for(voice_idx: VoiceIdx, note: u8, triggered: Option<u16>) -> (
    VoiceIdx,
    u16,
    Option<u16>,
) {
    (voice_idx, NOTE_BANDWIDTH[note as int], triggered)
}

/// Sequence numbers never increase along `s`: the note that got its voice last comes first.
pub open spec fn newest_first(s: Seq<PlayingNote>) -> bool {
    forall|i: int, j: int| 0 <= i < j < s.len() ==> s[i].seq_idx >= s[j].seq_idx
}

/// `v` is the voice of `p` as modules see it, with the trigger offset of its voice.
pub open spec fn voice_of_note(v: PlayingVoice, p: PlayingNote, triggers: Seq<Option<u16>>) -> bool {
    &&& v.spec_voice_idx() == p.voice_idx
    &&& v.spec_note_bandwidth() == NOTE_BANDWIDTH[p.note.note as int]
    &&& v.spec_triggered() == triggers[p.voice_idx as int]
}

/// `b` is `a` with the trigger offset of its voice filled in.
pub open spec fn with_trigger(a: PlayingVoice, b: PlayingVoice, triggers: Seq<Option<u16>>) -> bool {
    &&& b.spec_voice_idx() == a.spec_voice_idx()
    &&& b.spec_note_bandwidth() == a.spec_note_bandwidth()
    &&& b.spec_triggered() == triggers[a.spec_voice_idx() as int]
}

/// Events produced while handling note input, in order.
#[verifier::external_body]
pub struct VoiceEvents {
    events: SmallVec<[VoiceEvent; 6]>,
}

/// The events a `VoiceEvents` holds, in order.
pub uninterp spec fn voice_events_seq(events: VoiceEvents) -> Seq<VoiceEvent>;

impl View for VoiceEvents {
    type V = Seq<VoiceEvent>;

    open spec fn view(&self) -> Seq<VoiceEvent> {
        voice_events_seq(*self)
    }
}

impl VoiceEvents {
    /// `SmallVec::new`: no events yet.
    #[verifier::external_body]
    pub fn new() -> (r: Self)
        ensures
            voice_events_seq(r) == Seq::<VoiceEvent>::empty(),
    {
        Self { events: SmallVec::new() }
    }

    /// `SmallVec::as_slice`: the events in order.
    #[verifier::external_body]
    pub fn events(&self) -> (r: &[VoiceEvent])
        ensures
            r@ == voice_events_seq(*self),
    {
        self.events.as_slice()
    }

    /// `SmallVec::push`: appends one event.
    #[verifier::external_body]
    fn push(&mut self, event: VoiceEvent)
        ensures
            voice_events_seq(*final(self)) == voice_events_seq(*old(self)).push(event),
    {
        self.events.push(event)
    }
}

/// Voices that are fading out, handed to modules so they can mark them active.
#[verifier::external_body]
pub struct DecayingVoices {
    voices: SmallVec<[DecayingVoice; MAX_VOICES]>,
}

/// The decaying voices a `DecayingVoices` holds, in order.
pub uninterp spec fn decaying_voices_seq(voices: DecayingVoices) -> Seq<DecayingVoice>;

impl View for DecayingVoices {
    type V = Seq<DecayingVoice>;

    open spec fn view(&self) -> Seq<DecayingVoice> {
        decaying_voices_seq(*self)
    }
}

impl DecayingVoices {
    /// `SmallVec::new`: no voices.
    #[verifier::external_body]
    pub fn new() -> (r: Self)
        ensures
            decaying_voices_seq(r) == Seq::<DecayingVoice>::empty(),
    {
        Self { voices: SmallVec::new() }
    }

    /// `SmallVec::len`.
    #[verifier::external_body]
    pub fn len(&self) -> (r: usize)
        ensures
            r == decaying_voices_seq(*self).len(),
    {
        self.voices.len()
    }

    /// `SmallVec::as_slice`: the voices in order.
    #[verifier::external_body]
    pub fn as_slice(&self) -> (r: &[DecayingVoice])
        ensures
            r@ == decaying_voices_seq(*self),
    {
        self.voices.as_slice()
    }

    /// `SmallVec::as_mut_slice`: the voices in order, for marking them active.
    #[verifier::external_body]
    pub fn as_mut_slice(&mut self) -> (r: &mut [DecayingVoice])
        ensures
            r@ == decaying_voices_seq(*old(self)),
            decaying_voices_seq(*final(self)) == final(r)@,
    {
        self.voices.as_mut_slice()
    }

    /// `SmallVec::push`: appends one voice.
    #[verifier::external_body]
    fn push(&mut self, voice: DecayingVoice)
        ensures
            decaying_voices_seq(*final(self)) == decaying_voices_seq(*old(self)).push(voice),
    {
        self.voices.push(voice)
    }
}

/// The voices that sound in the current block.
#[verifier::external_body]
pub struct PlayingVoices {
    voices: SmallVec<[PlayingVoice; MAX_VOICES]>,
}

/// The playing voices a `PlayingVoices` holds, in order.
pub uninterp spec fn playing_voices_seq(voices: PlayingVoices) -> Seq<PlayingVoice>;

impl View for PlayingVoices {
    type V = Seq<PlayingVoice>;

    open spec fn view(&self) -> Seq<PlayingVoice> {
        playing_voices_seq(*self)
    }
}

impl PlayingVoices {
    /// `SmallVec::new`: no voices.
    #[verifier::external_body]
    pub fn new() -> (r: Self)
        ensures
            playing_voices_seq(r) == Seq::<PlayingVoice>::empty(),
    {
        Self { voices: SmallVec::new() }
    }

    /// `SmallVec::len`.
    #[verifier::external_body]
    pub fn len(&self) -> (r: usize)
        ensures
            r == playing_voices_seq(*self).len(),
    {
        self.voices.len()
    }

    /// `SmallVec::as_slice`: the voices in order.
    #[verifier::external_body]
    pub fn as_slice(&self) -> (r: &[PlayingVoice])
        ensures
            r@ == playing_voices_seq(*self),
    {
        self.voices.as_slice()
    }

    /// `SmallVec::push`: appends one voice.
    #[verifier::external_body]
    fn push(&mut self, voice: PlayingVoice)
        ensures
            playing_voices_seq(*final(self)) == playing_voices_seq(*old(self)).push(voice),
    {
        self.voices.push(voice)
    }

    /// `IndexMut` of `SmallVec`: replaces the voice at position `i`.
    #[verifier::external_body]
    fn set(&mut self, i: usize, voice: PlayingVoice)
        requires
            i < playing_voices_seq(*old(self)).len(),
        ensures
            playing_voices_seq(*final(self)) == playing_voices_seq(*old(self)).update(i as int, voice),
    {
        self.voices[i] = voice;
    }
}

/// Counters describing the allocator's state.
#[derive(Debug, Clone, Copy)]
pub struct VoicesHandlerMetrics {
    pub num_voices: usize,
    pub legato: bool,
    pub waiting: usize,
    pub playing: usize,
    pub releasing: usize,
    pub killing: usize,
}


/// Per-voice trigger offsets start out empty.
pub open spec fn no_triggers() -> Seq<Option<u16>> {
    Seq::new(MAX_VOICES as nat, |i: int| None::<u16>)
}

/// Voice indices `MAX_VOICES - 1` down to `0`: the free list of a fresh allocator,
/// so that voice 0 is handed out first.
pub open spec fn initial_free_voices() -> Seq<VoiceIdx> {
    Seq::new(MAX_VOICES as nat, |i: int| (MAX_VOICES - 1 - i) as VoiceIdx)
}

pub open spec fn clamp_voices(n: usize) -> nat {
    if n < 1 {
        1
    } else if n > MAX_AVAILABLE_VOICES {
        MAX_AVAILABLE_VOICES as nat
    } else {
        n as nat
    }
}

/// A fresh allocator: every voice free, nothing held.
pub open spec fn initial_model(num_voices: usize, legato: bool) -> VoicesModel {
    VoicesModel {
        num_voices: clamp_voices(num_voices),
        legato,
        waiting: Seq::empty(),
        playing: Seq::empty(),
        releasing: Seq::empty(),
        killing: Seq::empty(),
        terminate: Seq::empty(),
        free_voices: initial_free_voices(),
        triggers: no_triggers(),
        seq_idx: 0,
    }
}

/// Assigns voices to notes: polyphonic with voice stealing, or monophonic with
/// optional legato, and keeps track of notes that are released, killed or ended.
pub struct VoicesHandler {
    num_voices: usize,
    legato: bool,
    waiting: Vec<Note>,
    playing: VecDeque<PlayingNote>,
    releasing: VecDeque<PlayingNote>,
    killing: VecDeque<PlayingNote>,
    terminate: Vec<Note>,
    free_voices: Vec<VoiceIdx>,
    triggers: Vec<Option<u16>>,
    seq_idx: u32,
}

impl View for VoicesHandler {
    type V = VoicesModel;

    closed spec fn view(&self) -> VoicesModel {
        VoicesModel {
            num_voices: self.num_voices as nat,
            legato: self.legato,
            waiting: self.waiting@,
            playing: self.playing@,
            releasing: self.releasing@,
            killing: self.killing@,
            terminate: self.terminate@,
            free_voices: self.free_voices@,
            triggers: self.triggers@,
            seq_idx: self.seq_idx,
        }
    }
}

// ---- facts about the voice multiset ----

pub(crate) proof fn lemma_voices_remove(s: Seq<PlayingNote>, i: int)
    requires
        0 <= i < s.len(),
    ensures
        voices_of(s.remove(i)).to_multiset() == voices_of(s).to_multiset().remove(s[i].voice_idx),
        voices_of(s).to_multiset().count(s[i].voice_idx) > 0,
{
    broadcast use vstd::seq_lib::group_to_multiset_ensures;

    assert(voices_of(s.remove(i)) =~= voices_of(s).remove(i));
    assert(voices_of(s)[i] == s[i].voice_idx);
    assert(voices_of(s).contains(s[i].voice_idx));
}

pub(crate) proof fn lemma_voices_drop_last(s: Seq<PlayingNote>)
    requires
        s.len() > 0,
    ensures
        voices_of(s.drop_last()).to_multiset() == voices_of(s).to_multiset().remove(
            s.last().voice_idx,
        ),
        voices_of(s).to_multiset().count(s.last().voice_idx) > 0,
{
    assert(s.drop_last() =~= s.remove(s.len() - 1));
    lemma_voices_remove(s, s.len() - 1);
}

proof fn lemma_voices_prepend(s: Seq<PlayingNote>, p: PlayingNote)
    ensures
        voices_of(seq![p] + s).to_multiset() == voices_of(s).to_multiset().insert(p.voice_idx),
{
    broadcast use vstd::seq_lib::group_to_multiset_ensures;
    broadcast use vstd::multiset::group_multiset_axioms;

    assert(voices_of(seq![p] + s) =~= seq![p.voice_idx] + voices_of(s));
    vstd::seq_lib::lemma_multiset_commutative(seq![p.voice_idx], voices_of(s));
    assert(seq![p.voice_idx] =~= Seq::<VoiceIdx>::empty().push(p.voice_idx));
    assert(Seq::<VoiceIdx>::empty().to_multiset() =~= Multiset::<VoiceIdx>::empty());
    assert((seq![p.voice_idx] + voices_of(s)).to_multiset() =~= voices_of(s).to_multiset().insert(
        p.voice_idx,
    ));
}

proof fn lemma_free_drop_last(s: Seq<VoiceIdx>)
    requires
        s.len() > 0,
    ensures
        s.drop_last().to_multiset() == s.to_multiset().remove(s.last()),
        s.to_multiset().count(s.last()) > 0,
{
    broadcast use vstd::seq_lib::group_to_multiset_ensures;

    assert(s.drop_last() =~= s.remove(s.len() - 1));
    assert(s.contains(s.last()));
}

proof fn lemma_free_push(s: Seq<VoiceIdx>, v: VoiceIdx)
    ensures
        s.push(v).to_multiset() == s.to_multiset().insert(v),
{
    broadcast use vstd::seq_lib::group_to_multiset_ensures;

}

/// A voice the allocator holds is a valid index.
proof fn lemma_voice_in_range(m: VoicesModel, v: VoiceIdx)
    requires
        voice_multiset(m) == all_voices(),
        voice_multiset(m).count(v) > 0,
    ensures
        (v as usize) < MAX_VOICES,
{
    broadcast use vstd::seq_lib::group_to_multiset_ensures;

    let s = Seq::new(MAX_VOICES as nat, |i: int| i as VoiceIdx);
    assert(s.contains(v));
    let k = choose|k: int| 0 <= k < s.len() && s[k] == v;
    assert(s[k] == k as VoiceIdx);
}

/// Every note that owns a voice owns a valid one.
pub(crate) proof fn lemma_owned_voices_in_range(m: VoicesModel)
    requires
        voice_multiset(m) == all_voices(),
    ensures
        forall|i: int| 0 <= i < m.playing.len() ==> ((#[trigger] m.playing[i]).voice_idx as usize) < MAX_VOICES,
        forall|i: int| 0 <= i < m.releasing.len() ==> ((#[trigger] m.releasing[i]).voice_idx as usize) < MAX_VOICES,
        forall|i: int| 0 <= i < m.killing.len() ==> ((#[trigger] m.killing[i]).voice_idx as usize) < MAX_VOICES,
{
    broadcast use vstd::multiset::group_multiset_axioms;

    assert forall|i: int| 0 <= i < m.playing.len() implies ((#[trigger] m.playing[i]).voice_idx as usize) < MAX_VOICES by {
        lemma_voices_remove(m.playing, i);
        lemma_voice_in_range(m, m.playing[i].voice_idx);
    }
    assert forall|i: int| 0 <= i < m.releasing.len() implies ((#[trigger] m.releasing[i]).voice_idx as usize) < MAX_VOICES by {
        lemma_voices_remove(m.releasing, i);
        lemma_voice_in_range(m, m.releasing[i].voice_idx);
    }
    assert forall|i: int| 0 <= i < m.killing.len() implies ((#[trigger] m.killing[i]).voice_idx as usize) < MAX_VOICES by {
        lemma_voices_remove(m.killing, i);
        lemma_voice_in_range(m, m.killing[i].voice_idx);
    }
}

/// Under the invariant some voice can always be taken.
pub(crate) proof fn lemma_some_voice(m: VoicesModel)
    requires
        voice_multiset(m) == all_voices(),
    ensures
        m.free_voices.len() + m.playing.len() + m.releasing.len() + m.killing.len() == MAX_VOICES,
{
    broadcast use vstd::seq_lib::group_to_multiset_ensures;
    broadcast use vstd::multiset::group_multiset_axioms;

    assert(voices_of(m.playing).len() == m.playing.len());
    assert(voices_of(m.releasing).len() == m.releasing.len());
    assert(voices_of(m.killing).len() == m.killing.len());
    assert(m.free_voices.to_multiset().len() == m.free_voices.len());
    assert(voices_of(m.playing).to_multiset().len() == m.playing.len());
    assert(voices_of(m.releasing).to_multiset().len() == m.releasing.len());
    assert(voices_of(m.killing).to_multiset().len() == m.killing.len());
    let s = Seq::new(MAX_VOICES as nat, |i: int| i as VoiceIdx);
    assert(s.to_multiset().len() == MAX_VOICES);
    assert(voice_multiset(m).len() == all_voices().len());
}

proof fn lemma_all_voices_initial()
    ensures
        initial_free_voices().to_multiset() == all_voices(),
{
    broadcast use vstd::seq_lib::group_to_multiset_ensures;

    let a = initial_free_voices();
    let b = Seq::new(MAX_VOICES as nat, |i: int| i as VoiceIdx);
    assert(a =~= b.reverse());
    b.lemma_reverse_to_multiset();
}

// ---- searches ----

fn find_playing(d: &VecDeque<PlayingNote>, n: &Note) -> (r: Option<usize>)
    ensures
        found_at(r, first_index(d@, playing_is(*n))),
{
    let mut i: usize = 0;
    while i < d.len()
        invariant
            i <= d@.len(),
            forall|j: int| 0 <= j < i ==> !playing_is(*n)(#[trigger] d@[j]),
        decreases d@.len() - i,
    {
        if d[i].note.is_same(n) {
            proof {
                lemma_first_index_is(d@, playing_is(*n), i as int);
            }
            return Some(i);
        }
        i = i + 1;
    }
    proof {
        lemma_first_index_none(d@, playing_is(*n));
    }
    None
}

fn find_on_channel(d: &VecDeque<PlayingNote>, channel: u8) -> (r: Option<usize>)
    ensures
        found_at(r, first_index(d@, playing_on_channel(channel))),
{
    let mut i: usize = 0;
    while i < d.len()
        invariant
            i <= d@.len(),
            forall|j: int| 0 <= j < i ==> !playing_on_channel(channel)(#[trigger] d@[j]),
        decreases d@.len() - i,
    {
        if d[i].note.channel == channel {
            proof {
                lemma_first_index_is(d@, playing_on_channel(channel), i as int);
            }
            return Some(i);
        }
        i = i + 1;
    }
    proof {
        lemma_first_index_none(d@, playing_on_channel(channel));
    }
    None
}

fn find_voice(d: &VecDeque<PlayingNote>, v: VoiceIdx) -> (r: Option<usize>)
    ensures
        found_at(r, first_index(d@, uses_voice(v))),
{
    let mut i: usize = 0;
    while i < d.len()
        invariant
            i <= d@.len(),
            forall|j: int| 0 <= j < i ==> !uses_voice(v)(#[trigger] d@[j]),
        decreases d@.len() - i,
    {
        if d[i].voice_idx == v {
            proof {
                lemma_first_index_is(d@, uses_voice(v), i as int);
            }
            return Some(i);
        }
        i = i + 1;
    }
    proof {
        lemma_first_index_none(d@, uses_voice(v));
    }
    None
}

fn find_note(w: &Vec<Note>, n: &Note) -> (r: Option<usize>)
    ensures
        found_at(r, first_index(w@, note_is(*n))),
{
    let mut i: usize = 0;
    while i < w.len()
        invariant
            i <= w@.len(),
            forall|j: int| 0 <= j < i ==> !note_is(*n)(#[trigger] w@[j]),
        decreases w@.len() - i,
    {
        if w[i].is_same(n) {
            proof {
                lemma_first_index_is(w@, note_is(*n), i as int);
            }
            return Some(i);
        }
        i = i + 1;
    }
    proof {
        lemma_first_index_none(w@, note_is(*n));
    }
    None
}

fn rfind_on_channel(w: &Vec<Note>, channel: u8) -> (r: Option<usize>)
    ensures
        found_at(r, last_index(w@, note_on_channel(channel))),
{
    let mut i: usize = w.len();
    while i > 0
        invariant
            i <= w@.len(),
            forall|j: int| i <= j < w@.len() ==> !note_on_channel(channel)(#[trigger] w@[j]),
        decreases i,
    {
        if w[i - 1].channel == channel {
            proof {
                lemma_last_index_is(w@, note_on_channel(channel), i - 1);
            }
            return Some(i - 1);
        }
        i = i - 1;
    }
    proof {
        lemma_last_index_none(w@, note_on_channel(channel));
    }
    None
}

fn has_same_note(w: &Vec<Note>, n: &Note) -> (r: bool)
    ensures
        r == has_note(w@, *n),
{
    let r = find_note(w, n);
    proof {
        crate::seq_search::lemma_first_index_props(w@, note_is(*n));
    }
    r.is_some()
}

fn has_same_playing(d: &VecDeque<PlayingNote>, n: &Note) -> (r: bool)
    ensures
        r == has_playing(d@, *n),
{
    let r = find_playing(d, n);
    proof {
        crate::seq_search::lemma_first_index_props(d@, playing_is(*n));
    }
    r.is_some()
}


// ---- how each step moves voices ----

pub(crate) proof fn lemma_remove_insert(ms: Multiset<VoiceIdx>, v: VoiceIdx)
    requires
        ms.count(v) > 0,
    ensures
        ms.remove(v).insert(v) == ms,
{
    broadcast use vstd::multiset::group_multiset_axioms;

    assert(ms.remove(v).insert(v) =~= ms);
}

/// The voice handed out by `take_voice` was held, and only it left.
pub(crate) proof fn lemma_vm_take_voice(m: VoicesModel)
    requires
        voices_wf(m),
    ensures
        voice_multiset(take_voice(m).0).insert(take_voice(m).1) == voice_multiset(m),
        voice_multiset(m).count(take_voice(m).1) > 0,
        take_voice(m).0.triggers == m.triggers,
        take_voice(m).0.num_voices == m.num_voices,
        take_voice(m).0.legato == m.legato,
        take_voice(m).0.seq_idx == m.seq_idx,
{
    broadcast use vstd::multiset::group_multiset_axioms;

    lemma_some_voice(m);
    if m.free_voices.len() > 0 {
        lemma_free_drop_last(m.free_voices);
    } else if m.killing.len() > 0 {
        lemma_voices_drop_last(m.killing);
    } else if m.releasing.len() > 0 {
        lemma_voices_drop_last(m.releasing);
    } else {
        lemma_voices_drop_last(m.playing);
    }
    assert(voice_multiset(take_voice(m).0).insert(take_voice(m).1) =~= voice_multiset(m));
}

pub(crate) proof fn lemma_vm_push_playing(m: VoicesModel, p: PlayingNote)
    ensures
        voice_multiset(VoicesModel { playing: seq![p] + m.playing, ..m }) == voice_multiset(
            m,
        ).insert(p.voice_idx),
{
    broadcast use vstd::multiset::group_multiset_axioms;

    lemma_voices_prepend(m.playing, p);
    assert(voice_multiset(VoicesModel { playing: seq![p] + m.playing, ..m }) =~= voice_multiset(
        m,
    ).insert(p.voice_idx));
}

pub(crate) proof fn lemma_vm_push_releasing(m: VoicesModel, p: PlayingNote)
    ensures
        voice_multiset(VoicesModel { releasing: seq![p] + m.releasing, ..m }) == voice_multiset(
            m,
        ).insert(p.voice_idx),
{
    broadcast use vstd::multiset::group_multiset_axioms;

    lemma_voices_prepend(m.releasing, p);
    assert(voice_multiset(VoicesModel { releasing: seq![p] + m.releasing, ..m })
        =~= voice_multiset(m).insert(p.voice_idx));
}

pub(crate) proof fn lemma_vm_push_killing(m: VoicesModel, p: PlayingNote)
    ensures
        voice_multiset(VoicesModel { killing: seq![p] + m.killing, ..m }) == voice_multiset(
            m,
        ).insert(p.voice_idx),
{
    broadcast use vstd::multiset::group_multiset_axioms;

    lemma_voices_prepend(m.killing, p);
    assert(voice_multiset(VoicesModel { killing: seq![p] + m.killing, ..m }) =~= voice_multiset(
        m,
    ).insert(p.voice_idx));
}

pub(crate) proof fn lemma_vm_push_free(m: VoicesModel, v: VoiceIdx)
    ensures
        voice_multiset(VoicesModel { free_voices: m.free_voices.push(v), ..m }) == voice_multiset(
            m,
        ).insert(v),
{
    broadcast use vstd::multiset::group_multiset_axioms;

    lemma_free_push(m.free_voices, v);
    assert(voice_multiset(VoicesModel { free_voices: m.free_voices.push(v), ..m })
        =~= voice_multiset(m).insert(v));
}

pub(crate) proof fn lemma_vm_remove_playing(m: VoicesModel, i: int)
    requires
        0 <= i < m.playing.len(),
    ensures
        voice_multiset(VoicesModel { playing: m.playing.remove(i), ..m }) == voice_multiset(
            m,
        ).remove(m.playing[i].voice_idx),
        voice_multiset(m).count(m.playing[i].voice_idx) > 0,
{
    broadcast use vstd::multiset::group_multiset_axioms;

    lemma_voices_remove(m.playing, i);
    assert(voice_multiset(VoicesModel { playing: m.playing.remove(i), ..m }) =~= voice_multiset(
        m,
    ).remove(m.playing[i].voice_idx));
}

pub(crate) proof fn lemma_vm_remove_releasing(m: VoicesModel, i: int)
    requires
        0 <= i < m.releasing.len(),
    ensures
        voice_multiset(VoicesModel { releasing: m.releasing.remove(i), ..m }) == voice_multiset(
            m,
        ).remove(m.releasing[i].voice_idx),
        voice_multiset(m).count(m.releasing[i].voice_idx) > 0,
{
    broadcast use vstd::multiset::group_multiset_axioms;

    lemma_voices_remove(m.releasing, i);
    assert(voice_multiset(VoicesModel { releasing: m.releasing.remove(i), ..m })
        =~= voice_multiset(m).remove(m.releasing[i].voice_idx));
}

pub(crate) proof fn lemma_vm_remove_killing(m: VoicesModel, i: int)
    requires
        0 <= i < m.killing.len(),
    ensures
        voice_multiset(VoicesModel { killing: m.killing.remove(i), ..m }) == voice_multiset(
            m,
        ).remove(m.killing[i].voice_idx),
        voice_multiset(m).count(m.killing[i].voice_idx) > 0,
{
    broadcast use vstd::multiset::group_multiset_axioms;

    lemma_voices_remove(m.killing, i);
    assert(voice_multiset(VoicesModel { killing: m.killing.remove(i), ..m }) =~= voice_multiset(
        m,
    ).remove(m.killing[i].voice_idx));
}

// ---- the allocator ----

impl VoicesHandler {
    /// Takes a voice for a new note as `take_voice` says.
    fn pop_voice(&mut self) -> (v: VoiceIdx)
        requires
            voices_wf(old(self)@),
        ensures
            final(self)@ == take_voice(old(self)@).0,
            v == take_voice(old(self)@).1,
    {
        proof {
            lemma_some_voice(self@);
        }
        match self.free_voices.pop() {
            Some(v) => v,
            None => match self.killing.pop_back() {
                Some(k) => {
                    self.terminate_killed(k.note);
                    k.voice_idx
                },
                None => match self.releasing.pop_back() {
                    Some(r) => {
                        self.terminate.push(r.note);
                        r.voice_idx
                    },
                    None => {
                        let p = self.playing.pop_back().unwrap();
                        self.waiting.push(p.note);
                        p.voice_idx
                    },
                },
            },
        }
    }

    fn terminate_killed(&mut self, note: Note)
        ensures
            final(self)@ == terminate_killed(old(self)@, note),
    {
        if !has_same_note(&self.waiting, &note) {
            self.terminate.push(note);
        }
    }

    fn grab_and_reset(
        &mut self,
        prev_voice_idx: Option<VoiceIdx>,
        note: Note,
        offset: usize,
        events: &mut VoiceEvents,
    )
        requires
            voices_wf(old(self)@),
        ensures
            final(self)@ == grab_step(old(self)@, prev_voice_idx, note, offset).0,
            final(events)@ == old(events)@ + grab_step(old(self)@, prev_voice_idx, note, offset).1,
            voices_wf(final(self)@),
    {
        let ghost m0 = self@;
        let voice_idx = self.pop_voice();
        proof {
            lemma_vm_take_voice(m0);
            lemma_voice_in_range(m0, voice_idx);
        }
        let ghost m1 = self@;
        let p = PlayingNote { note, voice_idx, seq_idx: self.seq_idx };
        self.playing.push_front(p);
        self.seq_idx = self.seq_idx.wrapping_add(1);
        self.triggers.set(voice_idx as usize, Some(offset as u16));
        let prev = match prev_voice_idx {
            Some(idx) => Some(idx as usize),
            None => None,
        };
        events.push(
            VoiceEvent::Reset {
                voice_idx: voice_idx as usize,
                prev_voice_idx: prev,
                note: note.note,
                velocity: note.velocity,
                offset,
            },
        );
        proof {
            lemma_vm_push_playing(m1, p);
            assert(self@ =~= grab_step(m0, prev_voice_idx, note, offset).0);
        }
    }

    fn legato(&mut self, voice_idx: VoiceIdx, note: Note, offset: usize, events: &mut VoiceEvents)
        ensures
            final(self)@ == legato_step(old(self)@, voice_idx, note, offset).0,
            final(events)@ == old(events)@ + legato_step(old(self)@, voice_idx, note, offset).1,
    {
        let ghost m0 = self@;
        self.playing.push_front(PlayingNote { note, voice_idx, seq_idx: self.seq_idx });
        self.seq_idx = self.seq_idx.wrapping_add(1);
        events.push(
            VoiceEvent::Update { voice_idx: voice_idx as usize, note: note.note, velocity: note.velocity, offset },
        );
        proof {
            assert(self@ =~= legato_step(m0, voice_idx, note, offset).0);
        }
    }

    fn kill(&mut self, playing: PlayingNote, offset: usize, events: &mut VoiceEvents)
        ensures
            final(self)@ == kill_step(old(self)@, playing, offset).0,
            final(events)@ == old(events)@ + kill_step(old(self)@, playing, offset).1,
    {
        self.killing.push_front(playing);
        events.push(VoiceEvent::Kill { voice_idx: playing.voice_idx as usize, offset });
    }

    fn note_on_monophonic(&mut self, new_note: Note, offset: usize, events: &mut VoiceEvents)
        requires
            voices_wf(old(self)@),
        ensures
            final(self)@ == mono_step(old(self)@, new_note, offset).0,
            final(events)@ == old(events)@ + mono_step(old(self)@, new_note, offset).1,
            voices_wf(final(self)@),
    {
        let ghost m0 = self@;
        let ghost e0 = events@;
        match find_on_channel(&self.playing, new_note.channel) {
            Some(playing_idx) => {
                proof {
                    lemma_vm_remove_playing(m0, playing_idx as int);
                }
                let playing = self.playing.remove(playing_idx).unwrap();
                self.waiting.push(playing.note);
                let ghost m1 = self@;
                if self.legato {
                    self.legato(playing.voice_idx, new_note, offset, events);
                    proof {
                        lemma_vm_push_playing(
                            m1,
                            PlayingNote { note: new_note, voice_idx: playing.voice_idx, seq_idx: m1.seq_idx },
                        );
                        lemma_remove_insert(voice_multiset(m0), playing.voice_idx);
                    }
                } else {
                    self.kill(playing, offset, events);
                    proof {
                        lemma_vm_push_killing(m1, playing);
                        lemma_remove_insert(voice_multiset(m0), playing.voice_idx);
                    }
                    let ghost e1 = events@;
                    self.grab_and_reset(Some(playing.voice_idx), new_note, offset, events);
                    proof {
                        assert(events@ =~= e0 + mono_step(m0, new_note, offset).1);
                    }
                }
            },
            None => match find_on_channel(&self.releasing, new_note.channel) {
                Some(releasing_idx) => {
                    proof {
                        lemma_vm_remove_releasing(m0, releasing_idx as int);
                    }
                    let releasing = self.releasing.remove(releasing_idx).unwrap();
                    let ghost m1 = self@;
                    self.kill(releasing, offset, events);
                    proof {
                        lemma_vm_push_killing(m1, releasing);
                        lemma_remove_insert(voice_multiset(m0), releasing.voice_idx);
                    }
                    self.grab_and_reset(Some(releasing.voice_idx), new_note, offset, events);
                    proof {
                        assert(events@ =~= e0 + mono_step(m0, new_note, offset).1);
                    }
                },
                None => {
                    self.grab_and_reset(None, new_note, offset, events);
                },
            },
        }
    }

    /// A releasing note of the same key is killed; returns its voice.
    fn kill_same_releasing(&mut self, new_note: Note, offset: usize, events: &mut VoiceEvents) -> (prev: Option<VoiceIdx>)
        requires
            voices_wf(old(self)@),
        ensures
            final(self)@ == poly_first(old(self)@, new_note, offset).0,
            final(events)@ == old(events)@ + poly_first(old(self)@, new_note, offset).1,
            prev == poly_first(old(self)@, new_note, offset).2,
            voices_wf(final(self)@),
    {
        let ghost m0 = self@;
        match find_playing(&self.releasing, &new_note) {
            Some(idx) => {
                proof {
                    lemma_vm_remove_releasing(m0, idx as int);
                }
                let releasing = self.releasing.remove(idx).unwrap();
                let ghost m1 = self@;
                self.kill(releasing, offset, events);
                proof {
                    lemma_vm_push_killing(m1, releasing);
                    lemma_remove_insert(voice_multiset(m0), releasing.voice_idx);
                }
                Some(releasing.voice_idx)
            },
            None => None,
        }
    }

    /// When every allowed voice is busy, kills the oldest note.
    fn make_room(&mut self, offset: usize, events: &mut VoiceEvents)
        requires
            voices_wf(old(self)@),
        ensures
            final(self)@ == make_room_step(old(self)@, offset).0,
            final(events)@ == old(events)@ + make_room_step(old(self)@, offset).1,
            voices_wf(final(self)@),
    {
        let ghost m1 = self@;
        proof {
            lemma_some_voice(m1);
        }
        if self.playing.len() + self.releasing.len() >= self.num_voices {
            match self.releasing.pop_back() {
                Some(releasing) => {
                    proof {
                        lemma_voices_drop_last(m1.releasing);
                    }
                    let ghost m2 = self@;
                    self.kill(releasing, offset, events);
                    proof {
                        lemma_vm_push_killing(m2, releasing);
                        assert(voice_multiset(m2) =~= voice_multiset(m1).remove(releasing.voice_idx));
                        lemma_remove_insert(voice_multiset(m1), releasing.voice_idx);
                    }
                },
                None => match self.playing.pop_back() {
                    Some(playing) => {
                        proof {
                            lemma_voices_drop_last(m1.playing);
                        }
                        self.waiting.push(playing.note);
                        let ghost m2 = self@;
                        self.kill(playing, offset, events);
                        proof {
                            lemma_vm_push_killing(m2, playing);
                            assert(voice_multiset(m2) =~= voice_multiset(m1).remove(playing.voice_idx));
                            lemma_remove_insert(voice_multiset(m1), playing.voice_idx);
                        }
                    },
                    None => {},
                },
            }
        } else {
            assert(events@ =~= old(events)@ + Seq::<VoiceEvent>::empty());
        }
    }

    fn note_on_polyphonic(&mut self, new_note: Note, offset: usize, events: &mut VoiceEvents)
        requires
            voices_wf(old(self)@),
        ensures
            final(self)@ == poly_step(old(self)@, new_note, offset).0,
            final(events)@ == old(events)@ + poly_step(old(self)@, new_note, offset).1,
            voices_wf(final(self)@),
    {
        let ghost m0 = self@;
        let ghost e0 = events@;
        let prev_voice_idx = self.kill_same_releasing(new_note, offset, events);
        self.make_room(offset, events);
        self.grab_and_reset(prev_voice_idx, new_note, offset, events);
        proof {
            assert(events@ =~= e0 + poly_step(m0, new_note, offset).1);
        }
    }

    fn note_on_impl(&mut self, new_note: Note, offset: usize, events: &mut VoiceEvents)
        requires
            voices_wf(old(self)@),
        ensures
            final(self)@ == note_on_step(old(self)@, new_note, offset).0,
            final(events)@ == old(events)@ + note_on_step(old(self)@, new_note, offset).1,
            voices_wf(final(self)@),
    {
        // A key that is already held is ignored.
        if has_same_note(&self.waiting, &new_note) || has_same_playing(&self.playing, &new_note) {
            assert(events@ =~= old(events)@ + Seq::<VoiceEvent>::empty());
            return;
        }
        if self.num_voices == 1 {
            self.note_on_monophonic(new_note, offset, events);
        } else {
            self.note_on_polyphonic(new_note, offset, events);
        }
    }
}

impl VoicesHandler {
    /// An allocator for `num_voices` voices (clamped to `1..=MAX_AVAILABLE_VOICES`)
    /// with every voice free; voice 0 is handed out first.
    pub fn new(num_voices: usize, legato: bool) -> (r: Self)
        ensures
            r@ == initial_model(num_voices, legato),
            voices_wf(r@),
    {
        let mut free_voices: Vec<VoiceIdx> = Vec::new();
        let mut i: u8 = 20;
        while i > 0
            invariant
                i <= 20,
                free_voices@.len() == 20 - i,
                forall|j: int| 0 <= j < free_voices@.len() ==> free_voices@[j] == (19 - j) as VoiceIdx,
            decreases i,
        {
            i = i - 1;
            free_voices.push(i);
        }
        let mut triggers: Vec<Option<u16>> = Vec::new();
        while triggers.len() < MAX_VOICES
            invariant
                triggers@.len() <= MAX_VOICES,
                forall|j: int| 0 <= j < triggers@.len() ==> triggers@[j] == None::<u16>,
            decreases MAX_VOICES - triggers@.len(),
        {
            triggers.push(None);
        }
        let num_voices = if num_voices < 1 {
            1
        } else if num_voices > MAX_AVAILABLE_VOICES {
            MAX_AVAILABLE_VOICES
        } else {
            num_voices
        };
        let r = Self {
            num_voices,
            legato,
            waiting: Vec::new(),
            playing: VecDeque::new(),
            releasing: VecDeque::new(),
            killing: VecDeque::new(),
            terminate: Vec::new(),
            free_voices,
            triggers,
            seq_idx: 0,
        };
        proof {
            broadcast use vstd::multiset::group_multiset_axioms;
            broadcast use vstd::seq_lib::group_to_multiset_ensures;

            assert(r@.free_voices =~= initial_free_voices());
            assert(r@.triggers =~= no_triggers());
            assert(r@ =~= initial_model(num_voices, legato));
            lemma_all_voices_initial();
            assert(voices_of(Seq::<PlayingNote>::empty()) =~= Seq::<VoiceIdx>::empty());
            assert(Seq::<VoiceIdx>::empty().to_multiset() =~= Multiset::<VoiceIdx>::empty());
            assert(voice_multiset(r@) =~= all_voices());
        }
        r
    }

    /// Forgets the trigger offsets of the current block.
    pub fn reset_triggers(&mut self)
        requires
            voices_wf(old(self)@),
        ensures
            final(self)@ == (VoicesModel { triggers: no_triggers(), ..old(self)@ }),
            voices_wf(final(self)@),
    {
        let mut i: usize = 0;
        while i < self.triggers.len()
            invariant
                self.triggers@.len() == MAX_VOICES,
                i <= MAX_VOICES,
                forall|j: int| 0 <= j < i ==> self.triggers@[j] == None::<u16>,
                self@ == (VoicesModel { triggers: self@.triggers, ..old(self)@ }),
            decreases MAX_VOICES - i,
        {
            self.triggers.set(i, None);
            i = i + 1;
        }
        proof {
            assert(self.triggers@ =~= no_triggers());
        }
    }

    /// Note-on at in-block sample `offset`; the voice events it causes are appended
    /// to `events`.
    pub fn handle_note_on(&mut self, note: Note, offset: usize, events: &mut VoiceEvents)
        requires
            voices_wf(old(self)@),
        ensures
            final(self)@ == note_on_step(old(self)@, note, offset).0,
            final(events)@ == old(events)@ + note_on_step(old(self)@, note, offset).1,
            voices_wf(final(self)@),
    {
        self.note_on_impl(note, offset, events);
    }

    /// Note-off at in-block sample `offset`; the voice events it causes are appended
    /// to `events`.
    pub fn handle_note_off(&mut self, note: Note, offset: usize, events: &mut VoiceEvents)
        requires
            voices_wf(old(self)@),
        ensures
            final(self)@ == note_off_step(old(self)@, note, offset).0,
            final(events)@ == old(events)@ + note_off_step(old(self)@, note, offset).1,
            voices_wf(final(self)@),
    {
        let ghost m0 = self@;
        let ghost e0 = events@;

        // A held note without a voice is lifted: it just ends.
        match find_note(&self.waiting, &note) {
            Some(waiting_idx) => {
                let waiting = self.waiting.remove(waiting_idx);
                if !has_same_playing(&self.killing, &waiting) {
                    self.terminate.push(waiting);
                }
                assert(events@ =~= e0 + Seq::<VoiceEvent>::empty());
                return;
            },
            None => {},
        }

        let playing_idx = match find_playing(&self.playing, &note) {
            Some(idx) => idx,
            None => {
                assert(events@ =~= e0 + Seq::<VoiceEvent>::empty());
                return;
            },
        };
        proof {
            lemma_vm_remove_playing(m0, playing_idx as int);
        }
        let playing = self.playing.remove(playing_idx).unwrap();
        let ghost m1 = self@;

        if self.num_voices == 1 && self.legato {
            let found = rfind_on_channel(&self.waiting, note.channel);
            proof {
                crate::seq_search::lemma_last_index_props(m0.waiting, note_on_channel(note.channel));
            }
            match found {
                Some(waiting_idx) => {
                    let waiting_note = self.waiting.remove(waiting_idx);
                    self.terminate.push(playing.note);
                    let ghost m2 = self@;
                    self.legato(playing.voice_idx, waiting_note, offset, events);
                    proof {
                        lemma_vm_push_playing(
                            m2,
                            PlayingNote { note: waiting_note, voice_idx: playing.voice_idx, seq_idx: m2.seq_idx },
                        );
                        lemma_remove_insert(voice_multiset(m0), playing.voice_idx);
                    }
                    return;
                },
                None => {},
            }
        }

        self.releasing.push_front(playing);
        events.push(
            VoiceEvent::Release { voice_idx: playing.voice_idx as usize, velocity: note.velocity, offset },
        );
        proof {
            lemma_vm_push_releasing(m1, playing);
            lemma_remove_insert(voice_multiset(m0), playing.voice_idx);
        }
        let ghost e1 = events@;

        // The newest note still held gets a voice again.
        match self.waiting.pop() {
            Some(waiting_note) => {
                self.note_on_impl(waiting_note, offset, events);
                proof {
                    assert(events@ =~= e0 + note_off_step(m0, note, offset).1);
                }
            },
            None => {},
        }
    }

    pub fn set_num_voices(&mut self, num_voices: usize)
        requires
            voices_wf(old(self)@),
        ensures
            final(self)@ == (VoicesModel { num_voices: clamp_voices(num_voices), ..old(self)@ }),
            voices_wf(final(self)@),
    {
        self.num_voices = if num_voices < 1 {
            1
        } else if num_voices > MAX_AVAILABLE_VOICES {
            MAX_AVAILABLE_VOICES
        } else {
            num_voices
        };
    }

    pub fn set_legato(&mut self, legato: bool)
        requires
            voices_wf(old(self)@),
        ensures
            final(self)@ == (VoicesModel { legato, ..old(self)@ }),
            voices_wf(final(self)@),
    {
        self.legato = legato;
    }

    pub fn get_metrics(&self) -> (r: VoicesHandlerMetrics)
        ensures
            r.num_voices == self@.num_voices,
            r.legato == self@.legato,
            r.waiting == self@.waiting.len(),
            r.playing == self@.playing.len(),
            r.releasing == self@.releasing.len(),
            r.killing == self@.killing.len(),
    {
        VoicesHandlerMetrics {
            num_voices: self.num_voices,
            legato: self.legato,
            waiting: self.waiting.len(),
            playing: self.playing.len(),
            releasing: self.releasing.len(),
            killing: self.killing.len(),
        }
    }

    /// How many voices are unused.
    pub fn num_free_voices(&self) -> (r: usize)
        ensures
            r == self@.free_voices.len(),
    {
        self.free_voices.len()
    }

    /// Choke: the note stops at once, its voice becomes free, and it is reported
    /// as ended if it was known at all.
    pub fn handle_choke(&mut self, note: Note)
        requires
            voices_wf(old(self)@),
        ensures
            final(self)@ == choke_step(old(self)@, note),
            voices_wf(final(self)@),
    {
        let ghost m0 = self@;
        let mut found = false;

        match find_playing(&self.playing, &note) {
            Some(playing_idx) => {
                proof {
                    lemma_vm_remove_playing(m0, playing_idx as int);
                }
                let playing = self.playing.remove(playing_idx).unwrap();
                let ghost m1 = self@;
                self.free_voices.push(playing.voice_idx);
                proof {
                    lemma_vm_push_free(m1, playing.voice_idx);
                    lemma_remove_insert(voice_multiset(m0), playing.voice_idx);
                }
                found = true;
            },
            None => match find_playing(&self.releasing, &note) {
                Some(releasing_idx) => {
                    proof {
                        lemma_vm_remove_releasing(m0, releasing_idx as int);
                    }
                    let releasing = self.releasing.remove(releasing_idx).unwrap();
                    let ghost m1 = self@;
                    self.free_voices.push(releasing.voice_idx);
                    proof {
                        lemma_vm_push_free(m1, releasing.voice_idx);
                        lemma_remove_insert(voice_multiset(m0), releasing.voice_idx);
                    }
                    found = true;
                },
                None => match find_playing(&self.killing, &note) {
                    Some(killing_idx) => {
                        proof {
                            lemma_vm_remove_killing(m0, killing_idx as int);
                        }
                        let killing = self.killing.remove(killing_idx).unwrap();
                        let ghost m1 = self@;
                        self.free_voices.push(killing.voice_idx);
                        proof {
                            lemma_vm_push_free(m1, killing.voice_idx);
                            lemma_remove_insert(voice_multiset(m0), killing.voice_idx);
                        }
                        found = true;
                    },
                    None => {},
                },
            },
        }

        match find_note(&self.waiting, &note) {
            Some(waiting_idx) => {
                self.waiting.remove(waiting_idx);
                found = true;
            },
            None => {},
        }

        if found {
            self.terminate.push(note);
        }
    }

    /// Sends an expression change to the voice of `note`, if it has one.
    pub fn handle_expression(
        &mut self,
        note: Note,
        expression: Expression,
        offset: usize,
        value: SampleBits,
        events: &mut VoiceEvents,
    )
        ensures
            final(self)@ == old(self)@,
            final(events)@ == old(events)@ + expression_events(old(self)@, note, expression, offset, value),
    {
        let voice_idx = match find_playing(&self.playing, &note) {
            Some(i) => Some(self.playing[i].voice_idx),
            None => match find_playing(&self.releasing, &note) {
                Some(i) => Some(self.releasing[i].voice_idx),
                None => None,
            },
        };
        match voice_idx {
            Some(voice_idx) => {
                events.push(
                    VoiceEvent::Expression { voice_idx: voice_idx as usize, expression, offset, value },
                );
            },
            None => {
                assert(events@ =~= old(events)@ + Seq::<VoiceEvent>::empty());
            },
        }
    }

    /// Every note ends at once and every voice becomes free.
    pub fn choke_all_voices(&mut self)
        requires
            voices_wf(old(self)@),
        ensures
            final(self)@ == choke_all_step(old(self)@),
            voices_wf(final(self)@),
    {
        let ghost m0 = self@;

        let mut i: usize = 0;
        while i < self.playing.len()
            invariant
                i <= m0.playing.len(),
                self@ == (VoicesModel {
                    terminate: m0.terminate + notes_of(m0.playing.take(i as int)),
                    free_voices: m0.free_voices + voices_of(m0.playing.take(i as int)),
                    ..m0
                }),
            decreases m0.playing.len() - i,
        {
            let playing = self.playing[i];
            self.terminate.push(playing.note);
            self.free_voices.push(playing.voice_idx);
            proof {
                assert(notes_of(m0.playing.take(i + 1)) =~= notes_of(m0.playing.take(i as int)).push(
                    playing.note,
                ));
                assert(voices_of(m0.playing.take(i + 1)) =~= voices_of(m0.playing.take(i as int)).push(
                    playing.voice_idx,
                ));
            }
            i = i + 1;
        }
        self.playing.clear();
        proof {
            assert(m0.playing.take(m0.playing.len() as int) =~= m0.playing);
        }
        let ghost m1 = self@;

        let mut i: usize = 0;
        while i < self.releasing.len()
            invariant
                i <= m0.releasing.len(),
                m1.releasing == m0.releasing,
                m1.killing == m0.killing,
                m1.waiting == m0.waiting,
                self@ == (VoicesModel {
                    terminate: m1.terminate + notes_of(m0.releasing.take(i as int)),
                    free_voices: m1.free_voices + voices_of(m0.releasing.take(i as int)),
                    ..m1
                }),
            decreases m0.releasing.len() - i,
        {
            let releasing = self.releasing[i];
            self.terminate.push(releasing.note);
            self.free_voices.push(releasing.voice_idx);
            proof {
                assert(notes_of(m0.releasing.take(i + 1)) =~= notes_of(m0.releasing.take(i as int)).push(
                    releasing.note,
                ));
                assert(voices_of(m0.releasing.take(i + 1)) =~= voices_of(m0.releasing.take(i as int)).push(
                    releasing.voice_idx,
                ));
            }
            i = i + 1;
        }
        self.releasing.clear();
        proof {
            assert(m0.releasing.take(m0.releasing.len() as int) =~= m0.releasing);
        }
        let ghost m2 = self@;

        let mut i: usize = 0;
        while i < self.killing.len()
            invariant
                i <= m0.killing.len(),
                m2.killing == m0.killing,
                m2.waiting == m0.waiting,
                self@ == (VoicesModel {
                    terminate: m2.terminate + notes_of(killed_for_good(m0.killing.take(i as int), m0.waiting)),
                    free_voices: m2.free_voices + voices_of(m0.killing.take(i as int)),
                    ..m2
                }),
            decreases m0.killing.len() - i,
        {
            let killing = self.killing[i];
            if !has_same_note(&self.waiting, &killing.note) {
                self.terminate.push(killing.note);
            }
            self.free_voices.push(killing.voice_idx);
            proof {
                assert(m0.killing.take(i + 1) =~= m0.killing.take(i as int).push(killing));
                crate::seq_search::lemma_filter_map_push(
                    m0.killing.take(i as int),
                    killing,
                    not_held(m0.waiting),
                    note_of_playing(),
                );
                assert(voices_of(m0.killing.take(i + 1)) =~= voices_of(m0.killing.take(i as int)).push(
                    killing.voice_idx,
                ));
            }
            i = i + 1;
        }
        self.killing.clear();
        proof {
            assert(m0.killing.take(m0.killing.len() as int) =~= m0.killing);
        }
        let ghost m3 = self@;

        let mut i: usize = 0;
        while i < self.waiting.len()
            invariant
                i <= m0.waiting.len(),
                m3.waiting == m0.waiting,
                m3.terminate == m0.terminate + notes_of(m0.playing) + notes_of(m0.releasing)
                    + notes_of(killed_for_good(m0.killing, m0.waiting)),
                self@ == (VoicesModel { terminate: m3.terminate + m0.waiting.take(i as int), ..m3 }),
            decreases m0.waiting.len() - i,
        {
            let waiting = self.waiting[i];
            self.terminate.push(waiting);
            proof {
                assert(m0.waiting.take(i + 1) =~= m0.waiting.take(i as int).push(waiting));
            }
            i = i + 1;
        }
        self.waiting.clear();
        proof {
            assert(m0.waiting.take(m0.waiting.len() as int) =~= m0.waiting);
            assert(self@ =~= choke_all_step(m0));
            lemma_choke_all_wf(m0);
        }
    }

    /// Appends a decaying voice, not yet marked active, for each releasing note
    /// and then for each killing note.
    pub fn get_decaying_voices(&self, decaying_voices: &mut DecayingVoices)
        ensures
            final(decaying_voices)@.len() == old(decaying_voices)@.len() + self@.releasing.len()
                + self@.killing.len(),
            forall|i: int|
                0 <= i < old(decaying_voices)@.len() ==> final(decaying_voices)@[i] == old(
                    decaying_voices,
                )@[i],
            forall|i: int|
                0 <= i < self@.releasing.len() ==> {
                    let d = #[trigger] final(decaying_voices)@[old(decaying_voices)@.len() + i];
                    d.spec_voice_idx() == self@.releasing[i].voice_idx && !d.spec_still_active()
                },
            forall|i: int|
                0 <= i < self@.killing.len() ==> {
                    let d = #[trigger] final(decaying_voices)@[old(decaying_voices)@.len()
                        + self@.releasing.len() + i];
                    d.spec_voice_idx() == self@.killing[i].voice_idx && !d.spec_still_active()
                },
    {
        let ghost start = decaying_voices@.len();
        let mut i: usize = 0;
        while i < self.releasing.len()
            invariant
                i <= self@.releasing.len(),
                decaying_voices@.len() == start + i,
                start == old(decaying_voices)@.len(),
                forall|j: int| 0 <= j < start ==> decaying_voices@[j] == old(decaying_voices)@[j],
                forall|j: int|
                    0 <= j < i ==> {
                        let d = #[trigger] decaying_voices@[start + j];
                        d.spec_voice_idx() == self@.releasing[j].voice_idx && !d.spec_still_active()
                    },
            decreases self@.releasing.len() - i,
        {
            decaying_voices.push(DecayingVoice::new(self.releasing[i].voice_idx));
            i = i + 1;
        }
        let mut i: usize = 0;
        while i < self.killing.len()
            invariant
                i <= self@.killing.len(),
                decaying_voices@.len() == start + self@.releasing.len() + i,
                start == old(decaying_voices)@.len(),
                forall|j: int| 0 <= j < start ==> decaying_voices@[j] == old(decaying_voices)@[j],
                forall|j: int|
                    0 <= j < self@.releasing.len() ==> {
                        let d = #[trigger] decaying_voices@[start + j];
                        d.spec_voice_idx() == self@.releasing[j].voice_idx && !d.spec_still_active()
                    },
                forall|j: int|
                    0 <= j < i ==> {
                        let d = #[trigger] decaying_voices@[start + self@.releasing.len() + j];
                        d.spec_voice_idx() == self@.killing[j].voice_idx && !d.spec_still_active()
                    },
            decreases self@.killing.len() - i,
        {
            decaying_voices.push(DecayingVoice::new(self.killing[i].voice_idx));
            i = i + 1;
        }
    }

    /// Frees the voices whose decay has finished (those not marked active),
    /// then hands every note that ended since the last call to `terminated`.
    pub fn update_decaying_voices(&mut self, decaying_voices: &[DecayingVoice], terminated: &mut Vec<Note>)
        requires
            voices_wf(old(self)@),
        ensures
            final(self)@ == (VoicesModel {
                terminate: Seq::empty(),
                ..decay_all(old(self)@, decaying_voices@)
            }),
            final(terminated)@ == old(terminated)@ + decay_all(old(self)@, decaying_voices@).terminate,
            voices_wf(final(self)@),
    {
        let ghost m0 = self@;
        let mut i: usize = 0;
        while i < decaying_voices.len()
            invariant
                i <= decaying_voices@.len(),
                self@ == decay_all(m0, decaying_voices@.take(i as int)),
                voices_wf(self@),
            decreases decaying_voices@.len() - i,
        {
            let decaying = decaying_voices[i];
            proof {
                assert(decaying_voices@.take(i + 1).drop_last() =~= decaying_voices@.take(i as int));
            }
            self.decay(decaying);
            i = i + 1;
        }
        proof {
            assert(decaying_voices@.take(decaying_voices@.len() as int) =~= decaying_voices@);
        }
        terminated.append(&mut self.terminate);
    }

    fn decay(&mut self, decaying: DecayingVoice)
        requires
            voices_wf(old(self)@),
        ensures
            final(self)@ == decay_one(old(self)@, decaying),
            voices_wf(final(self)@),
    {
        let ghost m0 = self@;
        if decaying.is_done() {
            let voice_idx = decaying.voice_idx;
            match find_voice(&self.releasing, voice_idx) {
                Some(releasing_idx) => {
                    proof {
                        lemma_vm_remove_releasing(m0, releasing_idx as int);
                    }
                    let releasing = self.releasing.remove(releasing_idx).unwrap();
                    self.terminate.push(releasing.note);
                    let ghost m1 = self@;
                    self.free_voices.push(voice_idx);
                    proof {
                        lemma_vm_push_free(m1, voice_idx);
                        lemma_remove_insert(voice_multiset(m0), voice_idx);
                    }
                },
                None => match find_voice(&self.killing, voice_idx) {
                    Some(killing_idx) => {
                        proof {
                            lemma_vm_remove_killing(m0, killing_idx as int);
                        }
                        let killing = self.killing.remove(killing_idx).unwrap();
                        self.terminate_killed(killing.note);
                        let ghost m1 = self@;
                        self.free_voices.push(voice_idx);
                        proof {
                            lemma_vm_push_free(m1, voice_idx);
                            lemma_remove_insert(voice_multiset(m0), voice_idx);
                        }
                    },
                    None => {},
                },
            }
        }
    }

    /// Appends the voices that sound in this block: the playing and releasing
    /// notes newest first, then the killing ones; every voice in
    /// `playing_voices` gets the trigger offset of its voice. The appended
    /// voices are pairwise distinct valid voices, one per sounding note.
    pub fn get_playing_voices(&mut self, playing_voices: &mut PlayingVoices)
        requires
            voices_wf(old(self)@),
            forall|i: int|
                0 <= i < old(playing_voices)@.len() ==> (#[trigger] old(playing_voices)@[i]).spec_voice_idx()
                    < MAX_VOICES,
        ensures
            final(self)@ == old(self)@,
            final(playing_voices)@.len() == old(playing_voices)@.len() + old(self)@.playing.len()
                + old(self)@.releasing.len() + old(self)@.killing.len(),
            old(self)@.playing.len() + old(self)@.releasing.len() + old(self)@.killing.len() <= MAX_VOICES,
            forall|i: int|
                old(playing_voices)@.len() <= i < final(playing_voices)@.len() ==> (
                #[trigger] final(playing_voices)@[i]).spec_voice_idx() < MAX_VOICES,
            forall|i: int, j: int|
                old(playing_voices)@.len() <= i < j < final(playing_voices)@.len() ==> (
                #[trigger] final(playing_voices)@[i]).spec_voice_idx() != (
                #[trigger] final(playing_voices)@[j]).spec_voice_idx(),
            exists|order: Seq<PlayingNote>|
                {
                    &&& order.to_multiset() == (old(self)@.playing + old(self)@.releasing).to_multiset()
                    &&& newest_first(order)
                    &&& final(playing_voices)@.len() == old(playing_voices)@.len() + order.len()
                        + old(self)@.killing.len()
                    &&& forall|i: int|
                        0 <= i < old(playing_voices)@.len() ==> with_trigger(
                            old(playing_voices)@[i],
                            #[trigger] final(playing_voices)@[i],
                            old(self)@.triggers,
                        )
                    &&& forall|i: int|
                        0 <= i < order.len() ==> voice_of_note(
                            #[trigger] final(playing_voices)@[old(playing_voices)@.len() + i],
                            order[i],
                            old(self)@.triggers,
                        )
                    &&& forall|i: int|
                        0 <= i < old(self)@.killing.len() ==> voice_of_note(
                            #[trigger] final(playing_voices)@[old(playing_voices)@.len() + order.len()
                                + i],
                            old(self)@.killing[i],
                            old(self)@.triggers,
                        )
                },
    {
        let ghost m = self@;
        proof {
            lemma_owned_voices_in_range(m);
        }
        let mut order: Vec<PlayingNote> = Vec::new();
        proof {
            broadcast use vstd::seq_lib::group_to_multiset_ensures;

            assert(m.playing.take(0) =~= Seq::<PlayingNote>::empty());
            assert(order@ =~= Seq::<PlayingNote>::empty());
        }
        let mut i: usize = 0;
        while i < self.playing.len()
            invariant
                self@ == m,
                i <= m.playing.len(),
                newest_first(order@),
                order@.to_multiset() == m.playing.take(i as int).to_multiset(),
            decreases m.playing.len() - i,
        {
            insert_newest_first(&mut order, self.playing[i]);
            proof {
                broadcast use vstd::seq_lib::group_to_multiset_ensures;

                assert(m.playing.take(i + 1) =~= m.playing.take(i as int).push(m.playing[i as int]));
            }
            i = i + 1;
        }
        proof {
            assert(m.playing.take(m.playing.len() as int) =~= m.playing);
            assert(m.playing + m.releasing.take(0) =~= m.playing);
        }
        let mut i: usize = 0;
        while i < self.releasing.len()
            invariant
                self@ == m,
                i <= m.releasing.len(),
                newest_first(order@),
                order@.to_multiset() == (m.playing + m.releasing.take(i as int)).to_multiset(),
            decreases m.releasing.len() - i,
        {
            insert_newest_first(&mut order, self.releasing[i]);
            proof {
                broadcast use vstd::seq_lib::group_to_multiset_ensures;

                assert(m.playing + m.releasing.take(i + 1) =~= (m.playing + m.releasing.take(i as int)).push(
                    m.releasing[i as int],
                ));
            }
            i = i + 1;
        }
        proof {
            assert(m.playing.take(m.playing.len() as int) =~= m.playing);
            assert(m.releasing.take(m.releasing.len() as int) =~= m.releasing);
            assert(order@.to_multiset() =~= (m.playing + m.releasing).to_multiset()) by {
                broadcast use vstd::seq_lib::group_to_multiset_ensures;

            }
            assert forall|k: int| 0 <= k < order@.len() implies ((#[trigger] order@[k]).voice_idx as usize)
                < MAX_VOICES by {
                broadcast use vstd::seq_lib::group_to_multiset_ensures;

                assert(order@.contains(order@[k]));
                assert(order@.to_multiset().count(order@[k]) > 0);
                assert((m.playing + m.releasing).to_multiset().count(order@[k]) > 0);
                assert((m.playing + m.releasing).contains(order@[k]));
                let j = choose|j: int| 0 <= j < (m.playing + m.releasing).len() && (m.playing
                    + m.releasing)[j] == order@[k];
                if j < m.playing.len() {
                    assert(m.playing[j] == order@[k]);
                } else {
                    assert(m.releasing[j - m.playing.len()] == order@[k]);
                }
            }
        }

        let ghost old_voices = playing_voices@;
        let ghost start = old_voices.len();
        let mut i: usize = 0;
        while i < order.len()
            invariant
                i <= order@.len(),
                playing_voices@.len() == start + i,
                forall|k: int| 0 <= k < start ==> playing_voices@[k] == old_voices[k],
                forall|k: int|
                    0 <= k < i ==> {
                        let v = #[trigger] playing_voices@[start + k];
                        &&& v.spec_voice_idx() == order@[k].voice_idx
                        &&& v.spec_note_bandwidth() == NOTE_BANDWIDTH[order@[k].note.note as int]
                    },
            decreases order@.len() - i,
        {
            playing_voices.push(PlayingVoice::new(order[i].voice_idx, order[i].note.note));
            i = i + 1;
        }
        let mut i: usize = 0;
        while i < self.killing.len()
            invariant
                self@ == m,
                i <= m.killing.len(),
                playing_voices@.len() == start + order@.len() + i,
                forall|k: int| 0 <= k < start ==> playing_voices@[k] == old_voices[k],
                forall|k: int|
                    0 <= k < order@.len() ==> {
                        let v = #[trigger] playing_voices@[start + k];
                        &&& v.spec_voice_idx() == order@[k].voice_idx
                        &&& v.spec_note_bandwidth() == NOTE_BANDWIDTH[order@[k].note.note as int]
                    },
                forall|k: int|
                    0 <= k < i ==> {
                        let v = #[trigger] playing_voices@[start + order@.len() + k];
                        &&& v.spec_voice_idx() == m.killing[k].voice_idx
                        &&& v.spec_note_bandwidth() == NOTE_BANDWIDTH[m.killing[k].note.note as int]
                    },
            decreases m.killing.len() - i,
        {
            playing_voices.push(PlayingVoice::new(self.killing[i].voice_idx, self.killing[i].note.note));
            i = i + 1;
        }

        // Every voice learns where it was (re)started in this block.
        let ghost built = playing_voices@;
        proof {
            assert forall|k: int| 0 <= k < built.len() implies (#[trigger] built[k]).spec_voice_idx()
                < MAX_VOICES by {
                if k < start {
                    assert(built[k] == old_voices[k]);
                } else if k < start + order@.len() {
                    assert(built[start + (k - start)].spec_voice_idx() == order@[k - start].voice_idx);
                } else {
                    let j = k - start - order@.len();
                    assert(built[start + order@.len() + j].spec_voice_idx() == m.killing[j].voice_idx);
                }
            }
        }
        let mut i: usize = 0;
        while i < playing_voices.len()
            invariant
                self@ == m,
                voices_wf(m),
                i <= built.len(),
                playing_voices@.len() == built.len(),
                forall|k: int| 0 <= k < built.len() ==> (#[trigger] built[k]).spec_voice_idx() < MAX_VOICES,
                forall|k: int| 0 <= k < i ==> with_trigger(built[k], #[trigger] playing_voices@[k], m.triggers),
                forall|k: int| i <= k < built.len() ==> #[trigger] playing_voices@[k] == built[k],
            decreases built.len() - i,
        {
            let voice = playing_voices.as_slice()[i];
            let triggered = self.triggers[voice.voice_idx as usize];
            playing_voices.set(i, PlayingVoice { triggered, ..voice });
            i = i + 1;
        }
        proof {
            lemma_sounding_voices_distinct(m, order@);
            let ok = order@ + m.killing;
            assert forall|k: int| start <= k < playing_voices@.len() implies (#[trigger] playing_voices@[k]).spec_voice_idx()
                == ok[k - start].voice_idx by {
                assert(with_trigger(built[k], playing_voices@[k], m.triggers));
                if k < start + order@.len() {
                    assert(built[start + (k - start)].spec_voice_idx() == order@[k - start].voice_idx);
                } else {
                    let j = k - start - order@.len();
                    assert(built[start + order@.len() + j].spec_voice_idx() == m.killing[j].voice_idx);
                }
            }
            assert forall|a: int, b: int| start <= a < b < playing_voices@.len() implies (
            #[trigger] playing_voices@[a]).spec_voice_idx() != (#[trigger] playing_voices@[b]).spec_voice_idx() by {
                assert(ok[a - start].voice_idx != ok[b - start].voice_idx);
            }
            assert forall|k: int| start <= k < playing_voices@.len() implies (#[trigger] playing_voices@[k]).spec_voice_idx()
                < MAX_VOICES by {
                assert(with_trigger(built[k], playing_voices@[k], m.triggers));
            }
            assert forall|k: int| 0 <= k < order@.len() implies voice_of_note(
                #[trigger] playing_voices@[start + k],
                order@[k],
                m.triggers,
            ) by {
                assert(with_trigger(built[start + k], playing_voices@[start + k], m.triggers));
            }
            assert forall|k: int| 0 <= k < m.killing.len() implies voice_of_note(
                #[trigger] playing_voices@[start + order@.len() + k],
                m.killing[k],
                m.triggers,
            ) by {
                assert(with_trigger(
                    built[start + order@.len() + k],
                    playing_voices@[start + order@.len() + k],
                    m.triggers,
                ));
            }
        }
    }
}

/// Under the invariant the playing and releasing notes, in any order, followed
/// by the killing ones, hold pairwise distinct voices, at most `MAX_VOICES`.
proof fn lemma_sounding_voices_distinct(m: VoicesModel, order: Seq<PlayingNote>)
    requires
        voices_wf(m),
        order.to_multiset() == (m.playing + m.releasing).to_multiset(),
    ensures
        order.len() == m.playing.len() + m.releasing.len(),
        m.playing.len() + m.releasing.len() + m.killing.len() <= MAX_VOICES,
        forall|i: int, j: int|
            0 <= i < j < (order + m.killing).len() ==> (#[trigger] (order + m.killing)[i]).voice_idx
                != (#[trigger] (order + m.killing)[j]).voice_idx,
{
    broadcast use vstd::multiset::group_multiset_axioms;
    broadcast use vstd::seq_lib::group_to_multiset_ensures;

    lemma_some_voice(m);
    crate::voices_laws::lemma_voices_never_shared(m);
    let held = crate::voices_laws::held_voices(m);
    let f = m.free_voices.len() as int;
    let pr = m.playing + m.releasing;
    let all = pr + m.killing;
    // The voices of all sounding notes are the tail of the held voices.
    assert forall|k: int| 0 <= k < all.len() implies held[f + k] == (#[trigger] all[k]).voice_idx by {
        if k < m.playing.len() {
            assert(all[k] == m.playing[k]);
        } else if k < pr.len() {
            assert(all[k] == m.releasing[k - m.playing.len()]);
        } else {
            assert(all[k] == m.killing[k - pr.len()]);
        }
    }
    assert forall|a: int, b: int| 0 <= a < b < all.len() implies (#[trigger] all[a]).voice_idx
        != (#[trigger] all[b]).voice_idx by {
        assert(held[f + a] != held[f + b]);
    }
    // So no note sounds twice, and `order` has no repeated note either.
    assert(pr.no_duplicates()) by {
        assert forall|a: int, b: int| 0 <= a < pr.len() && 0 <= b < pr.len() && a != b implies pr[a]
            != pr[b] by {
            assert(all[a] == pr[a]);
            assert(all[b] == pr[b]);
        }
    }
    pr.lemma_multiset_has_no_duplicates();
    order.lemma_multiset_has_no_duplicates_conv();
    assert(order.to_multiset().len() == pr.to_multiset().len());
    // Each note of `order` stands somewhere in `pr`.
    assert forall|i: int| 0 <= i < order.len() implies exists|a: int|
        0 <= a < pr.len() && #[trigger] pr[a] == #[trigger] order[i] by {
        assert(order.contains(order[i]));
        assert(pr.to_multiset().count(order[i]) > 0);
        assert(pr.contains(order[i]));
    }
    let ok = order + m.killing;
    assert forall|i: int, j: int| 0 <= i < j < ok.len() implies (#[trigger] ok[i]).voice_idx
        != (#[trigger] ok[j]).voice_idx by {
        if j < order.len() {
            let a = choose|a: int| 0 <= a < pr.len() && #[trigger] pr[a] == order[i];
            let b = choose|b: int| 0 <= b < pr.len() && #[trigger] pr[b] == order[j];
            assert(order[i] != order[j]);
            assert(all[a] == pr[a]);
            assert(all[b] == pr[b]);
            if a < b {
                assert(all[a].voice_idx != all[b].voice_idx);
            } else {
                assert(all[b].voice_idx != all[a].voice_idx);
            }
        } else if i < order.len() {
            let a = choose|a: int| 0 <= a < pr.len() && #[trigger] pr[a] == order[i];
            let b = pr.len() + (j - order.len());
            assert(all[a] == pr[a]);
            assert(all[b] == m.killing[j - order.len()]);
            assert(all[a].voice_idx != all[b].voice_idx);
        } else {
            let a = pr.len() + (i - order.len());
            let b = pr.len() + (j - order.len());
            assert(all[a] == m.killing[i - order.len()]);
            assert(all[b] == m.killing[j - order.len()]);
            assert(all[a].voice_idx != all[b].voice_idx);
        }
    }
}

/// Inserts `p` after every note at least as new, keeping the order newest first.
fn insert_newest_first(sorted: &mut Vec<PlayingNote>, p: PlayingNote)
    requires
        newest_first(old(sorted)@),
    ensures
        newest_first(final(sorted)@),
        final(sorted)@.to_multiset() == old(sorted)@.to_multiset().insert(p),
        final(sorted)@.len() == old(sorted)@.len() + 1,
{
    let mut pos: usize = 0;
    while pos < sorted.len() && sorted[pos].seq_idx >= p.seq_idx
        invariant
            pos <= sorted@.len(),
            sorted@ == old(sorted)@,
            forall|j: int| 0 <= j < pos ==> (#[trigger] sorted@[j]).seq_idx >= p.seq_idx,
        decreases sorted@.len() - pos,
    {
        pos = pos + 1;
    }
    let ghost s = sorted@;
    sorted.insert(pos, p);
    proof {
        broadcast use vstd::seq_lib::group_to_multiset_ensures;

        s.insert_ensures(pos as int, p);
        assert forall|i: int, j: int| 0 <= i < j < sorted@.len() implies sorted@[i].seq_idx
            >= sorted@[j].seq_idx by {
            if j < pos {
            } else if j == pos {
            } else if i < pos {
                assert(sorted@[j] == s[j - 1]);
            } else if i == pos {
                assert(sorted@[j] == s[j - 1]);
                assert(s[pos as int].seq_idx < p.seq_idx);
                assert(s[pos as int].seq_idx >= s[j - 1].seq_idx);
            } else {
                assert(sorted@[i] == s[i - 1]);
                assert(sorted@[j] == s[j - 1]);
            }
        }
    }
}

/// After choking every note all voices are free, each once.
pub(crate) proof fn lemma_choke_all_wf(m: VoicesModel)
    requires
        voices_wf(m),
    ensures
        voices_wf(choke_all_step(m)),
{
    broadcast use vstd::multiset::group_multiset_axioms;
    broadcast use vstd::seq_lib::group_to_multiset_ensures;

    let c = choke_all_step(m);
    vstd::seq_lib::lemma_multiset_commutative(m.free_voices, voices_of(m.playing));
    vstd::seq_lib::lemma_multiset_commutative(
        m.free_voices + voices_of(m.playing),
        voices_of(m.releasing),
    );
    vstd::seq_lib::lemma_multiset_commutative(
        m.free_voices + voices_of(m.playing) + voices_of(m.releasing),
        voices_of(m.killing),
    );
    assert(voices_of(Seq::<PlayingNote>::empty()) =~= Seq::<VoiceIdx>::empty());
    assert(Seq::<VoiceIdx>::empty().to_multiset() =~= Multiset::<VoiceIdx>::empty());
    assert(voice_multiset(c) =~= voice_multiset(m));
}

} // verus!
