use vstd::prelude::*;

use crate::voices_handler::PlayingVoice;

verus! {

/// What a module processes in one pass: one channel of one sounding voice.
#[derive(Debug, Clone, Copy, PartialEq, Eq, Structural)]
pub struct VoiceTarget {
    pub channel_idx: usize,
    pub voice_idx: usize,
    pub note_bandwidth: usize,
    pub triggered: Option<usize>,
    pub is_last: bool,
}

/// The target for channel `channel_idx` of `voice`, at position `seq_idx` among
/// the active voices.
pub open spec fn voice_target_for(channel_idx: usize, voice: PlayingVoice, seq_idx: usize) -> VoiceTarget {
    VoiceTarget {
        channel_idx,
        voice_idx: voice.spec_voice_idx() as usize,
        note_bandwidth: voice.spec_note_bandwidth() as usize,
        triggered: match voice.spec_triggered() {
            Some(offset) => Some(offset as usize),
            None => None,
        },
        is_last: seq_idx == 0,
    }
}

impl VoiceTarget {
    pub fn new(channel_idx: usize, voice: &PlayingVoice, seq_idx: usize) -> (r: Self)
        ensures
            r == voice_target_for(channel_idx, *voice, seq_idx),
    {
        VoiceTarget {
            channel_idx,
            voice_idx: voice.voice_idx(),
            note_bandwidth: voice.note_bandwidth(),
            triggered: voice.triggered(),
            is_last: seq_idx == 0,
        }
    }

    /// Whether this pass reports modulated values to the editor: only the last
    /// pass over the voices, and only in blocks that update the editor.
    pub fn needs_ui_update(&self, block_updates_ui: bool) -> (r: bool)
        ensures
            r == (self.is_last && block_updates_ui),
    {
        self.is_last && block_updates_ui
    }

    /// As `needs_ui_update`, for values shown once for both channels: only the
    /// pass over the first channel reports them.
    pub fn needs_ui_update_mono(&self, block_updates_ui: bool) -> (r: bool)
        ensures
            r == (self.is_last && self.channel_idx == 0 && block_updates_ui),
    {
        self.is_last && self.channel_idx == 0 && block_updates_ui
    }
}

} // verus!
