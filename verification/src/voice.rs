use vstd::prelude::*;

verus! {

/// A voice as the host names it: MIDI channel and note, and the host's own id
/// for it when the host gives one.
#[derive(Debug, Clone, Copy, PartialEq, Eq, Structural)]
pub struct VoiceId {
    pub voice_id: Option<i32>,
    pub channel: u8,
    pub note: u8,
}

impl VoiceId {
    pub fn new(channel: u8, note: u8, voice_id: Option<i32>) -> (r: Self)
        ensures
            r == (VoiceId { voice_id, channel, note }),
    {
        Self { channel, note, voice_id }
    }

    /// Whether `other` names this voice: by host id when `other` has one,
    /// else by channel and note.
    pub fn match_voice(&self, other: Self) -> (r: bool)
        ensures
            r == match other.voice_id {
                Some(_) => other.voice_id == self.voice_id,
                None => other.note == self.note && other.channel == self.channel,
            },
    {
        match other.voice_id {
            Some(other_id) => match self.voice_id {
                Some(id) => id == other_id,
                None => false,
            },
            None => other.note == self.note && other.channel == self.channel,
        }
    }

    /// Whether this voice has host id `other_voice_id`.
    pub fn match_by_voice_id(&self, other_voice_id: i32) -> (r: bool)
        ensures
            r == (self.voice_id == Some(other_voice_id)),
    {
        match self.voice_id {
            Some(voice_id) => voice_id == other_voice_id,
            None => false,
        }
    }

    /// Whether `other` plays the same note on the same channel.
    pub fn match_by_note(&self, other: Self) -> (r: bool)
        ensures
            r == (self.channel == other.channel && self.note == other.note),
    {
        self.channel == other.channel && self.note == other.note
    }
}

} // verus!
