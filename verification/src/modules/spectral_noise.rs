use vstd::prelude::*;

use crate::routing::{MAX_VOICES, VoiceEvent};

verus! {

/// The spectral slope of generated noise.
#[derive(Debug, Default, Clone, Copy, PartialEq, Eq, Structural)]
pub enum NoiseColor {
    #[default]
    White,
    Pink,
    Brown,
}

impl NoiseColor {
    /// Every color, in the order the UI lists them.
    pub fn all() -> (r: [NoiseColor; 3])
        ensures
            r@ == seq![NoiseColor::White, NoiseColor::Pink, NoiseColor::Brown],
    {
        [NoiseColor::White, NoiseColor::Pink, NoiseColor::Brown]
    }

    /// The label shown in the UI.
    pub fn label(self) -> (s: &'static str)
        ensures
            self == NoiseColor::White ==> s@ == "White"@,
            self == NoiseColor::Pink ==> s@ == "Pink"@,
            self == NoiseColor::Brown ==> s@ == "Brown"@,
    {
        match self {
            Self::White => "White",
            Self::Pink => "Pink",
            Self::Brown => "Brown",
        }
    }
}

/// The bandwidth setting limited to `0..=max_bandwidth`; 0 makes the
/// bandwidth follow the note's pitch.
pub fn clamp_bandwidth(bandwidth: i32, max_bandwidth: i32) -> (r: i32)
    requires
        0 <= max_bandwidth,
    ensures
        r == if bandwidth < 0 {
            0
        } else if bandwidth > max_bandwidth {
            max_bandwidth
        } else {
            bandwidth
        },
{
    if bandwidth < 0 {
        0
    } else if bandwidth > max_bandwidth {
        max_bandwidth
    } else {
        bandwidth
    }
}

/// The number of bins the noise fills, counting the DC bin.
pub open spec fn spec_spectrum_length(bandwidth: i32, pitch_bandwidth: usize, spectrum_size: usize) -> usize {
    let harmonics: int = if bandwidth == 0 {
        pitch_bandwidth as int
    } else {
        bandwidth as int
    };
    if harmonics + 1 < spectrum_size {
        (harmonics + 1) as usize
    } else {
        spectrum_size
    }
}

/// With a pitch-based bandwidth, a note with fewer harmonics below the band
/// limit (a higher note) never fills more bins, and at least the DC bin is
/// filled whenever the spectrum has one.
pub proof fn lemma_spectrum_length_follows_pitch(pitch_bandwidth_low: usize, pitch_bandwidth_high: usize, spectrum_size: usize)
    requires
        pitch_bandwidth_high <= pitch_bandwidth_low,
    ensures
        spec_spectrum_length(0, pitch_bandwidth_high, spectrum_size) <= spec_spectrum_length(
            0,
            pitch_bandwidth_low,
            spectrum_size,
        ),
        spectrum_size >= 1 ==> spec_spectrum_length(0, pitch_bandwidth_high, spectrum_size) >= 1,
        pitch_bandwidth_high < pitch_bandwidth_low && pitch_bandwidth_high + 1 < spectrum_size
            ==> spec_spectrum_length(0, pitch_bandwidth_high, spectrum_size) < spec_spectrum_length(
            0,
            pitch_bandwidth_low,
            spectrum_size,
        ),
{
}

/// The number of bins the noise fills: the DC bin and `bandwidth` harmonics,
/// or, for a bandwidth of 0, the `pitch_bandwidth` harmonics of the note below
/// the band limit; at most `spectrum_size`.
pub fn spectrum_length(bandwidth: i32, pitch_bandwidth: usize, spectrum_size: usize) -> (r: usize)
    requires
        bandwidth >= 0,
    ensures
        r == spec_spectrum_length(bandwidth, pitch_bandwidth, spectrum_size),
{
    let harmonics: usize = if bandwidth == 0 {
        pitch_bandwidth
    } else {
        bandwidth as usize
    };
    if harmonics < spectrum_size {
        harmonics + 1
    } else {
        spectrum_size
    }
}

/// What happens to a voice's noise phases before it renders.
#[derive(Debug, Clone, Copy, PartialEq, Eq, Structural)]
pub enum PhaseAction {
    /// The voice was not (re)started: its phases stay.
    Keep,
    /// Take over the phases of the voice it replaced.
    CopyFrom(usize),
    /// Draw new random phases.
    Randomize,
}

/// Per voice, whether it was (re)started and which voice it replaced.
pub open spec fn resets_after(
    pending: Seq<Option<Option<usize>>>,
    events: Seq<VoiceEvent>,
) -> Seq<Option<Option<usize>>>
    decreases events.len(),
{
    if events.len() == 0 {
        pending
    } else {
        let before = resets_after(pending, events.drop_last());
        match events.last() {
            VoiceEvent::Reset { voice_idx, prev_voice_idx, .. } => before.update(
                voice_idx as int,
                Some(prev_voice_idx),
            ),
            _ => before,
        }
    }
}

/// Every reset event names a voice that exists.
pub open spec fn resets_in_range(events: Seq<VoiceEvent>) -> bool {
    forall|i: int|
        0 <= i < events.len() ==> match #[trigger] events[i] {
            VoiceEvent::Reset { voice_idx, .. } => voice_idx < MAX_VOICES,
            _ => true,
        }
}

/// The phase action for a voice with pending reset `pending` (`None`: not
/// restarted; `Some(replaced)`: restarted, replacing `replaced` if any).
pub open spec fn phase_action(pending: Option<Option<usize>>, voice_idx: usize, steal_phase: bool) -> PhaseAction {
    match pending {
        None => PhaseAction::Keep,
        Some(replaced) => match replaced {
            Some(src) => if steal_phase && src != voice_idx {
                PhaseAction::CopyFrom(src)
            } else {
                PhaseAction::Randomize
            },
            None => PhaseAction::Randomize,
        },
    }
}

/// The noise module's record of which voices were (re)started and which voice
/// each replaced, so that their phases can be renewed or stolen before they render.
pub struct PhaseResets {
    pending: Vec<Option<Option<usize>>>,
}

impl View for PhaseResets {
    type V = Seq<Option<Option<usize>>>;

    closed spec fn view(&self) -> Seq<Option<Option<usize>>> {
        self.pending@
    }
}

impl PhaseResets {
    /// No voice restarted.
    pub fn new() -> (r: Self)
        ensures
            r@ == Seq::new(MAX_VOICES as nat, |i: int| None::<Option<usize>>),
    {
        let mut pending: Vec<Option<Option<usize>>> = Vec::new();
        while pending.len() < MAX_VOICES
            invariant
                pending@.len() <= MAX_VOICES,
                forall|j: int| 0 <= j < pending@.len() ==> pending@[j] == None::<Option<usize>>,
            decreases MAX_VOICES - pending@.len(),
        {
            pending.push(None);
        }
        proof {
            assert(pending@ =~= Seq::new(MAX_VOICES as nat, |i: int| None::<Option<usize>>));
        }
        PhaseResets { pending }
    }

    /// Records every voice that a reset event (re)starts, with the voice it replaced.
    pub fn process_events(&mut self, events: &[VoiceEvent])
        requires
            old(self)@.len() == MAX_VOICES,
            resets_in_range(events@),
        ensures
            final(self)@ == resets_after(old(self)@, events@),
            final(self)@.len() == MAX_VOICES,
    {
        let mut i: usize = 0;
        while i < events.len()
            invariant
                i <= events@.len(),
                resets_in_range(events@),
                self@ == resets_after(old(self)@, events@.take(i as int)),
                self@.len() == MAX_VOICES,
            decreases events@.len() - i,
        {
            proof {
                assert(events@.take(i + 1).drop_last() =~= events@.take(i as int));
            }
            match events[i] {
                VoiceEvent::Reset { voice_idx, prev_voice_idx, .. } => {
                    self.pending.set(voice_idx, Some(prev_voice_idx));
                },
                _ => {},
            }
            i = i + 1;
        }
        proof {
            assert(events@.take(events@.len() as int) =~= events@);
        }
    }

    /// What to do with the phases of `voice_idx` before it renders; its
    /// pending reset is used up.
    pub fn take(&mut self, voice_idx: usize, steal_phase: bool) -> (r: PhaseAction)
        requires
            voice_idx < old(self)@.len(),
        ensures
            r == phase_action(old(self)@[voice_idx as int], voice_idx, steal_phase),
            final(self)@ == old(self)@.update(voice_idx as int, None),
    {
        let pending = self.pending[voice_idx];
        self.pending.set(voice_idx, None);
        match pending {
            None => PhaseAction::Keep,
            Some(replaced) => match replaced {
                Some(src) => if steal_phase && src != voice_idx {
                    PhaseAction::CopyFrom(src)
                } else {
                    PhaseAction::Randomize
                },
                None => PhaseAction::Randomize,
            },
        }
    }
}

} // verus!
