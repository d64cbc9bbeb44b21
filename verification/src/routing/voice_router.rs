use vstd::prelude::*;

use crate::routing::process_context::{VoiceTarget, voice_target_for};
use crate::voices_handler::PlayingVoice;

verus! {

/// The kind of output a router writes: audio, control, spectral or the
/// engine's own output.
pub trait RouterDataType {}

/// Routing for a module with an audio-rate output in samples slot `samples_slot`.
pub struct AudioRouterType {
    pub samples_slot: usize,
}

impl RouterDataType for AudioRouterType {}

/// Routing for a module with a control-rate output in samples slot `samples_slot`.
pub struct ControlRouterType {
    pub samples_slot: usize,
}

impl RouterDataType for ControlRouterType {}

/// Routing for a module with a spectral output in spectral slot `spectral_slot`.
pub struct SpectralRouterType {
    pub spectral_slot: usize,
}

impl RouterDataType for SpectralRouterType {}

/// Routing for the engine's output, which has no slot of its own.
pub struct OutputRouterType;

impl RouterDataType for OutputRouterType {}

/// The number of spectrum bins a voice uses: the block-wide harmonic count when
/// one is set, else the voice's own, plus the DC bin.
pub open spec fn spec_voice_bandwidth(params_bandwidth: usize, note_bandwidth: usize) -> int {
    (if params_bandwidth == 0 {
        note_bandwidth
    } else {
        params_bandwidth
    }) + 1
}

pub fn voice_bandwidth(params_bandwidth: usize, note_bandwidth: usize) -> (r: usize)
    requires
        spec_voice_bandwidth(params_bandwidth, note_bandwidth) <= usize::MAX,
    ensures
        r == spec_voice_bandwidth(params_bandwidth, note_bandwidth),
{
    let bandwidth: usize = if params_bandwidth == 0 {
        note_bandwidth
    } else {
        params_bandwidth
    };
    bandwidth + 1
}

/// How many of `len` spectrum bins a reader with `bandwidth` bins sees.
pub fn spectral_prefix_len(len: usize, bandwidth: usize) -> (r: usize)
    ensures
        r == if len < bandwidth {
            len
        } else {
            bandwidth
        },
{
    if len < bandwidth {
        len
    } else {
        bandwidth
    }
}

/// Per-voice state of an audio-rate router. Audio is sample aligned: a voice
/// (re)started at sample `offset` of the block is silent before it.
#[derive(Debug, Clone, Copy)]
pub struct AudioVoiceState {
    pub offset: usize,
    pub bandwidth: usize,
    pub triggered: bool,
}

impl AudioVoiceState {
    pub fn for_target(target: &VoiceTarget, params_bandwidth: usize) -> (r: Self)
        requires
            spec_voice_bandwidth(params_bandwidth, target.note_bandwidth) <= usize::MAX,
        ensures
            r.offset == match target.triggered {
                Some(offset) => offset,
                None => 0,
            },
            r.bandwidth == spec_voice_bandwidth(params_bandwidth, target.note_bandwidth),
            r.triggered == target.triggered.is_some(),
    {
        AudioVoiceState {
            offset: match target.triggered {
                Some(offset) => offset,
                None => 0,
            },
            bandwidth: voice_bandwidth(params_bandwidth, target.note_bandwidth),
            triggered: target.triggered.is_some(),
        }
    }

    /// The samples of a block of `block_samples` that the voice renders.
    pub fn samples(&self, block_samples: usize) -> (r: usize)
        requires
            self.offset <= block_samples,
        ensures
            r == block_samples - self.offset,
    {
        block_samples - self.offset
    }
}

/// Per-voice state of a control-rate router. Control runs one sample ahead: a
/// voice that was not (re)started starts at offset 1, after the seeded first sample.
#[derive(Debug, Clone, Copy)]
pub struct ControlVoiceState {
    pub offset: usize,
    pub triggered: bool,
}

impl ControlVoiceState {
    pub fn for_target(target: &VoiceTarget) -> (r: Self)
        ensures
            r.offset == match target.triggered {
                Some(offset) => offset,
                None => 1,
            },
            r.triggered == target.triggered.is_some(),
    {
        ControlVoiceState {
            offset: match target.triggered {
                Some(offset) => offset,
                None => 1,
            },
            triggered: target.triggered.is_some(),
        }
    }

    /// The control samples of a block of `block_samples` the voice renders,
    /// including the one that looks ahead.
    pub fn samples(&self, block_samples: usize) -> (r: usize)
        requires
            self.offset <= block_samples,
            block_samples - self.offset < usize::MAX,
        ensures
            r == block_samples - self.offset + 1,
    {
        block_samples - self.offset + 1
    }

    /// The index into the voice's output of in-block sample `offset`.
    pub fn block_to_voice_offset(&self, offset: usize) -> (r: usize)
        ensures
            r == if offset < self.offset {
                0
            } else {
                offset - self.offset
            },
    {
        offset.saturating_sub(self.offset)
    }
}

/// Per-voice state of a spectral router: spectra are block rate, so only the
/// bandwidth and the trigger offset matter.
#[derive(Debug, Clone, Copy)]
pub struct SpectralVoiceState {
    pub bandwidth: usize,
    pub triggered: Option<usize>,
}

impl SpectralVoiceState {
    pub fn for_target(target: &VoiceTarget, params_bandwidth: usize) -> (r: Self)
        requires
            spec_voice_bandwidth(params_bandwidth, target.note_bandwidth) <= usize::MAX,
        ensures
            r.bandwidth == spec_voice_bandwidth(params_bandwidth, target.note_bandwidth),
            r.triggered == target.triggered,
    {
        SpectralVoiceState {
            bandwidth: voice_bandwidth(params_bandwidth, target.note_bandwidth),
            triggered: target.triggered,
        }
    }
}

/// Per-voice state of the output router.
#[derive(Debug, Clone, Copy)]
pub struct OutputVoiceState;

/// The passes of channel `channel_idx` over the active voices, in order. With
/// `repeat_triggered`, a voice (re)started in this block gets a second pass
/// without its trigger, so that it renders both the old and the new frame.
pub open spec fn channel_targets(channel_idx: usize, voices: Seq<PlayingVoice>, repeat_triggered: bool) -> Seq<
    VoiceTarget,
>
    decreases voices.len(),
{
    if voices.len() == 0 {
        Seq::empty()
    } else {
        let t = voice_target_for(channel_idx, voices.last(), (voices.len() - 1) as usize);
        channel_targets(channel_idx, voices.drop_last(), repeat_triggered) + if repeat_triggered
            && t.triggered is Some {
            seq![t, VoiceTarget { triggered: None, ..t }]
        } else {
            seq![t]
        }
    }
}

/// The passes over channels `0..num_channels`, channel by channel.
pub open spec fn all_targets(num_channels: nat, voices: Seq<PlayingVoice>, repeat_triggered: bool) -> Seq<
    VoiceTarget,
>
    decreases num_channels,
{
    if num_channels == 0 {
        Seq::empty()
    } else {
        all_targets((num_channels - 1) as nat, voices, repeat_triggered) + channel_targets(
            (num_channels - 1) as usize,
            voices,
            repeat_triggered,
        )
    }
}

/// The order in which a module renders its output slot: every channel, and
/// within it every active voice.
pub fn voice_targets(num_channels: usize, active_voices: &[PlayingVoice], repeat_triggered: bool) -> (r: Vec<
    VoiceTarget,
>)
    ensures
        r@ == all_targets(num_channels as nat, active_voices@, repeat_triggered),
{
    let mut r: Vec<VoiceTarget> = Vec::new();
    let mut channel_idx: usize = 0;
    while channel_idx < num_channels
        invariant
            channel_idx <= num_channels,
            r@ == all_targets(channel_idx as nat, active_voices@, repeat_triggered),
        decreases num_channels - channel_idx,
    {
        let ghost before = r@;
        let mut seq_idx: usize = 0;
        while seq_idx < active_voices.len()
            invariant
                channel_idx < num_channels,
                seq_idx <= active_voices@.len(),
                before == all_targets(channel_idx as nat, active_voices@, repeat_triggered),
                r@ == before + channel_targets(
                    channel_idx,
                    active_voices@.take(seq_idx as int),
                    repeat_triggered,
                ),
            decreases active_voices@.len() - seq_idx,
        {
            let ghost prefix = active_voices@.take(seq_idx + 1);
            proof {
                assert(prefix.drop_last() =~= active_voices@.take(seq_idx as int));
                assert(prefix.last() == active_voices@[seq_idx as int]);
            }
            let target = VoiceTarget::new(channel_idx, &active_voices[seq_idx], seq_idx);
            r.push(target);
            if repeat_triggered && target.triggered.is_some() {
                r.push(VoiceTarget { triggered: None, ..target });
            }
            proof {
                let tail = if repeat_triggered && target.triggered is Some {
                    seq![target, VoiceTarget { triggered: None, ..target }]
                } else {
                    seq![target]
                };
                assert(channel_targets(channel_idx, prefix, repeat_triggered) == channel_targets(
                    channel_idx,
                    active_voices@.take(seq_idx as int),
                    repeat_triggered,
                ) + tail);
                assert(r@ =~= before + channel_targets(channel_idx, prefix, repeat_triggered));
            }
            seq_idx = seq_idx + 1;
        }
        proof {
            assert(active_voices@.take(active_voices@.len() as int) =~= active_voices@);
        }
        channel_idx = channel_idx + 1;
    }
    r
}

/// The number of voices of `voices` (re)started in this block.
pub open spec fn triggered_count(voices: Seq<PlayingVoice>) -> nat
    decreases voices.len(),
{
    if voices.len() == 0 {
        0
    } else {
        triggered_count(voices.drop_last()) + if voices.last().spec_triggered() is Some {
            1nat
        } else {
            0nat
        }
    }
}

/// The passes over one channel: one per voice, and with `repeat_triggered`
/// one more per voice (re)started in this block.
pub proof fn lemma_channel_targets_len(channel_idx: usize, voices: Seq<PlayingVoice>, repeat_triggered: bool)
    ensures
        channel_targets(channel_idx, voices, repeat_triggered).len() == voices.len() + if repeat_triggered {
            triggered_count(voices)
        } else {
            0
        },
    decreases voices.len(),
{
    if voices.len() > 0 {
        lemma_channel_targets_len(channel_idx, voices.drop_last(), repeat_triggered);
    }
}

/// A module renders `num_channels` times the passes of one channel: every
/// voice once, and with `repeat_triggered` each (re)started voice twice.
pub proof fn lemma_all_targets_len(num_channels: nat, voices: Seq<PlayingVoice>, repeat_triggered: bool)
    ensures
        all_targets(num_channels, voices, repeat_triggered).len() == num_channels * (voices.len() + if repeat_triggered {
            triggered_count(voices)
        } else {
            0
        }),
    decreases num_channels,
{
    if num_channels > 0 {
        lemma_all_targets_len((num_channels - 1) as nat, voices, repeat_triggered);
        lemma_channel_targets_len((num_channels - 1) as usize, voices, repeat_triggered);
        let per = voices.len() + if repeat_triggered {
            triggered_count(voices)
        } else {
            0
        };
        let n1 = (num_channels - 1) as nat;
        assert(all_targets(num_channels, voices, repeat_triggered).len() == all_targets(n1, voices, repeat_triggered).len()
            + channel_targets(n1 as usize, voices, repeat_triggered).len());
        assert(num_channels * per == n1 * per + per) by (nonlinear_arith)
            requires
                n1 + 1 == num_channels,
        ;
        assert(all_targets(n1, voices, repeat_triggered).len() == n1 * per);
        assert(channel_targets(n1 as usize, voices, repeat_triggered).len() == per);
        assert(all_targets(num_channels, voices, repeat_triggered).len() == num_channels * per);
    } else {
        assert(all_targets(num_channels, voices, repeat_triggered).len() == 0);
    }
}

} // verus!
