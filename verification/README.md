# additizer

The voice allocation, routing and buffer bookkeeping of a modular
additive/spectral synthesizer engine, as a Verus library.

- `src/voices_handler.rs` — the voice allocator (polyphonic with voice
  stealing, or monophonic with legato) and its model; `src/voices_laws.rs` —
  what holds of it across operations (no voice is ever shared, polyphony stays
  within the voice count, finished decays free every voice, ...).
- `src/routing.rs`, `src/routing/` — module inputs and links, the output-slot
  arena, per-voice render targets and states, spectrum buffers.
- `src/routing_graph.rs`, `src/ui_bridge.rs` — cycle detection, what the
  editor may link where, module labels and positions, modulated values.
- `src/modules/` — the band list of the equalizer, which sources each module
  reads, the mixer's settings, the noise module's phase resets and bandwidth,
  and which of an oscillator voice's two wave buffers is rebuilt each block.
- `src/types.rs`, `src/phase.rs`, `src/stereo_sample.rs` — double buffers,
  oscillator phase arithmetic, stereo values (as `f32` bit patterns).

Samples are `f32`; the library carries them as bit patterns and leaves the
arithmetic on them to `app/`, which also holds the serialized forms of the
library's types.
