# rustortion

The verified core of a guitar and bass amp simulator (standalone JACK
application and CLAP/VST3 plugin), written in Verus.

`src/` is the library, every function of it verified:

- `preset/` — presets and their stage chains, the preset manager (which file
  a save writes and a delete removes), preset-file naming by percent-encoding
  (which decodes back to the name wherever it fits whole) with an FNV-1a
  digest for names too long for that, the migration of legacy preset files, and the
  plan for loading a preset into the engine.
- `nam/` — display summaries of Neural Amp Modeler models (read through
  `nam-rs`), the model loader, and the registry stages resolve models from.
- `audio/` — the oversampling block FIFO and its routing and latency
  decisions, the engine's per-block plan, how the engine applies its queued
  messages (stage bounds and capacity, bypass, reordering, the cabinet,
  tuner, recorder and pitch shifter, and what goes to the real-time drop
  queue), the recorder's buffer sizing, the peak meter's hold timing and
  the flush-to-zero control bits.
- `host.rs` — the plugin's per-block decisions: preset and oversampling
  changes, one-shot reports, which output frames are silenced, latency
  re-reporting, the tail it claims, and
  how an activation restores its chain and how the editor opens.
- `factory.rs`, `ir.rs`, `gui.rs`, `collation.rs`, `text.rs` — embedded
  content lookup, cabinet settings, editor state, stable sorting by name and
  character-level text helpers.

`app/` is ordinary Rust around it: preset files on disk and the factory
presets, the model folder and the process-wide registry handle, WAV
recording, the `rubato` resamplers, the peak meter's and the tails'
floating-point arithmetic, and the denormal control register. The amp
stages and chain, the engine object that owns them, the cabinet convolver,
the pitch shifter and the plugin and editor shells are not part of this
crate. `tests/` exercises the library from
outside.
