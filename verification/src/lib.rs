//! Verified core logic of a modular synthesizer engine: runtime sample
//! buffers, audio device bookkeeping, patch-graph analysis and validation,
//! MIDI byte parsing, RIFF wavetable probing and DSL code rendering.

pub mod buffer;
pub mod text;
pub mod devices;
pub mod json;
pub mod graph;
pub mod validation;
pub mod midi;
pub mod wav;
pub mod wav_file;
pub mod engine;
pub mod mix;
pub mod poly_mix;
pub mod type_resolver;
pub mod codegen;
pub mod enosc;
pub mod midi_cv;
pub mod resolve;
pub mod midi_gate;
pub mod midi_cc;
pub mod id_sample;
pub mod scope;
pub mod clock;
pub mod wav_cache;
pub mod id_map;
pub mod midi_inputs;
pub mod perf_log;
pub mod metadata;
pub mod generate_args;
pub mod synth;
