//! Verified core of a digital audio workstation engine: MIDI track and
//! sequencing logic, the audio graph's structure, automation curve lookup,
//! the triple-buffer slot protocol, and the software render target.

pub mod midi;
pub mod graph;
pub mod triple_buffer;
pub mod automation;
pub mod render;
pub mod nodes;
pub mod project;
pub mod synth;
pub mod engine;
pub mod delay;
pub mod collab;
