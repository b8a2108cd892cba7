//! Parameter-free node kinds, filter kinds, oscillator shapes and analysers
//! whose processing runs on samples outside this crate.
use vstd::prelude::*;

verus! {

/// Sums all of its inputs.
#[derive(Debug, Clone, Copy, PartialEq, Eq, Structural)]
pub struct MixerNode;

/// Sums all of its inputs, scaled by the master volume.
#[derive(Debug, Clone, Copy, PartialEq, Eq, Structural)]
pub struct MasterNode;

/// The response of a biquad filter.
#[derive(Debug, Clone, Copy, PartialEq, Eq, Structural)]
pub enum BiquadType {
    LowPass,
    HighPass,
    BandPass,
    Notch,
    PeakEQ,
    LowShelf,
    HighShelf,
}

/// The waveform of a synthesizer voice.
#[derive(Debug, Clone, Copy, PartialEq, Eq, Structural)]
pub enum WaveShape {
    Sine,
    Sawtooth,
    Square,
    Triangle,
}

/// Suggests equaliser settings for a buffer of audio.
#[derive(Debug, Clone, Copy, PartialEq, Eq, Structural)]
pub struct SmartEq;

impl SmartEq {
    pub fn new() -> (eq: SmartEq)
        ensures
            eq == SmartEq,
    {
        SmartEq
    }
}

impl Default for SmartEq {
    fn default() -> (eq: SmartEq)
        ensures
            eq == SmartEq,
    {
        SmartEq
    }
}

/// Sets up profiling.  No profiler is built in: the application installs
/// its own tracing subscriber, so there is nothing to do.
pub fn init_profiling() {
}

/// Settings of a stem separator.
#[derive(Debug, Clone, Copy, PartialEq, Eq, Structural)]
pub struct StemSeparatorConfig {
    pub sample_rate: u32,
}

/// Splits audio into bass, drums, vocals and other stems by frequency band.
#[derive(Debug, Clone, Copy, PartialEq, Eq, Structural)]
pub struct StemSeparator {
    pub config: StemSeparatorConfig,
}

impl StemSeparator {
    pub fn new(config: StemSeparatorConfig) -> (s: StemSeparator)
        ensures
            s.config == config,
    {
        StemSeparator { config }
    }
}

/// The shape of an audio engine: sample rate, block length and track count.
#[derive(Debug, Clone, Copy, PartialEq, Eq, Structural)]
pub struct AudioEngineConfig {
    pub sample_rate: u32,
    pub buffer_size: usize,
    pub num_tracks: usize,
}

} // verus!
