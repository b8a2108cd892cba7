use daw::nodes::WaveShape;
use daw::synth::{SynthVoice, VoiceBank};

/// Records how often a voice was released and whether it was releasing then.
#[derive(Debug, Default, Clone, PartialEq)]
struct Recorder {
    releases: Vec<bool>,
}

/// The release function of a `Recorder`: it notes the call.
fn record(sound: &Recorder, was_releasing: bool) -> Recorder {
    let mut r = sound.clone();
    r.releases.push(was_releasing);
    r
}

fn pitches(bank: &VoiceBank<Recorder>) -> Vec<u8> {
    bank.voices.iter().map(|v| v.pitch).collect()
}

#[test]
fn voice_bank_steals_oldest_when_full() {
    let mut bank = VoiceBank::new(2);
    bank.note_on(60, 100, Recorder::default(), &record);
    bank.note_on(64, 100, Recorder::default(), &record);
    bank.note_on(67, 100, Recorder::default(), &record);
    assert_eq!(pitches(&bank), vec![64, 67]);
    assert!(bank.active_voice_count() <= 2);
    assert_eq!(bank.active_voice_count(), 2);
}

#[test]
fn voice_bank_retriggers_same_pitch() {
    let mut bank = VoiceBank::new(4);
    bank.note_on(60, 90, Recorder::default(), &record);
    bank.note_on(60, 110, Recorder::default(), &record);
    assert_eq!(pitches(&bank), vec![60, 60]);
    assert!(bank.voices[0].releasing);
    assert_eq!(bank.voices[0].sound.releases, vec![false]);
    assert!(!bank.voices[1].releasing);
    assert_eq!(bank.voices[1].velocity, 110);
}

#[test]
fn voice_bank_note_off_releases_first_held_voice() {
    let mut bank = VoiceBank::new(4);
    bank.note_on(60, 100, Recorder::default(), &record);
    bank.note_on(62, 100, Recorder::default(), &record);
    bank.note_off(62, &record);
    assert!(!bank.voices[0].releasing);
    assert!(bank.voices[1].releasing);
    bank.note_off(62, &record);
    assert_eq!(bank.voices[1].sound.releases, vec![false]);
    bank.note_off(70, &record);
    assert!(!bank.voices[0].releasing);
}

#[test]
fn voice_bank_note_off_all_and_retain() {
    let mut bank = VoiceBank::new(4);
    bank.note_on(60, 100, Recorder::default(), &record);
    bank.note_on(62, 100, Recorder::default(), &record);
    bank.note_on(64, 100, Recorder::default(), &record);
    bank.voices[1].is_active = false;
    bank.note_off_all(&record);
    assert!(bank.voices[0].releasing);
    assert!(!bank.voices[1].releasing);
    assert!(bank.voices[2].releasing);
    assert_eq!(bank.active_voice_count(), 2);
    bank.retain_active();
    assert_eq!(pitches(&bank), vec![60, 64]);
}

#[test]
fn synth_voice_basics() {
    let mut v = SynthVoice::new(69, 100, Recorder::default());
    assert!(v.is_active());
    assert!(!v.releasing);
    v.trigger_release(&record);
    v.trigger_release(&record);
    assert!(v.releasing);
    assert_eq!(v.sound.releases, vec![false, true]);
}

/// A voice's oscillator as the synthesizer sets it up: its sample rate and
/// waveform, and whether its release has started.
struct Oscillator {
    sample_rate: u32,
    shape: WaveShape,
    releasing: bool,
}

/// The release function of an `Oscillator`.
fn release_oscillator(sound: &Oscillator, _was_releasing: bool) -> Oscillator {
    Oscillator { sample_rate: sound.sample_rate, shape: sound.shape, releasing: true }
}

#[test]
fn test_polysynth_voice_stealing() {
    let osc = || Oscillator { sample_rate: 44100, shape: WaveShape::Sine, releasing: false };
    let mut synth = VoiceBank::new(2);
    synth.note_on(60, 100, osc(), &release_oscillator);
    synth.note_on(64, 100, osc(), &release_oscillator);
    synth.note_on(67, 100, osc(), &release_oscillator); // should steal oldest voice

    assert!(synth.active_voice_count() <= 2, "Should have at most 2 voices");
    assert!(synth.voices.iter().all(|v| v.sound.sample_rate == 44100 && v.sound.shape == WaveShape::Sine));
    assert!(synth.voices.iter().all(|v| !v.sound.releasing));
}

#[test]
fn voice_bank_retain_keeps_each_voice_with_its_sound() {
    let mut bank = VoiceBank::new(4);
    bank.note_on(60, 100, Recorder { releases: vec![] }, &record);
    bank.note_on(62, 100, Recorder { releases: vec![true, true] }, &record);
    bank.note_on(64, 100, Recorder { releases: vec![true] }, &record);
    bank.note_on(65, 100, Recorder { releases: vec![false, false, false] }, &record);
    bank.voices[0].is_active = false;
    bank.voices[2].is_active = false;
    bank.retain_active();
    assert_eq!(pitches(&bank), vec![62, 65]);
    assert_eq!(bank.voices[0].sound.releases, vec![true, true]);
    assert_eq!(bank.voices[1].sound.releases, vec![false, false, false]);
}

#[test]
fn voice_bank_note_off_all_releases_each_sound_once() {
    let mut bank = VoiceBank::new(4);
    bank.note_on(60, 100, Recorder::default(), &record);
    bank.note_on(62, 100, Recorder { releases: vec![true] }, &record);
    bank.note_off(60, &record);
    bank.note_off_all(&record);
    // The first voice was already releasing: its sound is left as it was.
    assert_eq!(bank.voices[0].sound.releases, vec![false]);
    assert_eq!(bank.voices[1].sound.releases, vec![true, false]);
}

#[test]
fn synth_voice_ends_when_release_runs_out() {
    let mut v = SynthVoice::new(60, 100, Recorder::default());
    assert_eq!(v.step_envelope(9, 5), 10);
    assert!(v.is_active());
    v.trigger_release(&record);
    assert_eq!(v.step_envelope(3, 5), 4);
    assert!(v.is_active());
    assert_eq!(v.step_envelope(4, 5), 5);
    assert!(!v.is_active());
    assert!(v.releasing);
}
