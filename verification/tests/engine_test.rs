use std::collections::HashMap;

use daw::engine::{AudioCommand, EngineState};
use daw::nodes::AudioEngineConfig;

fn apply(state: &mut EngineState<f32>, v: &mut HashMap<usize, f32>, p: &mut HashMap<usize, f32>, c: AudioCommand<f32>) {
    state.apply_command(v, p, c, 1.0, 0.0);
}

#[test]
fn engine_transport_and_tempo() {
    let mut state = EngineState::new(120.0f32, 1.0f32);
    let mut v = HashMap::new();
    let mut p = HashMap::new();
    assert!(!state.is_playing);
    apply(&mut state, &mut v, &mut p, AudioCommand::StartPlayback);
    assert!(state.is_playing);
    apply(&mut state, &mut v, &mut p, AudioCommand::SetTempo { bpm: 140.0 });
    assert_eq!(state.tempo_bpm, 140.0);
    state.advance_playhead(512);
    state.advance_playhead(512);
    assert_eq!(state.playhead_sample, 1024);
    apply(&mut state, &mut v, &mut p, AudioCommand::StopPlayback);
    state.advance_playhead(512);
    assert_eq!(state.playhead_sample, 1024);
    apply(&mut state, &mut v, &mut p, AudioCommand::NoteOn { pitch: 60, velocity: 100 });
    apply(&mut state, &mut v, &mut p, AudioCommand::NoteOff { pitch: 60 });
    assert!(!state.is_playing);
    assert!(v.is_empty() && p.is_empty());
}

#[test]
fn engine_track_levels() {
    let mut state = EngineState::new(120.0f32, 1.0f32);
    let mut v = HashMap::new();
    let mut p = HashMap::new();
    apply(&mut state, &mut v, &mut p, AudioCommand::SetVolume { track_id: 0, value: 0.8 });
    assert_eq!(v.get(&0), Some(&0.8));
    apply(&mut state, &mut v, &mut p, AudioCommand::AddTrack { track_id: 0 });
    assert_eq!(v.get(&0), Some(&0.8));
    assert_eq!(p.get(&0), Some(&0.0));
    apply(&mut state, &mut v, &mut p, AudioCommand::SetPan { track_id: 0, value: -0.5 });
    assert_eq!(p.get(&0), Some(&-0.5));
    apply(&mut state, &mut v, &mut p, AudioCommand::AddTrack { track_id: 3 });
    assert_eq!(v.get(&3), Some(&1.0));
    apply(&mut state, &mut v, &mut p, AudioCommand::RemoveTrack { track_id: 0 });
    assert_eq!(v.get(&0), None);
    assert_eq!(p.get(&0), None);
    assert_eq!(v.len(), 1);
    apply(&mut state, &mut v, &mut p, AudioCommand::AddTrack { track_id: 0 });
    assert_eq!(v.get(&0), Some(&1.0));
    assert_eq!(p.get(&0), Some(&0.0));
}

#[test]
fn engine_config_fields() {
    let config = AudioEngineConfig { sample_rate: 44100, buffer_size: 512, num_tracks: 4 };
    let copy = config;
    assert_eq!(copy, AudioEngineConfig { sample_rate: 44100, buffer_size: 512, num_tracks: 4 });
}

#[test]
fn engine_applies_commands_in_order() {
    let cmds = vec![
        AudioCommand::AddTrack { track_id: 1 },
        AudioCommand::SetVolume { track_id: 1, value: 0.5 },
        AudioCommand::StartPlayback,
        AudioCommand::SetTempo { bpm: 140.0 },
        AudioCommand::NoteOn { pitch: 60, velocity: 100 },
        AudioCommand::RemoveTrack { track_id: 1 },
        AudioCommand::AddTrack { track_id: 1 },
        AudioCommand::SetPan { track_id: 2, value: 0.25 },
    ];
    let mut batch = EngineState::new(120.0f32, 1.0f32);
    let (mut bv, mut bp) = (HashMap::new(), HashMap::new());
    batch.apply_commands(&mut bv, &mut bp, &cmds, 1.0, 0.0);

    let mut single = EngineState::new(120.0f32, 1.0f32);
    let (mut sv, mut sp) = (HashMap::new(), HashMap::new());
    for &c in &cmds {
        apply(&mut single, &mut sv, &mut sp, c);
    }
    assert_eq!(bv, sv);
    assert_eq!(bp, sp);
    assert_eq!((batch.is_playing, batch.tempo_bpm), (single.is_playing, single.tempo_bpm));
    assert!(batch.is_playing);
    assert_eq!(batch.tempo_bpm, 140.0);
    assert_eq!(bv.get(&1), Some(&1.0));
    assert_eq!(bp.get(&2), Some(&0.25));
}
