use daw::midi::{MidiMessage, MidiSequencer, MidiTrack, NoteCommand};

#[test]
fn test_midi_track_sort_and_duration() {
    let mut track = MidiTrack::new("test");
    track.add_event(480, MidiMessage::NoteOff { channel: 0, pitch: 60 });
    track.add_event(0, MidiMessage::NoteOn { channel: 0, pitch: 60, velocity: 100 });
    track.add_event(240, MidiMessage::NoteOn { channel: 0, pitch: 64, velocity: 90 });

    assert_eq!(track.duration_ticks(), 480);

    track.sort();
    assert_eq!(track.events[0].tick, 0);
    assert_eq!(track.events[1].tick, 240);
    assert_eq!(track.events[2].tick, 480);
}

#[test]
fn test_midi_sequencer_advance() {
    let mut track = MidiTrack::new("test");
    // NoteOn at tick 0, NoteOff at tick 480 (120 bpm, 480 ticks per beat at 44100 Hz: sample 22050)
    track.add_event(0, MidiMessage::NoteOn { channel: 0, pitch: 60, velocity: 100 });
    track.add_event(480, MidiMessage::NoteOff { channel: 0, pitch: 60 });

    let mut seq = MidiSequencer::new(track, vec![0, 22050]);

    let cmds = seq.advance(22050);
    assert_eq!(cmds.len(), 1, "Should get NoteOn");
    assert!(matches!(cmds[0], NoteCommand::NoteOn { pitch: 60, velocity: 100 }));

    let cmds = seq.advance(22050);
    assert_eq!(cmds.len(), 1, "Should get NoteOff");
    assert!(matches!(cmds[0], NoteCommand::NoteOff { pitch: 60 }));

    assert!(seq.is_finished());
}

#[test]
fn midi_track_new_is_empty() {
    let track = MidiTrack::new("Lead");
    assert_eq!(track.name, "Lead");
    assert!(track.events.is_empty());
    assert_eq!(track.duration_ticks(), 0);
}

#[test]
fn midi_add_event_appends_in_call_order() {
    let mut track = MidiTrack::new("t");
    track.add_event(10, MidiMessage::AllNotesOff { channel: 2 });
    track.add_event(5, MidiMessage::PitchBend { channel: 1, value: -300 });
    assert_eq!(track.events.len(), 2);
    assert_eq!(track.events[0].tick, 10);
    assert_eq!(track.events[0].message, MidiMessage::AllNotesOff { channel: 2 });
    assert_eq!(track.events[1].tick, 5);
    assert_eq!(track.events[1].message, MidiMessage::PitchBend { channel: 1, value: -300 });
}

#[test]
fn midi_sort_is_stable_for_equal_ticks() {
    let mut track = MidiTrack::new("stable");
    track.add_event(100, MidiMessage::NoteOn { channel: 0, pitch: 1, velocity: 1 });
    track.add_event(50, MidiMessage::NoteOn { channel: 0, pitch: 2, velocity: 1 });
    track.add_event(100, MidiMessage::NoteOn { channel: 0, pitch: 3, velocity: 1 });
    track.add_event(50, MidiMessage::NoteOn { channel: 0, pitch: 4, velocity: 1 });
    track.add_event(0, MidiMessage::NoteOn { channel: 0, pitch: 5, velocity: 1 });
    track.add_event(100, MidiMessage::NoteOn { channel: 0, pitch: 6, velocity: 1 });
    track.sort();
    let pitches: Vec<u8> = track
        .events
        .iter()
        .map(|e| match e.message {
            MidiMessage::NoteOn { pitch, .. } => pitch,
            _ => 0,
        })
        .collect();
    assert_eq!(pitches, vec![5, 2, 4, 1, 3, 6]);
    let ticks: Vec<u64> = track.events.iter().map(|e| e.tick).collect();
    assert_eq!(ticks, vec![0, 50, 50, 100, 100, 100]);
}

#[test]
fn midi_sort_keeps_duration() {
    let mut track = MidiTrack::new("d");
    for t in [300u64, 7, 900, 900, 12, 0] {
        track.add_event(t, MidiMessage::AllNotesOff { channel: 0 });
    }
    let before = track.duration_ticks();
    track.sort();
    assert_eq!(before, 900);
    assert_eq!(track.duration_ticks(), 900);
    assert_eq!(track.events.len(), 6);
}

#[test]
fn midi_sequencer_skips_other_messages_and_stops_at_future_event() {
    let mut track = MidiTrack::new("mixed");
    track.add_event(0, MidiMessage::ControlChange { channel: 0, controller: 7, value: 100 });
    track.add_event(0, MidiMessage::NoteOn { channel: 3, pitch: 64, velocity: 80 });
    track.add_event(960, MidiMessage::NoteOff { channel: 3, pitch: 64 });
    track.add_event(10, MidiMessage::NoteOn { channel: 3, pitch: 67, velocity: 80 });
    let mut seq = MidiSequencer::new(track, vec![0, 0, 5000, 10]);

    let cmds = seq.advance(100);
    assert_eq!(cmds, vec![NoteCommand::NoteOn { pitch: 64, velocity: 80 }]);
    assert_eq!(seq.next_event_idx, 2);
    assert_eq!(seq.current_sample, 100);
    assert!(!seq.is_finished());

    let cmds = seq.advance(4900);
    assert!(cmds.is_empty());
    assert_eq!(seq.next_event_idx, 2);

    let cmds = seq.advance(1);
    assert_eq!(
        cmds,
        vec![NoteCommand::NoteOff { pitch: 64 }, NoteCommand::NoteOn { pitch: 67, velocity: 80 }]
    );
    assert!(seq.is_finished());

    seq.reset();
    assert_eq!(seq.current_sample, 0);
    assert_eq!(seq.next_event_idx, 0);
    assert!(!seq.is_finished());
}

#[test]
fn midi_sequencer_block_size_does_not_change_what_plays() {
    let make = || {
        let mut track = MidiTrack::new("blocks");
        track.add_event(0, MidiMessage::NoteOn { channel: 0, pitch: 60, velocity: 90 });
        track.add_event(1, MidiMessage::NoteOn { channel: 0, pitch: 64, velocity: 91 });
        track.add_event(2, MidiMessage::NoteOff { channel: 0, pitch: 60 });
        track.add_event(3, MidiMessage::NoteOff { channel: 0, pitch: 64 });
        MidiSequencer::new(track, vec![0, 150, 299, 300])
    };
    let mut split = make();
    let mut first = split.advance(100);
    first.extend(split.advance(200));
    let mut whole = make();
    let all = whole.advance(300);
    assert_eq!(first, all);
    assert_eq!(all.len(), 3);
    assert_eq!(split.next_event_idx, whole.next_event_idx);
    assert_eq!(split.next_event_idx, 3);
    assert_eq!(split.current_sample, whole.current_sample);
}

#[test]
fn midi_sorting_twice_changes_nothing() {
    let mut track = MidiTrack::new("twice");
    track.add_event(30, MidiMessage::NoteOn { channel: 0, pitch: 1, velocity: 1 });
    track.add_event(10, MidiMessage::NoteOn { channel: 0, pitch: 2, velocity: 1 });
    track.add_event(30, MidiMessage::NoteOff { channel: 0, pitch: 3 });
    track.add_event(10, MidiMessage::NoteOff { channel: 0, pitch: 4 });
    track.sort();
    let once: Vec<_> = track.events.clone();
    track.sort();
    assert_eq!(track.events, once);
}
