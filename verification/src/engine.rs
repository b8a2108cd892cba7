//! The engine's response to commands from the user interface: transport,
//! tempo, and per-track volume and pan.  Levels are of the caller's type.
use vstd::prelude::*;
use std::collections::HashMap;

verus! {

broadcast use vstd::std_specs::hash::group_hash_axioms;

/// A command from the user interface to the audio engine; `V` is the type of
/// volumes, pans and tempos.
#[derive(Debug, Clone, Copy, PartialEq)]
pub enum AudioCommand<V> {
    NoteOn { pitch: u8, velocity: u8 },
    NoteOff { pitch: u8 },
    SetVolume { track_id: usize, value: V },
    SetPan { track_id: usize, value: V },
    AddTrack { track_id: usize },
    RemoveTrack { track_id: usize },
    StartPlayback,
    StopPlayback,
    SetTempo { bpm: V },
}

/// The transport and master settings of the engine.
#[derive(Debug, Clone, Copy)]
pub struct EngineState<V> {
    pub is_playing: bool,
    pub playhead_sample: u64,
    pub tempo_bpm: V,
    pub master_volume: V,
}

/// The engine state and the volume and pan maps after one command, as
/// `apply_command` leaves them.
pub open spec fn after_command<V>(
    state: EngineState<V>,
    volumes: Map<usize, V>,
    pans: Map<usize, V>,
    cmd: AudioCommand<V>,
    unity_volume: V,
    centre_pan: V,
) -> (EngineState<V>, Map<usize, V>, Map<usize, V>) {
    let s = EngineState {
        is_playing: match cmd {
            AudioCommand::StartPlayback => true,
            AudioCommand::StopPlayback => false,
            _ => state.is_playing,
        },
        tempo_bpm: match cmd {
            AudioCommand::SetTempo { bpm } => bpm,
            _ => state.tempo_bpm,
        },
        ..state
    };
    let v = match cmd {
        AudioCommand::SetVolume { track_id, value } => volumes.insert(track_id, value),
        AudioCommand::AddTrack { track_id } => if volumes.contains_key(track_id) {
            volumes
        } else {
            volumes.insert(track_id, unity_volume)
        },
        AudioCommand::RemoveTrack { track_id } => volumes.remove(track_id),
        _ => volumes,
    };
    let p = match cmd {
        AudioCommand::SetPan { track_id, value } => pans.insert(track_id, value),
        AudioCommand::AddTrack { track_id } => if pans.contains_key(track_id) {
            pans
        } else {
            pans.insert(track_id, centre_pan)
        },
        AudioCommand::RemoveTrack { track_id } => pans.remove(track_id),
        _ => pans,
    };
    (s, v, p)
}

/// The engine state and the volume and pan maps after `cmds`, applied one
/// after the other in order.
pub open spec fn after_commands<V>(
    state: EngineState<V>,
    volumes: Map<usize, V>,
    pans: Map<usize, V>,
    cmds: Seq<AudioCommand<V>>,
    unity_volume: V,
    centre_pan: V,
) -> (EngineState<V>, Map<usize, V>, Map<usize, V>)
    decreases cmds.len(),
{
    if cmds.len() == 0 {
        (state, volumes, pans)
    } else {
        let (s, v, p) = after_commands(state, volumes, pans, cmds.drop_last(), unity_volume, centre_pan);
        after_command(s, v, p, cmds.last(), unity_volume, centre_pan)
    }
}

impl<V> EngineState<V> {
    /// Stopped at sample 0 with the given tempo and master volume.
    pub fn new(tempo_bpm: V, master_volume: V) -> (s: EngineState<V>)
        ensures
            !s.is_playing,
            s.playhead_sample == 0,
            s.tempo_bpm == tempo_bpm,
            s.master_volume == master_volume,
    {
        EngineState { is_playing: false, playhead_sample: 0, tempo_bpm, master_volume }
    }

    /// Moves the playhead on by one block while playing.
    pub fn advance_playhead(&mut self, block_len: u64)
        requires
            old(self).is_playing ==> old(self).playhead_sample + block_len <= u64::MAX,
        ensures
            final(self).is_playing == old(self).is_playing,
            final(self).tempo_bpm == old(self).tempo_bpm,
            final(self).master_volume == old(self).master_volume,
            final(self).playhead_sample == if old(self).is_playing {
                (old(self).playhead_sample + block_len) as u64
            } else {
                old(self).playhead_sample
            },
    {
        if self.is_playing {
            self.playhead_sample = self.playhead_sample + block_len;
        }
    }

    /// Applies one command to the state and to the track levels `volumes` and
    /// `pans`, by track id: note messages change nothing here; volume and pan
    /// set a track's level; adding a track gives it `unity_volume` and
    /// `centre_pan` unless it already has a level; removing a track drops its
    /// levels; the transport starts and stops; the tempo is set.
    pub fn apply_command(
        &mut self,
        volumes: &mut HashMap<usize, V>,
        pans: &mut HashMap<usize, V>,
        cmd: AudioCommand<V>,
        unity_volume: V,
        centre_pan: V,
    )
        ensures
            (*final(self), final(volumes)@, final(pans)@) == after_command(
                *old(self),
                old(volumes)@,
                old(pans)@,
                cmd,
                unity_volume,
                centre_pan,
            ),
            final(self).playhead_sample == old(self).playhead_sample,
            final(self).master_volume == old(self).master_volume,
            final(self).is_playing == match cmd {
                AudioCommand::StartPlayback => true,
                AudioCommand::StopPlayback => false,
                _ => old(self).is_playing,
            },
            final(self).tempo_bpm == match cmd {
                AudioCommand::SetTempo { bpm } => bpm,
                _ => old(self).tempo_bpm,
            },
            final(volumes)@ == match cmd {
                AudioCommand::SetVolume { track_id, value } => old(volumes)@.insert(track_id, value),
                AudioCommand::AddTrack { track_id } => if old(volumes)@.contains_key(track_id) {
                    old(volumes)@
                } else {
                    old(volumes)@.insert(track_id, unity_volume)
                },
                AudioCommand::RemoveTrack { track_id } => old(volumes)@.remove(track_id),
                _ => old(volumes)@,
            },
            final(pans)@ == match cmd {
                AudioCommand::SetPan { track_id, value } => old(pans)@.insert(track_id, value),
                AudioCommand::AddTrack { track_id } => if old(pans)@.contains_key(track_id) {
                    old(pans)@
                } else {
                    old(pans)@.insert(track_id, centre_pan)
                },
                AudioCommand::RemoveTrack { track_id } => old(pans)@.remove(track_id),
                _ => old(pans)@,
            },
    {
        match cmd {
            AudioCommand::NoteOn { .. } => {},
            AudioCommand::NoteOff { .. } => {},
            AudioCommand::SetVolume { track_id, value } => {
                volumes.insert(track_id, value);
            },
            AudioCommand::SetPan { track_id, value } => {
                pans.insert(track_id, value);
            },
            AudioCommand::AddTrack { track_id } => {
                if !volumes.contains_key(&track_id) {
                    volumes.insert(track_id, unity_volume);
                }
                if !pans.contains_key(&track_id) {
                    pans.insert(track_id, centre_pan);
                }
            },
            AudioCommand::RemoveTrack { track_id } => {
                volumes.remove(&track_id);
                pans.remove(&track_id);
            },
            AudioCommand::StartPlayback => {
                self.is_playing = true;
            },
            AudioCommand::StopPlayback => {
                self.is_playing = false;
            },
            AudioCommand::SetTempo { bpm } => {
                self.tempo_bpm = bpm;
            },
        }
    }

    /// Applies `cmds` one after the other, in order, each as `apply_command`
    /// does.
    pub fn apply_commands(
        &mut self,
        volumes: &mut HashMap<usize, V>,
        pans: &mut HashMap<usize, V>,
        cmds: &Vec<AudioCommand<V>>,
        unity_volume: V,
        centre_pan: V,
    )
        where
            V: Copy,
        ensures
            (*final(self), final(volumes)@, final(pans)@) == after_commands(
                *old(self),
                old(volumes)@,
                old(pans)@,
                cmds@,
                unity_volume,
                centre_pan,
            ),
            cmds@.len() > 0 && cmds@.last() is StartPlayback ==> final(self).is_playing,
            cmds@.len() > 0 && cmds@.last() is StopPlayback ==> !final(self).is_playing,
            final(self).playhead_sample == old(self).playhead_sample,
            final(self).master_volume == old(self).master_volume,
    {
        proof {
            lemma_batch_transport(*old(self), old(volumes)@, old(pans)@, cmds@, unity_volume, centre_pan);
        }
        let mut i: usize = 0;
        while i < cmds.len()
            invariant
                i <= cmds@.len(),
                (*self, volumes@, pans@) == after_commands(
                    *old(self),
                    old(volumes)@,
                    old(pans)@,
                    cmds@.take(i as int),
                    unity_volume,
                    centre_pan,
                ),
            decreases cmds.len() - i,
        {
            proof {
                assert(cmds@.take(i + 1).drop_last() =~= cmds@.take(i as int));
                assert(cmds@.take(i + 1).last() == cmds@[i as int]);
            }
            let cmd = cmds[i];
            self.apply_command(volumes, pans, cmd, unity_volume, centre_pan);
            i += 1;
        }
        proof {
            assert(cmds@.take(cmds@.len() as int) =~= cmds@);
        }
    }
}

/// Adding a track after removing it starts it afresh at unity volume and
/// centre pan, whatever levels it had: the maps as they stand after
/// `RemoveTrack` then `AddTrack` for the same id.
pub proof fn lemma_readded_track_starts_fresh<V>(
    volumes: Map<usize, V>,
    pans: Map<usize, V>,
    track_id: usize,
    unity_volume: V,
    centre_pan: V,
)
    ensures
        ({
            let v = volumes.remove(track_id);
            let p = pans.remove(track_id);
            &&& (if v.contains_key(track_id) {
                v
            } else {
                v.insert(track_id, unity_volume)
            })[track_id] == unity_volume
            &&& (if p.contains_key(track_id) {
                p
            } else {
                p.insert(track_id, centre_pan)
            })[track_id] == centre_pan
        }),
{
}

/// Adding a track that already has levels keeps them.
pub proof fn lemma_adding_existing_track_keeps_levels<V>(volumes: Map<usize, V>, track_id: usize, unity_volume: V)
    requires
        volumes.contains_key(track_id),
    ensures
        (if volumes.contains_key(track_id) {
            volumes
        } else {
            volumes.insert(track_id, unity_volume)
        }) == volumes,
{
}

/// A batch of commands is its commands applied one by one, in order, the
/// first included: no commands change nothing, one command is that command,
/// and a command added at the end is applied to what the rest left.
pub proof fn lemma_commands_one_by_one<V>(
    state: EngineState<V>,
    volumes: Map<usize, V>,
    pans: Map<usize, V>,
    cmds: Seq<AudioCommand<V>>,
    c: AudioCommand<V>,
    unity_volume: V,
    centre_pan: V,
)
    ensures
        after_commands(state, volumes, pans, Seq::empty(), unity_volume, centre_pan) == (
            state,
            volumes,
            pans,
        ),
        after_commands(state, volumes, pans, seq![c], unity_volume, centre_pan) == after_command(
            state,
            volumes,
            pans,
            c,
            unity_volume,
            centre_pan,
        ),
        ({
            let (s, v, p) = after_commands(state, volumes, pans, cmds, unity_volume, centre_pan);
            after_commands(state, volumes, pans, cmds.push(c), unity_volume, centre_pan)
                == after_command(s, v, p, c, unity_volume, centre_pan)
        }),
{
    assert(seq![c].drop_last() =~= Seq::<AudioCommand<V>>::empty());
    assert(cmds.push(c).drop_last() =~= cmds);
}

/// The transport and tempo after a batch follow its last command: a batch
/// that ends in `StartPlayback` leaves the engine playing, one that ends in
/// `StopPlayback` leaves it stopped, one that ends in `SetTempo` leaves that
/// tempo; and the playhead and master volume never change.
pub proof fn lemma_batch_transport<V>(
    state: EngineState<V>,
    volumes: Map<usize, V>,
    pans: Map<usize, V>,
    cmds: Seq<AudioCommand<V>>,
    unity_volume: V,
    centre_pan: V,
)
    ensures
        ({
            let after = after_commands(state, volumes, pans, cmds, unity_volume, centre_pan).0;
            &&& cmds.len() > 0 && cmds.last() is StartPlayback ==> after.is_playing
            &&& cmds.len() > 0 && cmds.last() is StopPlayback ==> !after.is_playing
            &&& cmds.len() > 0 ==> (cmds.last() matches AudioCommand::SetTempo { bpm }
                ==> after.tempo_bpm == bpm)
            &&& after.playhead_sample == state.playhead_sample
            &&& after.master_volume == state.master_volume
        }),
    decreases cmds.len(),
{
    if cmds.len() > 0 {
        lemma_batch_transport(state, volumes, pans, cmds.drop_last(), unity_volume, centre_pan);
    }
}

} // verus!
