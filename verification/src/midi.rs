use vstd::prelude::*;

verus! {

/// A MIDI channel message.
#[allow(inconsistent_fields)]
#[derive(Debug, Clone, Copy, PartialEq, Eq, Structural)]
pub enum MidiMessage {
    NoteOn { channel: u8, pitch: u8, velocity: u8 },
    NoteOff { channel: u8, pitch: u8 },
    ControlChange { channel: u8, controller: u8, value: u8 },
    ProgramChange { channel: u8, program: u8 },
    PitchBend { channel: u8, value: i16 },
    AfterTouch { channel: u8, pressure: u8 },
    AllNotesOff { channel: u8 },
}

/// A message stamped with its position in ticks.
#[derive(Debug, Clone, Copy, PartialEq, Eq, Structural)]
pub struct MidiEvent {
    pub tick: u64,
    pub message: MidiMessage,
}

/// A named list of timed MIDI events.
#[derive(Debug, Clone)]
pub struct MidiTrack {
    pub name: String,
    pub events: Vec<MidiEvent>,
}

/// The largest tick among `events`, or 0 when there are none.
pub open spec fn max_tick(events: Seq<MidiEvent>) -> u64
    decreases events.len(),
{
    if events.len() == 0 {
        0
    } else {
        let rest = max_tick(events.drop_last());
        if events.last().tick > rest {
            events.last().tick
        } else {
            rest
        }
    }
}

/// Every event's tick is at most the tick of each event after it.
pub open spec fn sorted_by_tick(s: Seq<MidiEvent>) -> bool {
    forall|i: int, j: int| 0 <= i <= j < s.len() ==> #[trigger] s[i].tick <= #[trigger] s[j].tick
}

/// Some position of `origin` holds `j`.
pub open spec fn is_drawn_from(origin: Seq<int>, j: int) -> bool {
    exists|k: int| 0 <= k < origin.len() && #[trigger] origin[k] == j
}

/// `origin` maps each position of `arranged` to the position of `events` that the
/// event there came from: a bijection under which events with equal ticks keep
/// their relative order.
pub open spec fn is_stable_arrangement(
    events: Seq<MidiEvent>,
    arranged: Seq<MidiEvent>,
    origin: Seq<int>,
) -> bool {
    &&& arranged.len() == events.len()
    &&& origin.len() == events.len()
    &&& forall|k: int|
        0 <= k < origin.len() ==> 0 <= #[trigger] origin[k] < events.len() && arranged[k]
            == events[origin[k]]
    &&& forall|k: int, l: int|
        0 <= k < l < origin.len() ==> #[trigger] origin[k] != #[trigger] origin[l]
    &&& forall|j: int| 0 <= j < events.len() ==> #[trigger] is_drawn_from(origin, j)
    &&& forall|k: int, l: int|
        0 <= k < l < origin.len() && arranged[k].tick == arranged[l].tick ==> #[trigger] origin[k]
            < #[trigger] origin[l]
}

/// `arranged` is `events` sorted by tick, stably: the one order that sorts by tick
/// and keeps events with equal ticks in the order they had.
pub open spec fn is_stable_sort_by_tick(events: Seq<MidiEvent>, arranged: Seq<MidiEvent>) -> bool {
    &&& sorted_by_tick(arranged)
    &&& exists|origin: Seq<int>| is_stable_arrangement(events, arranged, origin)
}

impl MidiTrack {
    /// An empty track called `name`.
    pub fn new(name: &str) -> (track: MidiTrack)
        ensures
            track.name@ == name@,
            track.events@ == Seq::<MidiEvent>::empty(),
    {
        MidiTrack { name: name.to_owned(), events: Vec::new() }
    }

    /// Appends an event at `tick`, after every event already in the track.
    pub fn add_event(&mut self, tick: u64, message: MidiMessage)
        ensures
            final(self).name == old(self).name,
            final(self).events@ == old(self).events@.push(MidiEvent { tick, message }),
    {
        self.events.push(MidiEvent { tick, message });
    }

    /// Sorts the events by tick, keeping events with equal ticks in the order
    /// they were added.
    pub fn sort(&mut self)
        ensures
            final(self).name == old(self).name,
            is_stable_sort_by_tick(old(self).events@, final(self).events@),
    {
        let n = self.events.len();
        let mut sorted: Vec<MidiEvent> = Vec::new();
        let ghost mut origin: Seq<int> = Seq::empty();
        let mut i: usize = 0;
        while i < n
            invariant
                n == self.events.len(),
                i <= n,
                sorted.len() == i,
                origin.len() == i,
                sorted_by_tick(sorted@),
                forall|k: int|
                    0 <= k < i ==> 0 <= #[trigger] origin[k] < i && sorted@[k]
                        == self.events@[origin[k]],
                forall|k: int, l: int| 0 <= k < l < i ==> #[trigger] origin[k] != #[trigger] origin[l],
                forall|j: int| 0 <= j < i ==> #[trigger] is_drawn_from(origin, j),
                forall|k: int, l: int|
                    0 <= k < l < i && sorted@[k].tick == sorted@[l].tick ==> #[trigger] origin[k]
                        < #[trigger] origin[l],
            decreases n - i,
        {
            let e = self.events[i];
            let mut pos = sorted.len();
            while pos > 0 && sorted[pos - 1].tick > e.tick
                invariant
                    pos <= sorted.len(),
                    forall|k: int| pos <= k < sorted.len() ==> #[trigger] sorted@[k].tick > e.tick,
                decreases pos,
            {
                pos -= 1;
            }
            assert(forall|k: int| 0 <= k < pos ==> #[trigger] sorted@[k].tick <= e.tick) by {
                if pos > 0 {
                    assert forall|k: int| 0 <= k < pos implies #[trigger] sorted@[k].tick
                        <= e.tick by {
                        assert(sorted@[k].tick <= sorted@[pos - 1].tick);
                    }
                }
            }
            let ghost before = sorted@;
            sorted.insert(pos, e);
            let ghost old_origin = origin;
            proof {
                origin = origin.insert(pos as int, i as int);
                assert forall|k: int, l: int| 0 <= k <= l < sorted.len() implies #[trigger] sorted@[k].tick
                    <= #[trigger] sorted@[l].tick by {
                    if k < pos && l > pos {
                        assert(before[k].tick <= before[l - 1].tick);
                    } else if k > pos {
                        assert(before[k - 1].tick <= before[l - 1].tick);
                    } else if l < pos {
                        assert(before[k].tick <= before[l].tick);
                    }
                }
                assert forall|k: int| 0 <= k < i + 1 implies 0 <= #[trigger] origin[k] < i + 1
                    && sorted@[k] == self.events@[origin[k]] by {
                    if k > pos {
                        assert(origin[k] == origin.remove(pos as int)[k - 1]);
                    }
                }
                assert forall|k: int, l: int| 0 <= k < l < i + 1 implies #[trigger] origin[k]
                    != #[trigger] origin[l] by {
                    if k < pos && l > pos {
                        assert(origin[l] == origin.remove(pos as int)[l - 1]);
                    }
                }
                assert forall|j: int| 0 <= j < i + 1 implies #[trigger] is_drawn_from(origin, j) by {
                    if j == i {
                        assert(origin[pos as int] == j);
                    } else {
                        assert(is_drawn_from(old_origin, j));
                        let k0 = choose|k: int| 0 <= k < old_origin.len() && #[trigger] old_origin[k] == j;
                        if k0 < pos {
                            assert(origin[k0] == j);
                        } else {
                            assert(origin[k0 + 1] == j);
                        }
                    }
                }
                assert forall|k: int, l: int|
                    0 <= k < l < i + 1 && sorted@[k].tick == sorted@[l].tick implies #[trigger] origin[k]
                        < #[trigger] origin[l] by {
                    if k == pos {
                        assert(sorted@[l] == before[l - 1]);
                    }
                }
            }
            i += 1;
        }
        proof {
            assert(is_stable_arrangement(self.events@, sorted@, origin));
        }
        self.events = sorted;
    }

    /// The tick of the latest event, or 0 for an empty track.
    pub fn duration_ticks(&self) -> (d: u64)
        ensures
            d == max_tick(self.events@),
    {
        let mut d: u64 = 0;
        let mut i: usize = 0;
        while i < self.events.len()
            invariant
                i <= self.events.len(),
                d == max_tick(self.events@.take(i as int)),
            decreases self.events.len() - i,
        {
            assert(self.events@.take(i + 1).drop_last() =~= self.events@.take(i as int));
            if self.events[i].tick > d {
                d = self.events[i].tick;
            }
            i += 1;
        }
        assert(self.events@.take(i as int) =~= self.events@);
        d
    }
}

/// What a sequencer asks a synthesizer to do.
#[derive(Debug, Clone, Copy, PartialEq, Eq, Structural)]
pub enum NoteCommand {
    NoteOn { pitch: u8, velocity: u8 },
    NoteOff { pitch: u8 },
}

/// The note command an event turns into, if any: note-on and note-off
/// messages do, every other message does not.
pub open spec fn note_command_of(message: MidiMessage) -> Option<NoteCommand> {
    match message {
        MidiMessage::NoteOn { pitch, velocity, .. } => Some(NoteCommand::NoteOn { pitch, velocity }),
        MidiMessage::NoteOff { pitch, .. } => Some(NoteCommand::NoteOff { pitch }),
        _ => None,
    }
}

/// The note commands of `events`, in order.
pub open spec fn note_commands(events: Seq<MidiEvent>) -> Seq<NoteCommand>
    decreases events.len(),
{
    if events.len() == 0 {
        Seq::empty()
    } else {
        let rest = note_commands(events.drop_last());
        match note_command_of(events.last().message) {
            Some(c) => rest.push(c),
            None => rest,
        }
    }
}

/// The index at which playing stops when it starts at event `from` and the
/// block ends at sample `end`: the first event from `from` on whose sample
/// position is not before `end`, or the end of the track.
pub open spec fn play_stop(samples: Seq<u64>, from: int, end: int) -> int
    decreases samples.len() - from,
{
    if from < 0 || from >= samples.len() {
        from
    } else if samples[from] >= end {
        from
    } else {
        play_stop(samples, from + 1, end)
    }
}

/// Plays a track block by block.  Each event has a sample position (from the
/// tempo in effect); a block hands out, in track order, the events not yet
/// played that fall before the block's end, stopping at the first that does
/// not.
pub struct MidiSequencer {
    pub track: MidiTrack,
    /// The sample position of each event of the track.
    pub event_samples: Vec<u64>,
    pub current_sample: u64,
    pub next_event_idx: usize,
}

impl MidiSequencer {
    /// One sample position per event, and the next event within the track.
    pub open spec fn wf(&self) -> bool {
        &&& self.event_samples.len() == self.track.events.len()
        &&& self.next_event_idx <= self.track.events.len()
    }

    /// A sequencer at the start of `track`, whose events fall at
    /// `event_samples`.
    pub fn new(track: MidiTrack, event_samples: Vec<u64>) -> (s: MidiSequencer)
        requires
            event_samples.len() == track.events.len(),
        ensures
            s.wf(),
            s.track == track,
            s.event_samples == event_samples,
            s.current_sample == 0,
            s.next_event_idx == 0,
    {
        MidiSequencer { track, event_samples, current_sample: 0, next_event_idx: 0 }
    }

    /// Back to the start of the track.
    pub fn reset(&mut self)
        ensures
            final(self).track == old(self).track,
            final(self).event_samples == old(self).event_samples,
            final(self).current_sample == 0,
            final(self).next_event_idx == 0,
    {
        self.current_sample = 0;
        self.next_event_idx = 0;
    }

    /// Plays the next `num_samples` samples: the events from the next one on
    /// whose sample position lies before the end of this block, up to the
    /// first that does not, become note commands (other messages are passed
    /// over).
    pub fn advance(&mut self, num_samples: u64) -> (cmds: Vec<NoteCommand>)
        requires
            old(self).wf(),
            old(self).current_sample + num_samples <= u64::MAX,
        ensures
            final(self).wf(),
            final(self).track == old(self).track,
            final(self).event_samples == old(self).event_samples,
            final(self).current_sample == old(self).current_sample + num_samples,
            old(self).next_event_idx <= final(self).next_event_idx,
            final(self).next_event_idx == play_stop(
                old(self).event_samples@,
                old(self).next_event_idx as int,
                old(self).current_sample + num_samples,
            ),
            forall|k: int|
                old(self).next_event_idx <= k < final(self).next_event_idx ==> #[trigger] old(
                    self,
                ).event_samples@[k] < old(self).current_sample + num_samples,
            final(self).next_event_idx < old(self).track.events.len() ==> old(
                self,
            ).event_samples@[final(self).next_event_idx as int] >= old(self).current_sample
                + num_samples,
            cmds@ == note_commands(
                old(self).track.events@.subrange(
                    old(self).next_event_idx as int,
                    final(self).next_event_idx as int,
                ),
            ),
    {
        let mut commands: Vec<NoteCommand> = Vec::new();
        let window_end = self.current_sample + num_samples;
        let start = self.next_event_idx;
        let n = self.track.events.len();
        while self.next_event_idx < n
            invariant_except_break
                self.wf(),
                n == self.track.events.len(),
                start <= self.next_event_idx <= n,
                self.track == old(self).track,
                self.event_samples == old(self).event_samples,
                self.current_sample == old(self).current_sample,
                forall|k: int|
                    start <= k < self.next_event_idx ==> #[trigger] self.event_samples@[k] < window_end,
                commands@ == note_commands(
                    self.track.events@.subrange(start as int, self.next_event_idx as int),
                ),
                play_stop(self.event_samples@, start as int, window_end as int) == play_stop(
                    self.event_samples@,
                    self.next_event_idx as int,
                    window_end as int,
                ),
            ensures
                self.wf(),
                n == self.track.events.len(),
                start <= self.next_event_idx <= n,
                self.track == old(self).track,
                self.event_samples == old(self).event_samples,
                self.current_sample == old(self).current_sample,
                forall|k: int|
                    start <= k < self.next_event_idx ==> #[trigger] self.event_samples@[k] < window_end,
                self.next_event_idx < n ==> self.event_samples@[self.next_event_idx as int] >= window_end,
                commands@ == note_commands(
                    self.track.events@.subrange(start as int, self.next_event_idx as int),
                ),
                self.next_event_idx == play_stop(self.event_samples@, start as int, window_end as int),
            decreases n - self.next_event_idx,
        {
            let idx = self.next_event_idx;
            if self.event_samples[idx] >= window_end {
                break;
            }
            let event = self.track.events[idx];
            proof {
                let prefix = self.track.events@.subrange(start as int, idx + 1);
                assert(prefix.drop_last() =~= self.track.events@.subrange(start as int, idx as int));
                assert(prefix.last() == event);
            }
            match event.message {
                MidiMessage::NoteOn { pitch, velocity, .. } => {
                    commands.push(NoteCommand::NoteOn { pitch, velocity });
                },
                MidiMessage::NoteOff { pitch, .. } => {
                    commands.push(NoteCommand::NoteOff { pitch });
                },
                _ => {},
            }
            self.next_event_idx = idx + 1;
        }
        self.current_sample = window_end;
        commands
    }

    /// Whether every event of the track has been played.
    pub fn is_finished(&self) -> (b: bool)
        ensures
            b == (self.next_event_idx >= self.track.events.len()),
    {
        self.next_event_idx >= self.track.events.len()
    }
}


/// Each event's tick is at most `max_tick`, and a non-empty list has an event
/// whose tick equals it.
pub proof fn lemma_max_tick_bounds(events: Seq<MidiEvent>)
    ensures
        forall|i: int| 0 <= i < events.len() ==> #[trigger] events[i].tick <= max_tick(events),
        events.len() > 0 ==> exists|i: int|
            0 <= i < events.len() && #[trigger] events[i].tick == max_tick(events),
        events.len() == 0 ==> max_tick(events) == 0,
    decreases events.len(),
{
    if events.len() > 0 {
        let rest = events.drop_last();
        lemma_max_tick_bounds(rest);
        assert forall|i: int| 0 <= i < events.len() implies #[trigger] events[i].tick <= max_tick(
            events,
        ) by {
            if i < events.len() - 1 {
                assert(events[i] == rest[i]);
            }
        }
        if events.last().tick <= max_tick(rest) && rest.len() > 0 {
            let j = choose|j: int| 0 <= j < rest.len() && #[trigger] rest[j].tick == max_tick(rest);
            assert(events[j] == rest[j]);
        } else {
            assert(events[events.len() - 1].tick == max_tick(events));
        }
    }
}

/// Sorting a track does not change its duration: the largest tick of the
/// sorted events is the largest tick of the events as they were.
pub proof fn lemma_sort_keeps_duration(events: Seq<MidiEvent>, arranged: Seq<MidiEvent>)
    requires
        is_stable_sort_by_tick(events, arranged),
    ensures
        max_tick(arranged) == max_tick(events),
{
    let origin = choose|origin: Seq<int>| is_stable_arrangement(events, arranged, origin);
    lemma_max_tick_bounds(events);
    lemma_max_tick_bounds(arranged);
    if events.len() > 0 {
        let a = choose|i: int| 0 <= i < arranged.len() && #[trigger] arranged[i].tick == max_tick(arranged);
        assert(arranged[a] == events[origin[a]]);
        let e = choose|i: int| 0 <= i < events.len() && #[trigger] events[i].tick == max_tick(events);
        assert(is_drawn_from(origin, e));
        let k = choose|k: int| 0 <= k < origin.len() && #[trigger] origin[k] == e;
        assert(arranged[k] == events[origin[k]]);
    }
}

/// The note commands of two runs of events one after the other are those of
/// the first run followed by those of the second.
pub proof fn lemma_note_commands_append(x: Seq<MidiEvent>, y: Seq<MidiEvent>)
    ensures
        note_commands(x + y) == note_commands(x) + note_commands(y),
    decreases y.len(),
{
    if y.len() == 0 {
        assert(x + y =~= x);
        assert(note_commands(x) + note_commands(y) =~= note_commands(x));
    } else {
        lemma_note_commands_append(x, y.drop_last());
        assert((x + y).drop_last() =~= x + y.drop_last());
        assert((x + y).last() == y.last());
        match note_command_of(y.last().message) {
            Some(c) => {
                assert(note_commands(x) + note_commands(y) =~= (note_commands(x) + note_commands(
                    y.drop_last(),
                )).push(c));
            },
            None => {},
        }
    }
}

/// Playing stops no earlier than it started, and never past the end.
pub proof fn lemma_play_stop_bounds(samples: Seq<u64>, from: int, end: int)
    requires
        0 <= from <= samples.len(),
    ensures
        from <= play_stop(samples, from, end) <= samples.len(),
    decreases samples.len() - from,
{
    if from < samples.len() && samples[from] < end {
        lemma_play_stop_bounds(samples, from + 1, end);
    }
}

/// Where one block stops, a block ending later goes on from: stopping at
/// `e1` and then at `e2` stops where stopping at `e2` at once does.
pub proof fn lemma_play_stop_twice(samples: Seq<u64>, from: int, e1: int, e2: int)
    requires
        0 <= from <= samples.len(),
        e1 <= e2,
    ensures
        play_stop(samples, play_stop(samples, from, e1), e2) == play_stop(samples, from, e2),
    decreases samples.len() - from,
{
    if from < samples.len() && samples[from] < e1 {
        lemma_play_stop_twice(samples, from + 1, e1, e2);
    }
}

/// Block size does not change what is played: advancing by `a` samples and
/// then by `b` plays the same note commands, in the same order, and stops at
/// the same event as advancing by `a + b` at once.
pub proof fn lemma_split_block(
    events: Seq<MidiEvent>,
    samples: Seq<u64>,
    from: int,
    current: int,
    a: int,
    b: int,
)
    requires
        samples.len() == events.len(),
        0 <= from <= events.len(),
        0 <= a,
        0 <= b,
    ensures
        ({
            let mid = play_stop(samples, from, current + a);
            let stop = play_stop(samples, mid, current + a + b);
            &&& stop == play_stop(samples, from, current + a + b)
            &&& note_commands(events.subrange(from, mid)) + note_commands(events.subrange(mid, stop))
                == note_commands(events.subrange(from, stop))
        }),
{
    let mid = play_stop(samples, from, current + a);
    lemma_play_stop_bounds(samples, from, current + a);
    lemma_play_stop_bounds(samples, mid, current + a + b);
    lemma_play_stop_twice(samples, from, current + a, current + a + b);
    let stop = play_stop(samples, mid, current + a + b);
    lemma_note_commands_append(events.subrange(from, mid), events.subrange(mid, stop));
    assert(events.subrange(from, mid) + events.subrange(mid, stop) =~= events.subrange(from, stop));
}

/// A strictly increasing sequence of `n` positions, all below `n`, lists
/// each position in place.
proof fn lemma_increasing_positions_in_place(origin: Seq<int>)
    requires
        forall|k: int| 0 <= k < origin.len() ==> 0 <= #[trigger] origin[k] < origin.len(),
        forall|k: int, l: int| 0 <= k < l < origin.len() ==> #[trigger] origin[k] < #[trigger] origin[l],
    ensures
        forall|k: int| 0 <= k < origin.len() ==> #[trigger] origin[k] == k,
{
    let n = origin.len() as int;
    assert forall|k: int| 0 <= k < n implies #[trigger] origin[k] >= k by {
        lemma_position_at_least(origin, k);
    }
    assert forall|k: int| 0 <= k < n implies #[trigger] origin[k] <= k by {
        lemma_position_at_most(origin, k);
    }
}

/// In such a sequence, the position at index `k` is at least `k`.
proof fn lemma_position_at_least(origin: Seq<int>, k: int)
    requires
        0 <= k < origin.len(),
        forall|j: int| 0 <= j < origin.len() ==> 0 <= #[trigger] origin[j] < origin.len(),
        forall|j: int, l: int| 0 <= j < l < origin.len() ==> #[trigger] origin[j] < #[trigger] origin[l],
    ensures
        origin[k] >= k,
    decreases k,
{
    if k > 0 {
        lemma_position_at_least(origin, k - 1);
        assert(origin[k - 1] < origin[k]);
    }
}

/// In such a sequence, the position at index `k` is at most `k`: counted
/// from the end, every later index needs a larger position below the length.
proof fn lemma_position_at_most(origin: Seq<int>, k: int)
    requires
        0 <= k < origin.len(),
        forall|j: int| 0 <= j < origin.len() ==> 0 <= #[trigger] origin[j] < origin.len(),
        forall|j: int, l: int| 0 <= j < l < origin.len() ==> #[trigger] origin[j] < #[trigger] origin[l],
    ensures
        origin[k] <= k,
    decreases origin.len() - k,
{
    if k < origin.len() - 1 {
        lemma_position_at_most(origin, k + 1);
        assert(origin[k] < origin[k + 1]);
    }
}

/// Sorting is idempotent: sorting events that are already sorted by tick
/// (in particular, sorting a second time) leaves them exactly as they are.
pub proof fn lemma_sort_idempotent(once: Seq<MidiEvent>, twice: Seq<MidiEvent>)
    requires
        sorted_by_tick(once),
        is_stable_sort_by_tick(once, twice),
    ensures
        twice == once,
{
    let origin = choose|origin: Seq<int>| is_stable_arrangement(once, twice, origin);
    assert forall|k: int, l: int| 0 <= k < l < origin.len() implies #[trigger] origin[k]
        < #[trigger] origin[l] by {
        assert(twice[k] == once[origin[k]]);
        assert(twice[l] == once[origin[l]]);
        assert(twice[k].tick <= twice[l].tick);
        if twice[k].tick < twice[l].tick {
            if origin[l] < origin[k] {
                assert(once[origin[l]].tick <= once[origin[k]].tick);
            }
            assert(origin[k] != origin[l]);
        }
    }
    lemma_increasing_positions_in_place(origin);
    assert forall|k: int| 0 <= k < twice.len() implies #[trigger] twice[k] == once[k] by {
        assert(twice[k] == once[origin[k]]);
    }
    assert(twice =~= once);
}

/// Every note-on and note-off plays, whatever its channel: appending a
/// note-on event appends the note-on command of its pitch and velocity,
/// appending a note-off appends the note-off of its pitch, and appending any
/// other message adds no command.
pub proof fn lemma_note_events_play(events: Seq<MidiEvent>, e: MidiEvent)
    ensures
        e.message matches MidiMessage::NoteOn { channel, pitch, velocity } ==> note_commands(
            events.push(e),
        ) == note_commands(events).push(NoteCommand::NoteOn { pitch, velocity }),
        e.message matches MidiMessage::NoteOff { channel, pitch } ==> note_commands(events.push(e))
            == note_commands(events).push(NoteCommand::NoteOff { pitch }),
        !(e.message is NoteOn || e.message is NoteOff) ==> note_commands(events.push(e))
            == note_commands(events),
{
    assert(events.push(e).drop_last() =~= events);
    assert(events.push(e).last() == e);
}

/// A block holding a single note event, on any channel, plays exactly that
/// note.
pub proof fn lemma_single_note_plays(e: MidiEvent)
    ensures
        e.message matches MidiMessage::NoteOn { channel, pitch, velocity } ==> note_commands(seq![e])
            == seq![NoteCommand::NoteOn { pitch, velocity }],
        e.message matches MidiMessage::NoteOff { channel, pitch } ==> note_commands(seq![e])
            == seq![NoteCommand::NoteOff { pitch }],
{
    lemma_note_events_play(Seq::empty(), e);
    assert(Seq::<MidiEvent>::empty().push(e) =~= seq![e]);
    assert(note_commands(Seq::<MidiEvent>::empty()) == Seq::<NoteCommand>::empty());
    match e.message {
        MidiMessage::NoteOn { pitch, velocity, .. } => {
            assert(Seq::<NoteCommand>::empty().push(NoteCommand::NoteOn { pitch, velocity }) =~= seq![
                NoteCommand::NoteOn { pitch, velocity },
            ]);
        },
        MidiMessage::NoteOff { pitch, .. } => {
            assert(Seq::<NoteCommand>::empty().push(NoteCommand::NoteOff { pitch }) =~= seq![
                NoteCommand::NoteOff { pitch },
            ]);
        },
        _ => {},
    }
}

} // verus!
