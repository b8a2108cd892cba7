//! Voice allocation of a polyphonic synthesizer: which voice starts, which
//! is released, which is stolen when every voice is taken.  A voice's sound
//! (oscillator and envelope) is a value of the caller's type.
use vstd::prelude::*;

verus! {

/// A release function for sounds of type `S`: given a voice's sound and
/// whether its release had started before, the sound with its release phase
/// started.  It can always be called.
pub open spec fn release_callable<S, F: Fn(&S, bool) -> S>(release: F) -> bool {
    forall|s: &S, was_releasing: bool| #[trigger] release.requires((s, was_releasing))
}

/// A voice: the note it plays, whether it still sounds, whether it is in its
/// release phase, and its sound.
pub struct SynthVoice<S> {
    pub pitch: u8,
    pub velocity: u8,
    pub is_active: bool,
    pub releasing: bool,
    pub sound: S,
}

/// The allocation state of a voice.
pub struct VoiceState {
    pub pitch: u8,
    pub velocity: u8,
    pub is_active: bool,
    pub releasing: bool,
}

/// The allocation state of each voice, in order.
pub open spec fn states<S>(voices: Seq<SynthVoice<S>>) -> Seq<VoiceState> {
    voices.map_values(
        |v: SynthVoice<S>|
            VoiceState {
                pitch: v.pitch,
                velocity: v.velocity,
                is_active: v.is_active,
                releasing: v.releasing,
            },
    )
}

/// The same state with its release phase started.
pub open spec fn released(g: VoiceState) -> VoiceState {
    VoiceState { releasing: true, ..g }
}

/// The state of a new voice playing `pitch`.
pub open spec fn started(pitch: u8, velocity: u8) -> VoiceState {
    VoiceState { pitch, velocity, is_active: true, releasing: false }
}

/// The first sounding voice playing `pitch`, if any.
pub open spec fn first_sounding(states: Seq<VoiceState>, pitch: u8) -> Option<int> {
    if exists|i: int| 0 <= i < states.len() && states[i].pitch == pitch && states[i].is_active {
        Some(
            choose|i: int|
                0 <= i < states.len() && states[i].pitch == pitch && states[i].is_active && forall|
                    j: int,
                | 0 <= j < i ==> !(states[j].pitch == pitch && states[j].is_active),
        )
    } else {
        None
    }
}

/// The first sounding voice playing `pitch` that is not releasing yet, if any.
pub open spec fn first_held(states: Seq<VoiceState>, pitch: u8) -> Option<int> {
    if exists|i: int|
        0 <= i < states.len() && states[i].pitch == pitch && states[i].is_active && !states[i].releasing {
        Some(
            choose|i: int|
                0 <= i < states.len() && states[i].pitch == pitch && states[i].is_active
                    && !states[i].releasing && forall|j: int|
                    0 <= j < i ==> !(states[j].pitch == pitch && states[j].is_active
                        && !states[j].releasing),
        )
    } else {
        None
    }
}

/// `states` with voice `i`, if any, released.
pub open spec fn release_at(states: Seq<VoiceState>, i: Option<int>) -> Seq<VoiceState> {
    match i {
        Some(k) => states.update(k, released(states[k])),
        None => states,
    }
}

/// The states after starting `pitch`: the first voice already sounding it is
/// released; when every voice is taken the oldest is dropped; the new voice
/// comes last.
pub open spec fn states_after_note_on(
    states: Seq<VoiceState>,
    max_voices: usize,
    pitch: u8,
    velocity: u8,
) -> Seq<VoiceState> {
    let r = release_at(states, first_sounding(states, pitch));
    let room = if r.len() >= max_voices {
        r.drop_first()
    } else {
        r
    };
    room.push(started(pitch, velocity))
}

/// How many voices at the front `note_on` drops: one when all `max_voices`
/// are taken.
pub open spec fn kept_from(len: nat, max_voices: usize) -> int {
    if len >= max_voices {
        1
    } else {
        0
    }
}

/// `after` is voice `before` released through `release`: the same note and
/// activity, now releasing, with the sound that `release` made of its sound.
pub open spec fn released_voice<S, F: Fn(&S, bool) -> S>(
    release: F,
    before: SynthVoice<S>,
    after: SynthVoice<S>,
) -> bool {
    &&& after.pitch == before.pitch
    &&& after.velocity == before.velocity
    &&& after.is_active == before.is_active
    &&& after.releasing
    &&& release.ensures((&before.sound, before.releasing), after.sound)
}

/// The voices that still sound, each as it is, in order.
pub open spec fn sounding_voices<S>(voices: Seq<SynthVoice<S>>) -> Seq<SynthVoice<S>> {
    voices.filter(|v: SynthVoice<S>| v.is_active)
}

/// The sounding voices.
pub open spec fn sounding(states: Seq<VoiceState>) -> Seq<VoiceState> {
    states.filter(|g: VoiceState| g.is_active)
}

/// The voices of a polyphonic synthesizer, at most `max_voices` of them.
pub struct VoiceBank<S> {
    pub voices: Vec<SynthVoice<S>>,
    pub max_voices: usize,
}

impl<S> SynthVoice<S> {
    /// A sounding voice playing `pitch`, not releasing.
    pub fn new(pitch: u8, velocity: u8, sound: S) -> (v: SynthVoice<S>)
        ensures
            v.pitch == pitch,
            v.velocity == velocity,
            v.is_active,
            !v.releasing,
            v.sound == sound,
    {
        SynthVoice { pitch, velocity, is_active: true, releasing: false, sound }
    }

    /// Starts the release phase: the sound becomes what `release` makes of
    /// it, told whether the release had started before.
    pub fn trigger_release<F: Fn(&S, bool) -> S>(&mut self, release: &F)
        requires
            release_callable::<S, F>(*release),
        ensures
            final(self).pitch == old(self).pitch,
            final(self).velocity == old(self).velocity,
            final(self).is_active == old(self).is_active,
            final(self).releasing,
            release.ensures((&old(self).sound, old(self).releasing), final(self).sound),
    {
        let was_releasing = self.releasing;
        assert(release.requires((&self.sound, was_releasing)));
        self.sound = release(&self.sound, was_releasing);
        self.releasing = true;
    }

    /// One sample of the envelope clock: the clock moves on from
    /// `envelope_sample` by one, and a releasing voice whose clock has reached
    /// `release_samples` falls silent.  Returns the new clock.
    pub fn step_envelope(&mut self, envelope_sample: u32, release_samples: u32) -> (next: u32)
        requires
            envelope_sample < u32::MAX,
        ensures
            next == envelope_sample + 1,
            final(self).pitch == old(self).pitch,
            final(self).velocity == old(self).velocity,
            final(self).releasing == old(self).releasing,
            final(self).sound == old(self).sound,
            final(self).is_active == (old(self).is_active && !(old(self).releasing && next
                >= release_samples)),
    {
        let next = envelope_sample + 1;
        if self.releasing && next >= release_samples {
            self.is_active = false;
        }
        next
    }

    /// Whether the voice still sounds.
    pub fn is_active(&self) -> (b: bool)
        ensures
            b == self.is_active,
    {
        self.is_active
    }
}

impl<S> VoiceBank<S> {
    /// No voices, room for `max_voices`.
    pub fn new(max_voices: usize) -> (b: VoiceBank<S>)
        ensures
            b.voices@.len() == 0,
            b.max_voices == max_voices,
    {
        VoiceBank { voices: Vec::new(), max_voices }
    }

    /// The first sounding voice playing `pitch`.
    fn find_sounding(&self, pitch: u8) -> (r: Option<usize>)
        ensures
            r matches Some(i) ==> i < self.voices@.len(),
            r matches Some(i) ==> first_sounding(states(self.voices@), pitch) == Some(i as int),
            r is None ==> first_sounding(states(self.voices@), pitch) is None,
    {
        let ghost g = states(self.voices@);
        let mut i: usize = 0;
        while i < self.voices.len()
            invariant
                g == states(self.voices@),
                i <= self.voices.len(),
                forall|j: int| 0 <= j < i ==> !(g[j].pitch == pitch && g[j].is_active),
            decreases self.voices.len() - i,
        {
            if self.voices[i].pitch == pitch && self.voices[i].is_active {
                proof {
                    let k = choose|k: int|
                        0 <= k < g.len() && g[k].pitch == pitch && g[k].is_active && forall|j: int|
                            0 <= j < k ==> !(g[j].pitch == pitch && g[j].is_active);
                    assert(g[i as int].pitch == pitch && g[i as int].is_active);
                    if k < i {
                    } else if k > i {
                    }
                }
                return Some(i);
            }
            i += 1;
        }
        None
    }

    /// The first sounding voice playing `pitch` that is not releasing.
    fn find_held(&self, pitch: u8) -> (r: Option<usize>)
        ensures
            r matches Some(i) ==> i < self.voices@.len(),
            r matches Some(i) ==> first_held(states(self.voices@), pitch) == Some(i as int),
            r is None ==> first_held(states(self.voices@), pitch) is None,
    {
        let ghost g = states(self.voices@);
        let mut i: usize = 0;
        while i < self.voices.len()
            invariant
                g == states(self.voices@),
                i <= self.voices.len(),
                forall|j: int|
                    0 <= j < i ==> !(g[j].pitch == pitch && g[j].is_active && !g[j].releasing),
            decreases self.voices.len() - i,
        {
            if self.voices[i].pitch == pitch && self.voices[i].is_active && !self.voices[i].releasing {
                proof {
                    let k = choose|k: int|
                        0 <= k < g.len() && g[k].pitch == pitch && g[k].is_active && !g[k].releasing
                            && forall|j: int|
                            0 <= j < k ==> !(g[j].pitch == pitch && g[j].is_active
                                && !g[j].releasing);
                    assert(g[i as int].pitch == pitch && g[i as int].is_active
                        && !g[i as int].releasing);
                }
                return Some(i);
            }
            i += 1;
        }
        None
    }

    /// Releases voice `i`.
    fn release_voice<F: Fn(&S, bool) -> S>(&mut self, i: usize, release: &F)
        requires
            i < old(self).voices@.len(),
            release_callable::<S, F>(*release),
        ensures
            final(self).max_voices == old(self).max_voices,
            states(final(self).voices@) == states(old(self).voices@).update(
                i as int,
                released(states(old(self).voices@)[i as int]),
            ),
            final(self).voices@.len() == old(self).voices@.len(),
            released_voice(*release, old(self).voices@[i as int], final(self).voices@[i as int]),
            forall|j: int|
                0 <= j < final(self).voices@.len() && j != i ==> #[trigger] final(self).voices@[j]
                    == old(self).voices@[j],
    {
        let mut v = self.voices.remove(i);
        v.trigger_release(release);
        self.voices.insert(i, v);
        proof {
            assert forall|j: int|
                0 <= j < self.voices@.len() && j != i implies #[trigger] self.voices@[j]
                == old(self).voices@[j] by {
                if j > i {
                    assert(self.voices@[j] == old(self).voices@.remove(i as int)[j - 1]);
                }
            }
            assert(states(self.voices@) =~= states(old(self).voices@).update(
                i as int,
                released(states(old(self).voices@)[i as int]),
            ));
        }
    }

    /// Starts a voice playing `pitch` with `sound`.  A voice already sounding
    /// `pitch` (the first one) starts its release through `release`; when all
    /// `max_voices` voices are taken the oldest is stolen; the new voice goes
    /// last.
    pub fn note_on<F: Fn(&S, bool) -> S>(&mut self, pitch: u8, velocity: u8, sound: S, release: &F)
        requires
            old(self).voices@.len() > 0 || old(self).max_voices > 0,
            release_callable::<S, F>(*release),
        ensures
            final(self).max_voices == old(self).max_voices,
            states(final(self).voices@) == states_after_note_on(
                states(old(self).voices@),
                old(self).max_voices,
                pitch,
                velocity,
            ),
            final(self).voices@.last().sound == sound,
            old(self).voices@.len() <= old(self).max_voices ==> final(self).voices@.len()
                <= old(self).max_voices,
            forall|j: int|
                0 <= j < final(self).voices@.len() - 1
                    && Some(j + kept_from(old(self).voices@.len(), old(self).max_voices))
                    != first_sounding(states(old(self).voices@), pitch)
                ==> #[trigger] final(self).voices@[j]
                    == old(self).voices@[j + kept_from(old(self).voices@.len(), old(self).max_voices)],
            first_sounding(states(old(self).voices@), pitch) matches Some(k) ==> (k >= kept_from(
                old(self).voices@.len(),
                old(self).max_voices,
            ) ==> released_voice(
                *release,
                old(self).voices@[k],
                final(self).voices@[k - kept_from(old(self).voices@.len(), old(self).max_voices)],
            )),
    {
        let ghost g0 = states(self.voices@);
        let ghost v0 = self.voices@;
        proof {
            lemma_first_sounding_in_range(g0, pitch);
        }
        match self.find_sounding(pitch) {
            Some(i) => self.release_voice(i, release),
            None => {},
        }
        let ghost g1 = states(self.voices@);
        let ghost v1 = self.voices@;
        assert(g1 == release_at(g0, first_sounding(g0, pitch)));
        if self.voices.len() >= self.max_voices {
            self.voices.remove(0);
            assert(states(self.voices@) =~= g1.drop_first());
        }
        let ghost g2 = states(self.voices@);
        let ghost v2 = self.voices@;
        self.voices.push(SynthVoice::new(pitch, velocity, sound));
        assert(states(self.voices@) =~= g2.push(started(pitch, velocity)));
        proof {
            let d = kept_from(v0.len(), self.max_voices);
            assert forall|j: int| 0 <= j < v2.len() implies #[trigger] self.voices@[j] == v1[j + d] by {
                if d == 1 {
                    assert(v2[j] == v1.remove(0)[j]);
                }
            }
        }
    }

    /// Releases the first voice playing `pitch` that is sounding and not
    /// releasing yet, if any, through `release`.
    pub fn note_off<F: Fn(&S, bool) -> S>(&mut self, pitch: u8, release: &F)
        requires
            release_callable::<S, F>(*release),
        ensures
            final(self).max_voices == old(self).max_voices,
            states(final(self).voices@) == release_at(
                states(old(self).voices@),
                first_held(states(old(self).voices@), pitch),
            ),
            final(self).voices@.len() == old(self).voices@.len(),
            forall|j: int|
                0 <= j < old(self).voices@.len() && Some(j) != first_held(
                    states(old(self).voices@),
                    pitch,
                ) ==> #[trigger] final(self).voices@[j] == old(self).voices@[j],
            first_held(states(old(self).voices@), pitch) matches Some(k) ==> released_voice(
                *release,
                old(self).voices@[k],
                final(self).voices@[k],
            ),
    {
        match self.find_held(pitch) {
            Some(i) => self.release_voice(i, release),
            None => {},
        }
    }

    /// Releases, through `release`, every voice that is sounding and not
    /// releasing yet; every other voice stays as it is.
    pub fn note_off_all<F: Fn(&S, bool) -> S>(&mut self, release: &F)
        requires
            release_callable::<S, F>(*release),
        ensures
            final(self).max_voices == old(self).max_voices,
            final(self).voices@.len() == old(self).voices@.len(),
            states(final(self).voices@).len() == states(old(self).voices@).len(),
            forall|i: int|
                0 <= i < old(self).voices@.len() ==> #[trigger] states(final(self).voices@)[i]
                    == if states(old(self).voices@)[i].is_active {
                    released(states(old(self).voices@)[i])
                } else {
                    states(old(self).voices@)[i]
                },
            forall|i: int|
                0 <= i < old(self).voices@.len() ==> if old(self).voices@[i].is_active
                    && !old(self).voices@[i].releasing {
                    released_voice(*release, old(self).voices@[i], #[trigger] final(self).voices@[i])
                } else {
                    final(self).voices@[i] == old(self).voices@[i]
                },
    {
        let n = self.voices.len();
        let mut i: usize = 0;
        while i < n
            invariant
                n == self.voices@.len(),
                n == old(self).voices@.len(),
                i <= n,
                self.max_voices == old(self).max_voices,
                release_callable::<S, F>(*release),
                forall|k: int|
                    0 <= k < i ==> #[trigger] states(self.voices@)[k] == if states(
                        old(self).voices@,
                    )[k].is_active {
                        released(states(old(self).voices@)[k])
                    } else {
                        states(old(self).voices@)[k]
                    },
                forall|k: int|
                    0 <= k < i ==> if old(self).voices@[k].is_active
                        && !old(self).voices@[k].releasing {
                        released_voice(*release, old(self).voices@[k], #[trigger] self.voices@[k])
                    } else {
                        self.voices@[k] == old(self).voices@[k]
                    },
                forall|k: int| i <= k < n ==> #[trigger] self.voices@[k] == old(self).voices@[k],
            decreases n - i,
        {
            if self.voices[i].is_active && !self.voices[i].releasing {
                self.release_voice(i, release);
            }
            i += 1;
        }
    }

    /// Drops the voices that no longer sound, keeping the others, each as it
    /// was, in order.
    pub fn retain_active(&mut self)
        ensures
            final(self).max_voices == old(self).max_voices,
            final(self).voices@ == sounding_voices(old(self).voices@),
            states(final(self).voices@) == sounding(states(old(self).voices@)),
            forall|k: int| 0 <= k < final(self).voices@.len() ==> (#[trigger] final(self).voices@[k]).is_active,
            forall|i: int|
                0 <= i < old(self).voices@.len() && old(self).voices@[i].is_active
                    ==> final(self).voices@.contains(#[trigger] old(self).voices@[i]),
    {
        let mut kept: Vec<SynthVoice<S>> = Vec::new();
        let ghost o = self.voices@;
        let ghost g = states(self.voices@);
        while self.voices.len() > 0
            invariant
                o == old(self).voices@,
                g == states(o),
                self.max_voices == old(self).max_voices,
                self.voices@.len() <= o.len(),
                self.voices@ == o.skip(o.len() - self.voices@.len()),
                kept@ == sounding_voices(o.take(o.len() - self.voices@.len())),
                states(kept@) == sounding(g.take(o.len() - self.voices@.len())),
            decreases self.voices.len(),
        {
            let ghost done = o.len() - self.voices@.len();
            let ghost rest = self.voices@;
            proof {
                assert(rest[0] == o[done]);
                assert(g[done].is_active == o[done].is_active);
            }
            let v = self.voices.remove(0);
            proof {
                reveal(Seq::filter);
                assert(g.take(done + 1).drop_last() =~= g.take(done));
                assert(o.take(done + 1).drop_last() =~= o.take(done));
                assert(o.take(done + 1).last() == v);
                assert(g.take(done + 1).last() == g[done]);
                assert(self.voices@ =~= o.skip(done + 1));
            }
            if v.is_active {
                kept.push(v);
                proof {
                    assert(states(kept@) =~= sounding(g.take(done)).push(g[done]));
                }
            } else {
                proof {
                    assert(states(kept@) =~= sounding(g.take(done)));
                }
            }
        }
        proof {
            assert(g.take(o.len() as int) =~= g);
            assert(o.take(o.len() as int) =~= o);
            lemma_retire_keeps_sounding(o);
        }
        self.voices = kept;
    }

    /// The number of voices that still sound.
    pub fn active_voice_count(&self) -> (n: usize)
        ensures
            n == sounding(states(self.voices@)).len(),
    {
        let ghost g = states(self.voices@);
        let mut n: usize = 0;
        let mut i: usize = 0;
        while i < self.voices.len()
            invariant
                g == states(self.voices@),
                i <= self.voices.len(),
                n == sounding(g.take(i as int)).len(),
                n <= i,
            decreases self.voices.len() - i,
        {
            proof {
                reveal(Seq::filter);
                assert(g.take(i + 1).drop_last() =~= g.take(i as int));
                assert(g[i as int].is_active == self.voices@[i as int].is_active);
            }
            if self.voices[i].is_active {
                n += 1;
            }
            i += 1;
        }
        proof {
            assert(g.take(i as int) =~= g);
        }
        n
    }
}

/// If some index below `n` has property `p`, a least one does.
pub proof fn lemma_least_index(p: spec_fn(int) -> bool, n: int)
    requires
        exists|i: int| 0 <= i < n && #[trigger] p(i),
    ensures
        exists|i: int| 0 <= i < n && #[trigger] p(i) && forall|j: int| 0 <= j < i ==> !#[trigger] p(j),
    decreases n,
{
    if exists|i: int| 0 <= i < n - 1 && #[trigger] p(i) {
        lemma_least_index(p, n - 1);
        let i = choose|i: int| 0 <= i < n - 1 && #[trigger] p(i) && forall|j: int| 0 <= j < i ==> !#[trigger] p(j);
        assert(0 <= i < n && p(i) && forall|j: int| 0 <= j < i ==> !#[trigger] p(j));
    } else {
        assert(p(n - 1));
        assert(forall|j: int| 0 <= j < n - 1 ==> !#[trigger] p(j));
    }
}

/// The first sounding voice playing `pitch`, when there is one, is a
/// sounding voice playing `pitch` with none before it.
pub proof fn lemma_first_sounding_in_range(states: Seq<VoiceState>, pitch: u8)
    ensures
        first_sounding(states, pitch) matches Some(k) ==> {
            &&& 0 <= k < states.len()
            &&& states[k].pitch == pitch
            &&& states[k].is_active
        },
{
    let p = |i: int| states[i].pitch == pitch && states[i].is_active;
    if exists|i: int| 0 <= i < states.len() && states[i].pitch == pitch && states[i].is_active {
        let w = choose|i: int| 0 <= i < states.len() && states[i].pitch == pitch && states[i].is_active;
        assert(p(w));
        lemma_least_index(p, states.len() as int);
        let i = choose|i: int| 0 <= i < states.len() && #[trigger] p(i) && forall|j: int| 0 <= j < i ==> !#[trigger] p(j);
        assert forall|j: int| 0 <= j < i implies !(states[j].pitch == pitch && states[j].is_active) by {
            assert(!p(j));
        }
        assert(0 <= i < states.len() && states[i].pitch == pitch && states[i].is_active);
    }
}

/// Starting a note never takes the bank past its voice limit: from at most
/// `max_voices` voices, the voices after `note_on` are again at most
/// `max_voices`, and so are the sounding ones among them.
pub proof fn lemma_note_on_within_limit(
    states: Seq<VoiceState>,
    max_voices: usize,
    pitch: u8,
    velocity: u8,
)
    requires
        states.len() <= max_voices,
        max_voices > 0,
    ensures
        states_after_note_on(states, max_voices, pitch, velocity).len() <= max_voices,
        sounding(states_after_note_on(states, max_voices, pitch, velocity)).len() <= max_voices,
{
    lemma_first_sounding_in_range(states, pitch);
    let after = states_after_note_on(states, max_voices, pitch, velocity);
    after.lemma_filter_len(|g: VoiceState| g.is_active);
}

/// The newest voice after `note_on` plays the note asked for and sounds.
pub proof fn lemma_note_on_starts_voice(
    states: Seq<VoiceState>,
    max_voices: usize,
    pitch: u8,
    velocity: u8,
)
    ensures
        states_after_note_on(states, max_voices, pitch, velocity).last() == started(pitch, velocity),
{
}

/// Retiring keeps exactly the voices that sound: every voice kept is
/// active, every active voice is kept, and a voice that has stopped sounding
/// is dropped whether or not it was releasing.
pub proof fn lemma_retire_keeps_sounding<S>(voices: Seq<SynthVoice<S>>)
    ensures
        forall|k: int|
            0 <= k < sounding_voices(voices).len() ==> (#[trigger] sounding_voices(voices)[k]).is_active,
        forall|i: int|
            0 <= i < voices.len() && voices[i].is_active ==> sounding_voices(voices).contains(
                #[trigger] voices[i],
            ),
        forall|v: SynthVoice<S>| !v.is_active ==> !#[trigger] sounding_voices(voices).contains(v),
        sounding_voices(voices).len() <= voices.len(),
{
    let pred = |v: SynthVoice<S>| v.is_active;
    assert forall|k: int| 0 <= k < sounding_voices(voices).len() implies (
    #[trigger] sounding_voices(voices)[k]).is_active by {
        voices.lemma_filter_pred(pred, k);
    }
    assert forall|i: int| 0 <= i < voices.len() && voices[i].is_active implies sounding_voices(
        voices,
    ).contains(#[trigger] voices[i]) by {
        voices.lemma_filter_contains(pred, i);
    }
    assert forall|v: SynthVoice<S>| !v.is_active implies !#[trigger] sounding_voices(voices).contains(
        v,
    ) by {
        if sounding_voices(voices).contains(v) {
            let k = choose|k: int| 0 <= k < sounding_voices(voices).len() && sounding_voices(voices)[k] == v;
            voices.lemma_filter_pred(pred, k);
        }
    }
    voices.lemma_filter_len(pred);
}

/// Counting the sounding voices counts one for each active voice and none
/// for any other: adding a voice to the bank adds one to the count exactly
/// when it is active, whether or not it is releasing.
pub proof fn lemma_sounding_count_step(states: Seq<VoiceState>, g: VoiceState)
    ensures
        sounding(states.push(g)).len() == sounding(states).len() + if g.is_active {
            1int
        } else {
            0int
        },
{
    reveal(Seq::filter);
    assert(states.push(g).drop_last() =~= states);
    assert(states.push(g).last() == g);
}

/// A bank in which no voice is active has no sounding voice, and a bank in
/// which every voice is active has them all sounding.
pub proof fn lemma_sounding_count_extremes(states: Seq<VoiceState>)
    ensures
        (forall|i: int| 0 <= i < states.len() ==> !(#[trigger] states[i]).is_active) ==> sounding(
            states,
        ).len() == 0,
        (forall|i: int| 0 <= i < states.len() ==> (#[trigger] states[i]).is_active) ==> sounding(
            states,
        ).len() == states.len(),
    decreases states.len(),
{
    if states.len() > 0 {
        let rest = states.drop_last();
        lemma_sounding_count_extremes(rest);
        lemma_sounding_count_step(rest, states.last());
        assert(rest.push(states.last()) =~= states);
        assert forall|i: int| 0 <= i < rest.len() implies #[trigger] rest[i] == states[i] by {}
    }
}

} // verus!
