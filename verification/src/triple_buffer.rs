//! The slot protocol of a triple buffer.  Three slots are shared by one writer
//! and one reader: the writer fills its slot and publishes it; the reader, when
//! something new was published, swaps its slot for the published one.  The
//! writer and the reader never hold the same slot.
//!
//! The "ready" word packs the index of the published slot (bits 0-1) with a
//! flag saying that it holds data the reader has not taken yet (bit 2).  The
//! functions over that word are the steps that a concurrent implementation
//! performs with atomic swaps; `TripleBuffer` runs the same steps on one owner.
use vstd::prelude::*;

verus! {

/// The slot index packed in a ready word.
pub open spec fn spec_word_slot(word: usize) -> usize {
    (word % 4) as usize
}

/// Whether a ready word carries the new-data flag.
pub open spec fn spec_word_has_new_data(word: usize) -> bool {
    word % 8 >= 4
}

/// The slot index packed in a ready word (its two low bits).
pub fn word_slot(word: usize) -> (slot: usize)
    ensures
        slot == spec_word_slot(word),
        slot < 4,
{
    assert(word & 3 == word % 4) by (bit_vector);
    word & 3
}

/// Whether a ready word carries the new-data flag (bit 2).
pub fn word_has_new_data(word: usize) -> (b: bool)
    ensures
        b == spec_word_has_new_data(word),
{
    assert((word & 4 != 0) == (word % 8 >= 4)) by (bit_vector);
    word & 4 != 0
}

/// The ready word that publishes `slot` as holding new data.
pub fn publish_word(slot: usize) -> (word: usize)
    requires
        slot < 4,
    ensures
        word == slot + 4,
        spec_word_slot(word) == slot,
        spec_word_has_new_data(word),
{
    assert(slot < 4 ==> slot | 4 == slot + 4) by (bit_vector);
    slot | 4
}

/// The three slot indices are 0, 1 and 2 in some order.
pub open spec fn slots_distinct(write_slot: usize, ready_slot: usize, read_slot: usize) -> bool {
    &&& write_slot < 3
    &&& ready_slot < 3
    &&& read_slot < 3
    &&& write_slot != ready_slot
    &&& write_slot != read_slot
    &&& ready_slot != read_slot
}

/// `after` is `before` once the writer has published: its slot is now the
/// published one, marked new, and it took over the slot published before.
pub open spec fn publishes<T>(before: TripleBuffer<T>, after: TripleBuffer<T>) -> bool {
    &&& after.wf()
    &&& after.ready_slot() == before.writer_slot()
    &&& after.writer_slot() == before.ready_slot()
    &&& after.reader_slot() == before.reader_slot()
    &&& after.fresh()
    &&& after.contents() == before.contents()
}

/// `after` is `before` once the reader has updated, `taken` telling whether
/// there was new data: if so the reader now holds the published slot and its
/// old slot became the published one; either way nothing is left marked new.
pub open spec fn updates<T>(before: TripleBuffer<T>, after: TripleBuffer<T>, taken: bool) -> bool {
    &&& after.wf()
    &&& taken == before.fresh()
    &&& after.contents() == before.contents()
    &&& after.writer_slot() == before.writer_slot()
    &&& !after.fresh()
    &&& taken ==> after.reader_slot() == before.ready_slot() && after.ready_slot()
        == before.reader_slot()
    &&& !taken ==> after.reader_slot() == before.reader_slot() && after.ready_slot()
        == before.ready_slot()
}

/// `after` is `before` once the writer has changed the data in its own slot:
/// the slots and the new-data flag stay, and so does every other slot's data.
pub open spec fn writes<T>(before: TripleBuffer<T>, after: TripleBuffer<T>) -> bool {
    &&& after.wf()
    &&& after.writer_slot() == before.writer_slot()
    &&& after.ready_slot() == before.ready_slot()
    &&& after.reader_slot() == before.reader_slot()
    &&& after.fresh() == before.fresh()
    &&& after.contents().len() == before.contents().len()
    &&& forall|i: int|
        0 <= i < before.contents().len() && i != before.writer_slot() ==> #[trigger] after.contents()[i]
            == before.contents()[i]
}

/// A triple buffer held by one owner: the writer's slot, the ready word and
/// the reader's slot, over three slots of data.
pub struct TripleBuffer<T> {
    slots: Vec<T>,
    write_slot: usize,
    ready: usize,
    read_slot: usize,
}

impl<T> TripleBuffer<T> {
    /// The index of the slot the writer fills.
    pub closed spec fn writer_slot(&self) -> usize {
        self.write_slot
    }

    /// The index of the slot last published.
    pub closed spec fn ready_slot(&self) -> usize {
        spec_word_slot(self.ready)
    }

    /// The index of the slot the reader reads.
    pub closed spec fn reader_slot(&self) -> usize {
        self.read_slot
    }

    /// Whether the published slot holds data the reader has not taken.
    pub closed spec fn fresh(&self) -> bool {
        spec_word_has_new_data(self.ready)
    }

    /// The data in the three slots.
    pub closed spec fn contents(&self) -> Seq<T> {
        self.slots@
    }

    /// Three slots, and the writer, the published slot and the reader each on
    /// a different one.
    pub closed spec fn wf(&self) -> bool {
        &&& self.slots.len() == 3
        &&& self.ready < 8
        &&& slots_distinct(self.write_slot, spec_word_slot(self.ready), self.read_slot)
    }

    /// What the writer is filling.
    pub open spec fn writer_value(&self) -> T {
        self.contents()[self.writer_slot() as int]
    }

    /// What the reader sees.
    pub open spec fn reader_value(&self) -> T {
        self.contents()[self.reader_slot() as int]
    }

    /// What was last published.
    pub open spec fn ready_value(&self) -> T {
        self.contents()[self.ready_slot() as int]
    }

    /// The writer on slot 0, slot 1 published without new data, the reader on
    /// slot 2; every slot holds a clone of `initial`.
    pub fn new(initial: T) -> (b: TripleBuffer<T>)
        where
            T: Clone,
        ensures
            b.wf(),
            b.writer_slot() == 0,
            b.ready_slot() == 1,
            b.reader_slot() == 2,
            !b.fresh(),
            b.contents().len() == 3,
            cloned(initial, b.contents()[0]),
            cloned(initial, b.contents()[1]),
            b.contents()[2] == initial,
    {
        let mut slots: Vec<T> = Vec::new();
        slots.push(initial.clone());
        slots.push(initial.clone());
        slots.push(initial);
        TripleBuffer { slots, write_slot: 0, ready: 1, read_slot: 2 }
    }

    /// The writer's slot, to fill in place.
    pub fn write_slot(&mut self) -> (slot: &mut T)
        requires
            old(self).wf(),
        ensures
            *slot == old(self).writer_value(),
            final(self).wf(),
            final(self).writer_slot() == old(self).writer_slot(),
            final(self).ready_slot() == old(self).ready_slot(),
            final(self).reader_slot() == old(self).reader_slot(),
            final(self).fresh() == old(self).fresh(),
            final(self).contents() == old(self).contents().update(
                old(self).writer_slot() as int,
                *final(slot),
            ),
            writes(*old(self), *final(self)),
    {
        &mut self.slots[self.write_slot]
    }

    /// Publishes the writer's slot as new data and gives the writer the slot
    /// that was published before.
    pub fn publish(&mut self)
        requires
            old(self).wf(),
        ensures
            publishes(*old(self), *final(self)),
    {
        let old_word = self.ready;
        self.ready = publish_word(self.write_slot);
        self.write_slot = word_slot(old_word);
    }

    /// Whether something was published that the reader has not taken.
    pub fn has_new_data(&self) -> (b: bool)
        requires
            self.wf(),
        ensures
            b == self.fresh(),
    {
        word_has_new_data(self.ready)
    }

    /// Takes the published slot when it holds new data, handing the reader's
    /// old slot back for the writer to reuse; returns whether it did.
    pub fn update(&mut self) -> (taken: bool)
        requires
            old(self).wf(),
        ensures
            updates(*old(self), *final(self), taken),
    {
        if !word_has_new_data(self.ready) {
            return false;
        }
        let old_word = self.ready;
        self.ready = self.read_slot;
        self.read_slot = word_slot(old_word);
        true
    }

    /// The reader's slot.
    pub fn read(&self) -> (value: &T)
        requires
            self.wf(),
        ensures
            *value == self.reader_value(),
    {
        &self.slots[self.read_slot]
    }
}

/// The writer, the published slot and the reader are always on three
/// different slots: the writer never fills the slot the reader reads.
pub proof fn lemma_slots_apart<T>(b: TripleBuffer<T>)
    requires
        b.wf(),
    ensures
        slots_distinct(b.writer_slot(), b.ready_slot(), b.reader_slot()),
        b.contents().len() == 3,
{
}

/// What the writer filled and published is what the reader reads once it
/// updates.
pub proof fn lemma_reader_sees_published<T>(
    b0: TripleBuffer<T>,
    b1: TripleBuffer<T>,
    b2: TripleBuffer<T>,
    taken: bool,
)
    requires
        b0.wf(),
        publishes(b0, b1),
        updates(b1, b2, taken),
    ensures
        taken,
        b2.reader_value() == b0.writer_value(),
{
}

/// Of two publishes before an update, the reader gets the later one, and the
/// slot published first goes back to the writer.
pub proof fn lemma_latest_publish_wins<T>(
    b0: TripleBuffer<T>,
    b1: TripleBuffer<T>,
    b2: TripleBuffer<T>,
    b3: TripleBuffer<T>,
    taken: bool,
)
    requires
        b0.wf(),
        publishes(b0, b1),
        publishes(b1, b2),
        updates(b2, b3, taken),
    ensures
        taken,
        b3.reader_value() == b1.writer_value(),
        b2.writer_slot() == b0.writer_slot(),
{
}

/// An update with nothing published since the last one takes nothing and
/// changes nothing.
pub proof fn lemma_update_without_publish<T>(
    b0: TripleBuffer<T>,
    b1: TripleBuffer<T>,
    b2: TripleBuffer<T>,
    first: bool,
    second: bool,
)
    requires
        b0.wf(),
        updates(b0, b1, first),
        updates(b1, b2, second),
    ensures
        !second,
        b2.reader_slot() == b1.reader_slot(),
        b2.reader_value() == b1.reader_value(),
{
}

/// After a publish, any number of writes leaves the published slot, its data
/// and the new-data flag as the publish left them.
proof fn lemma_writes_keep_published<T>(bs: Seq<TripleBuffer<T>>, p: int, k: int)
    requires
        0 <= p < k < bs.len(),
        bs[p].wf(),
        publishes(bs[p], bs[p + 1]),
        forall|j: int| p + 1 <= j < bs.len() - 1 ==> #[trigger] writes(bs[j], bs[j + 1]),
    ensures
        bs[k].wf(),
        bs[k].fresh(),
        bs[k].ready_slot() == bs[p].writer_slot(),
        bs[k].ready_value() == bs[p].writer_value(),
    decreases k - p,
{
    if k > p + 1 {
        lemma_writes_keep_published(bs, p, k - 1);
        let j = k - 1;
        assert(writes(bs[j], bs[j + 1]));
        assert(bs[k - 1].ready_slot() != bs[k - 1].writer_slot());
    }
}

/// Whatever came before, the reader takes what the writer held at the latest
/// publish: when the last publish is followed only by writes into the
/// writer's slot, the next update takes data, reads the value published then
/// (earlier publishes are skipped), and leaves nothing marked new.
pub proof fn lemma_latest_publish_is_read<T>(
    bs: Seq<TripleBuffer<T>>,
    p: int,
    after: TripleBuffer<T>,
    taken: bool,
)
    requires
        0 <= p < bs.len() - 1,
        bs[p].wf(),
        publishes(bs[p], bs[p + 1]),
        forall|j: int| p + 1 <= j < bs.len() - 1 ==> #[trigger] writes(bs[j], bs[j + 1]),
        updates(bs.last(), after, taken),
    ensures
        taken,
        after.reader_value() == bs[p].writer_value(),
        !after.fresh(),
{
    lemma_writes_keep_published(bs, p, bs.len() - 1);
}

} // verus!
