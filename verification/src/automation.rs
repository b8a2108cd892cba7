//! Automation curves: breakpoints kept in order of their sample position, and
//! the lookup that finds which breakpoints govern a given sample.  The values
//! are of any type; interpolating between them is up to the caller.
use vstd::prelude::*;

verus! {

/// A breakpoint: `value` at sample position `sample`.
#[derive(Debug, Clone, Copy)]
pub struct AutomationPoint<V> {
    pub sample: u64,
    pub value: V,
}

/// Breakpoints in order of sample position, and the value used when there
/// are none.
#[derive(Debug, Clone)]
pub struct AutomationCurve<V> {
    pub points: Vec<AutomationPoint<V>>,
    pub default_value: V,
}

/// Where a sample position falls on a curve.
#[derive(Debug, Clone, Copy, PartialEq, Eq, Structural)]
pub enum CurvePosition {
    /// The curve has no breakpoints: its default value applies.
    Default,
    /// The value of this breakpoint applies as it is.
    Point(usize),
    /// The position lies strictly between these two neighbouring breakpoints.
    Between { before: usize, after: usize },
}

/// The breakpoints' sample positions never decrease.
pub open spec fn points_sorted<V>(points: Seq<AutomationPoint<V>>) -> bool {
    forall|i: int, j: int|
        0 <= i <= j < points.len() ==> #[trigger] points[i].sample <= #[trigger] points[j].sample
}

/// `idx` splits `points` into those whose sample is below `sample` and the rest.
pub open spec fn splits_below<V>(points: Seq<AutomationPoint<V>>, idx: int, sample: u64) -> bool {
    &&& 0 <= idx <= points.len()
    &&& forall|k: int| 0 <= k < idx ==> #[trigger] points[k].sample < sample
    &&& forall|k: int| idx <= k < points.len() ==> #[trigger] points[k].sample >= sample
}

/// `idx` splits `points` into those whose sample is at most `sample` and the rest.
pub open spec fn splits_at_most<V>(points: Seq<AutomationPoint<V>>, idx: int, sample: u64) -> bool {
    &&& 0 <= idx <= points.len()
    &&& forall|k: int| 0 <= k < idx ==> #[trigger] points[k].sample <= sample
    &&& forall|k: int| idx <= k < points.len() ==> #[trigger] points[k].sample > sample
}

/// The position of `sample` on a curve with these sorted breakpoints.
pub open spec fn spec_locate<V>(points: Seq<AutomationPoint<V>>, sample: u64) -> CurvePosition {
    if points.len() == 0 {
        CurvePosition::Default
    } else if sample <= points[0].sample {
        CurvePosition::Point(0)
    } else if sample >= points.last().sample {
        CurvePosition::Point((points.len() - 1) as usize)
    } else {
        let idx = choose|idx: int| splits_at_most(points, idx, sample);
        CurvePosition::Between { before: (idx - 1) as usize, after: idx as usize }
    }
}

impl<V> AutomationCurve<V> {
    /// A curve with no breakpoints.
    pub fn new(default_value: V) -> (c: AutomationCurve<V>)
        ensures
            c.points@.len() == 0,
            c.default_value == default_value,
    {
        AutomationCurve { points: Vec::new(), default_value }
    }

    /// The number of breakpoints whose sample is below `sample`: where a new
    /// breakpoint at `sample` goes.
    /// On breakpoints out of order it still gives a position within them.
    fn first_at_or_after(&self, sample: u64) -> (idx: usize)
        ensures
            idx <= self.points@.len(),
            points_sorted(self.points@) ==> splits_below(self.points@, idx as int, sample),
    {
        let mut lo: usize = 0;
        let mut hi: usize = self.points.len();
        while lo < hi
            invariant
                lo <= hi <= self.points.len(),
                points_sorted(self.points@) ==> forall|k: int|
                    0 <= k < lo ==> #[trigger] self.points@[k].sample < sample,
                points_sorted(self.points@) ==> forall|k: int|
                    hi <= k < self.points.len() ==> #[trigger] self.points@[k].sample >= sample,
            decreases hi - lo,
        {
            let mid = lo + (hi - lo) / 2;
            if self.points[mid].sample < sample {
                lo = mid + 1;
            } else {
                hi = mid;
            }
        }
        lo
    }

    /// The number of breakpoints whose sample is at most `sample`.
    fn first_after(&self, sample: u64) -> (idx: usize)
        requires
            points_sorted(self.points@),
        ensures
            splits_at_most(self.points@, idx as int, sample),
    {
        let mut lo: usize = 0;
        let mut hi: usize = self.points.len();
        while lo < hi
            invariant
                lo <= hi <= self.points.len(),
                points_sorted(self.points@),
                forall|k: int| 0 <= k < lo ==> #[trigger] self.points@[k].sample <= sample,
                forall|k: int| hi <= k < self.points.len() ==> #[trigger] self.points@[k].sample > sample,
            decreases hi - lo,
        {
            let mid = lo + (hi - lo) / 2;
            if self.points[mid].sample <= sample {
                lo = mid + 1;
            } else {
                hi = mid;
            }
        }
        lo
    }

    /// Inserts a breakpoint, keeping the breakpoints in order: it goes before
    /// any breakpoints already at the same sample position.  Breakpoints out
    /// of order (set directly) still get the new one somewhere among them.
    pub fn add_point(&mut self, point: AutomationPoint<V>)
        ensures
            points_sorted(old(self).points@) ==> points_sorted(final(self).points@),
            final(self).default_value == old(self).default_value,
            exists|pos: int|
                0 <= pos <= old(self).points@.len() && final(self).points@ == old(self).points@.insert(
                    pos,
                    point,
                ) && (points_sorted(old(self).points@) ==> splits_below(
                    old(self).points@,
                    pos,
                    point.sample,
                )),
    {
        let pos = self.first_at_or_after(point.sample);
        let ghost before = self.points@;
        self.points.insert(pos, point);
        proof {
            assert(self.points@ == before.insert(pos as int, point));
            if points_sorted(before) {
                assert forall|i: int, j: int|
                    0 <= i <= j < self.points@.len() implies #[trigger] self.points@[i].sample
                    <= #[trigger] self.points@[j].sample by {
                    if i < pos && j > pos {
                        assert(before[i].sample <= before[j - 1].sample);
                    } else if i > pos {
                        assert(before[i - 1].sample <= before[j - 1].sample);
                    } else if j < pos {
                        assert(before[i].sample <= before[j].sample);
                    } else if i == pos && j > pos {
                        assert(before[j - 1].sample >= point.sample);
                    }
                }
                assert(splits_below(before, pos as int, point.sample));
            }
        }
    }

    /// Where `sample` falls on the curve: before the first breakpoint or at it,
    /// at or after the last one, or between two neighbours.
    pub fn locate(&self, sample: u64) -> (p: CurvePosition)
        requires
            points_sorted(self.points@),
        ensures
            p == spec_locate(self.points@, sample),
            self.points@.len() > 0 && sample <= self.points@[0].sample ==> p == CurvePosition::Point(0),
            self.points@.len() > 0 && sample > self.points@[0].sample && sample
                >= self.points@.last().sample ==> p == CurvePosition::Point(
                (self.points@.len() - 1) as usize,
            ),
            p matches CurvePosition::Between { before, after } ==> {
                &&& after == before + 1
                &&& after < self.points@.len()
                &&& self.points@[before as int].sample <= sample < self.points@[after as int].sample
            },
    {
        let n = self.points.len();
        if n == 0 {
            return CurvePosition::Default;
        }
        if sample <= self.points[0].sample {
            return CurvePosition::Point(0);
        }
        if sample >= self.points[n - 1].sample {
            return CurvePosition::Point(n - 1);
        }
        let idx = self.first_after(sample);
        proof {
            assert forall|other: int| splits_at_most(self.points@, other, sample) implies other
                == idx by {
                if other < idx {
                    assert(self.points@[other].sample > sample);
                } else if other > idx {
                    assert(self.points@[idx as int].sample <= sample);
                }
            }
            assert(splits_at_most(self.points@, idx as int, sample));
        }
        CurvePosition::Between { before: idx - 1, after: idx }
    }
}

/// Sorted breakpoints always split at some index around any sample position.
proof fn lemma_split_exists<V>(points: Seq<AutomationPoint<V>>, sample: u64)
    requires
        points_sorted(points),
    ensures
        exists|idx: int| splits_at_most(points, idx, sample),
    decreases points.len(),
{
    let n = points.len() as int;
    if n == 0 {
        assert(splits_at_most(points, 0, sample));
    } else if points.last().sample <= sample {
        assert forall|k: int| 0 <= k < n implies #[trigger] points[k].sample <= sample by {
            assert(points[k].sample <= points[n - 1].sample);
        }
        assert(splits_at_most(points, n, sample));
    } else {
        let rest = points.drop_last();
        assert(points_sorted(rest)) by {
            assert forall|i: int, j: int| 0 <= i <= j < rest.len() implies #[trigger] rest[i].sample
                <= #[trigger] rest[j].sample by {
                assert(points[i].sample <= points[j].sample);
            }
        }
        lemma_split_exists(rest, sample);
        let idx = choose|idx: int| splits_at_most(rest, idx, sample);
        assert forall|k: int| idx <= k < n implies #[trigger] points[k].sample > sample by {
            if k < n - 1 {
                assert(points[k] == rest[k]);
            }
        }
        assert forall|k: int| 0 <= k < idx implies #[trigger] points[k].sample <= sample by {
            assert(points[k] == rest[k]);
        }
        assert(splits_at_most(points, idx, sample));
    }
}

/// The curve passes through its breakpoints: at the sample position of any
/// breakpoint, the position found is a breakpoint at that same sample
/// position (as a point that applies as it is, or as the left end of the
/// span that starts there).  The breakpoints are those of a curve, so their
/// count fits in a `usize`.
pub proof fn lemma_locate_at_breakpoint<V>(points: Seq<AutomationPoint<V>>, k: int)
    requires
        points_sorted(points),
        0 <= k < points.len(),
        points.len() <= usize::MAX,
    ensures
        match spec_locate(points, points[k].sample) {
            CurvePosition::Point(j) => j < points.len() && points[j as int].sample == points[k].sample,
            CurvePosition::Between { before, after } => before < points.len()
                && points[before as int].sample == points[k].sample,
            CurvePosition::Default => false,
        },
{
    let s = points[k].sample;
    let n = points.len() as int;
    assert(points[0].sample <= s);
    assert(s <= points[n - 1].sample);
    if !(s <= points[0].sample) && !(s >= points.last().sample) {
        lemma_split_exists(points, s);
        let idx = choose|idx: int| splits_at_most(points, idx, s);
        assert(k < idx);
        assert(points[k].sample <= points[idx - 1].sample);
    }
}

/// Before or at the first breakpoint the curve holds the first breakpoint;
/// at or after the last one (and past the first) it holds the last
/// breakpoint, the same for every such sample.
pub proof fn lemma_locate_ends<V>(points: Seq<AutomationPoint<V>>, s1: u64, s2: u64)
    requires
        points.len() > 0,
    ensures
        s1 <= points[0].sample ==> spec_locate(points, s1) == CurvePosition::Point(0),
        s1 > points[0].sample && s1 >= points.last().sample ==> spec_locate(points, s1)
            == CurvePosition::Point((points.len() - 1) as usize),
        s1 > points[0].sample && s1 >= points.last().sample && s2 > points[0].sample && s2
            >= points.last().sample ==> spec_locate(points, s1) == spec_locate(points, s2),
{
}

/// Strictly past the last breakpoint of sorted breakpoints, the curve holds
/// the last breakpoint.
pub proof fn lemma_locate_past_last<V>(points: Seq<AutomationPoint<V>>, sample: u64)
    requires
        points_sorted(points),
        points.len() > 0,
        sample > points.last().sample,
    ensures
        spec_locate(points, sample) == CurvePosition::Point((points.len() - 1) as usize),
{
    assert(points[0].sample <= points[points.len() - 1].sample);
    lemma_locate_ends(points, sample, sample);
}

} // verus!
