//! Unicode coverage as a list of closed, ascending, non-adjacent ranges.

use vstd::prelude::*;

verus! {

/// An inclusive range of code points, `start..=end`.
#[derive(Clone, Copy, Debug, PartialEq, Eq, Structural)]
pub struct UnicodeRange {
    pub start: u32,
    pub end: u32,
}

/// The ranges as pairs of integers `(start, end)`.
pub open spec fn ranges_view(r: Seq<UnicodeRange>) -> Seq<(int, int)> {
    r.map_values(|u: UnicodeRange| (u.start as int, u.end as int))
}

/// The maximal runs of covered positions of `c`, as `(first, last)` pairs in
/// ascending order: a covered position extends the run of the covered position
/// just before it, or else opens a run of its own.
pub open spec fn runs(c: Seq<bool>) -> Seq<(int, int)>
    decreases c.len(),
{
    if c.len() == 0 {
        seq![]
    } else {
        let p = c.drop_last();
        let r = runs(p);
        let n = p.len() as int;
        if !c.last() {
            r
        } else if n > 0 && p.last() {
            r.update(r.len() - 1, (r.last().0, n))
        } else {
            r.push((n, n))
        }
    }
}

/// Every range is non-empty, and any two ranges are apart by at least one
/// position that lies in neither.
pub open spec fn separated(r: Seq<(int, int)>) -> bool {
    &&& forall|i: int| 0 <= i < r.len() ==> #[trigger] r[i].0 <= r[i].1
    &&& forall|i: int, j: int| 0 <= i < j < r.len() ==> #[trigger] r[i].1 + 1 < #[trigger] r[j].0
}

/// Position `k` lies in range `i` of `r`.
pub open spec fn in_range(r: Seq<(int, int)>, i: int, k: int) -> bool {
    0 <= i < r.len() && r[i].0 <= k <= r[i].1
}

/// Position `k` lies in some range of `r`.
pub open spec fn in_some_range(r: Seq<(int, int)>, k: int) -> bool {
    exists|i: int| #[trigger] in_range(r, i, k)
}

/// The runs of `c` are separated, lie within `c`, end at the last position of
/// `c` exactly when that position is covered, and hold exactly the covered
/// positions.
proof fn lemma_runs_shape(c: Seq<bool>)
    ensures
        separated(runs(c)),
        forall|i: int| 0 <= i < runs(c).len() ==> 0 <= #[trigger] runs(c)[i].0 && runs(c)[i].1 < c.len(),
        c.len() > 0 ==> (c.last() <==> (runs(c).len() > 0 && runs(c).last().1 == c.len() - 1)),
        forall|k: int| 0 <= k < c.len() ==> (c[k] <==> #[trigger] in_some_range(runs(c), k)),
    decreases c.len(),
{
    if c.len() > 0 {
        let p = c.drop_last();
        let r = runs(p);
        let n = p.len() as int;
        lemma_runs_shape(p);
        let r2 = runs(c);
        if !c.last() {
            assert(r2 == r);
            assert forall|k: int| 0 <= k < c.len() implies (c[k] <==> #[trigger] in_some_range(r2, k)) by {
                if k < n {
                    assert(c[k] == p[k]);
                } else {
                    if in_some_range(r2, k) {
                        let i = choose|i: int| in_range(r2, i, k);
                        assert(r2[i].1 < n);
                    }
                }
            }
        } else if n > 0 && p.last() {
            let last = r.len() - 1;
            assert(r2 == r.update(last, (r[last].0, n)));
            assert(r[last].1 == n - 1);
            assert forall|i: int| 0 <= i < last implies r[i].1 < r[last].0 by {
                assert(r[i].1 + 1 < r[last].0);
            }
            assert forall|k: int| 0 <= k < c.len() implies (c[k] <==> #[trigger] in_some_range(r2, k)) by {
                if k < n {
                    assert(c[k] == p[k]);
                    if c[k] {
                        assert(in_some_range(r, k));
                        let i = choose|i: int| in_range(r, i, k);
                        assert(in_range(r2, i, k));
                    }
                    if in_some_range(r2, k) {
                        let i = choose|i: int| in_range(r2, i, k);
                        assert(in_range(r, i, k));
                        assert(in_some_range(r, k));
                    }
                } else {
                    assert(in_range(r2, last, k));
                }
            }
        } else {
            assert(r2 == r.push((n, n)));
            if r.len() > 0 {
                assert(r.last().1 < n - 1);
            }
            assert forall|i: int| 0 <= i < r.len() implies r[i].1 + 1 < n by {
                if i < r.len() - 1 {
                    assert(r[i].1 + 1 < r[r.len() - 1].0);
                }
            }
            assert forall|k: int| 0 <= k < c.len() implies (c[k] <==> #[trigger] in_some_range(r2, k)) by {
                if k < n {
                    assert(c[k] == p[k]);
                    if c[k] {
                        assert(in_some_range(r, k));
                        let i = choose|i: int| in_range(r, i, k);
                        assert(in_range(r2, i, k));
                    }
                    if in_some_range(r2, k) {
                        let i = choose|i: int| in_range(r2, i, k);
                        assert(in_range(r, i, k));
                        assert(in_some_range(r, k));
                    }
                } else {
                    assert(in_range(r2, r.len() as int, k));
                }
            }
        }
    }
}

/// The runs of any coverage are non-empty, strictly ascending, and never
/// touch: between the end of one run and the start of the next lies at least
/// one uncovered position.
pub proof fn lemma_runs_separated(c: Seq<bool>)
    ensures
        separated(runs(c)),
        forall|i: int| 0 <= i < runs(c).len() ==> 0 <= #[trigger] runs(c)[i].0 && runs(c)[i].1 < c.len(),
{
    lemma_runs_shape(c);
}

/// Every covered position lies in exactly one run, and no uncovered position
/// lies in any.
pub proof fn lemma_runs_cover_exactly(c: Seq<bool>, k: int)
    requires
        0 <= k < c.len(),
    ensures
        c[k] ==> in_some_range(runs(c), k),
        !c[k] ==> !in_some_range(runs(c), k),
        forall|i: int, j: int| in_range(runs(c), i, k) && in_range(runs(c), j, k) ==> i == j,
{
    lemma_runs_shape(c);
    let r = runs(c);
    assert forall|i: int, j: int| in_range(r, i, k) && in_range(r, j, k) implies i == j by {
        if i < j {
            assert(r[i].1 + 1 < r[j].0);
        } else if j < i {
            assert(r[j].1 + 1 < r[i].0);
        }
    }
}

/// A scan over consecutive code points from zero, fed one covered/uncovered
/// answer at a time, that emits the ranges of covered code points as it goes.
pub struct RangeScanner {
    ranges: Vec<UnicodeRange>,
    range_start: Option<u32>,
    prev_covered: Option<u32>,
    next: u32,
    seen: Ghost<Seq<bool>>,
}

impl RangeScanner {
    /// The answers fed so far, one for each code point from zero on.
    pub closed spec fn seen(&self) -> Seq<bool> {
        self.seen@
    }

    /// The ranges already closed are the runs of what was seen, but for the
    /// last one while it is still open; an open run ends at the last code point.
    pub closed spec fn wf(&self) -> bool {
        let rs = runs(self.seen@);
        &&& self.seen@.len() == self.next
        &&& (self.range_start is Some <==> (self.next > 0 && self.seen@.last()))
        &&& match self.range_start {
            Some(s) => {
                &&& rs.len() > 0
                &&& ranges_view(self.ranges@) == rs.drop_last()
                &&& rs.last() == (s as int, self.next - 1)
                &&& self.prev_covered == Some((self.next - 1) as u32)
            },
            None => ranges_view(self.ranges@) == rs,
        }
    }

    /// A scan that has seen nothing.
    pub fn new() -> (r: Self)
        ensures
            r.wf(),
            r.seen() == Seq::<bool>::empty(),
    {
        let r = RangeScanner {
            ranges: Vec::new(),
            range_start: None,
            prev_covered: None,
            next: 0,
            seen: Ghost(Seq::empty()),
        };
        assert(ranges_view(r.ranges@) =~= seq![]);
        r
    }

    /// The number of code points seen so far.
    pub fn position(&self) -> (r: u32)
        requires
            self.wf(),
        ensures
            r == self.seen().len(),
    {
        self.next
    }

    /// Feeds whether the next code point is covered.
    pub fn push(&mut self, covered: bool)
        requires
            old(self).wf(),
            old(self).seen().len() < u32::MAX,
        ensures
            final(self).wf(),
            final(self).seen() == old(self).seen().push(covered),
    {
        let ghost old_seen = self.seen@;
        let ghost old_ranges = self.ranges@;
        let ghost new_seen = old_seen.push(covered);
        assert(new_seen.drop_last() =~= old_seen);
        let cp = self.next;
        if covered {
            if self.range_start.is_none() {
                self.range_start = Some(cp);
                assert(ranges_view(self.ranges@) == runs(new_seen).drop_last()) by {
                    assert(runs(new_seen) == runs(old_seen).push((cp as int, cp as int)));
                    assert(runs(new_seen).drop_last() =~= runs(old_seen));
                }
            } else {
                assert(runs(new_seen).drop_last() =~= runs(old_seen).drop_last());
            }
            self.prev_covered = Some(cp);
        } else {
            if let Some(start) = self.range_start {
                if let Some(prev) = self.prev_covered {
                    self.ranges.push(UnicodeRange { start, end: prev });
                    let ghost rs = runs(old_seen);
                    assert(ranges_view(self.ranges@) =~= rs) by {
                        assert(self.ranges@ == old_ranges.push(UnicodeRange { start, end: prev }));
                        assert(rs =~= rs.drop_last().push(rs.last()));
                    }
                }
                self.range_start = None;
            }
        }
        self.next = cp + 1;
        self.seen = Ghost(new_seen);
    }

    /// Closes the scan and hands back the ranges: exactly the runs of covered
    /// code points among those seen.
    pub fn finish(self) -> (r: Vec<UnicodeRange>)
        requires
            self.wf(),
        ensures
            ranges_view(r@) == runs(self.seen()),
    {
        let mut ranges = self.ranges;
        if let Some(start) = self.range_start {
            if let Some(prev) = self.prev_covered {
                let ghost old_ranges = ranges@;
                ranges.push(UnicodeRange { start, end: prev });
                let ghost rs = runs(self.seen@);
                assert(ranges_view(ranges@) =~= rs) by {
                    assert(ranges@ == old_ranges.push(UnicodeRange { start, end: prev }));
                    assert(rs =~= rs.drop_last().push(rs.last()));
                }
            }
        }
        ranges
    }
}

} // verus!
