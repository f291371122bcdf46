//! The sorted range table that drives compilation: an immutable list of
//! disjoint inclusive codepoint ranges, each tagged with a class, plus a
//! default class for the gaps.

use vstd::prelude::*;

use crate::class::BidiClass;

verus! {

/// One inclusive range of codepoints, `start..=end`, all carrying `class`.
#[derive(Clone, Copy, PartialEq, Eq, Structural, Debug)]
pub struct CodepointRange {
    /// First codepoint of the range.
    pub start: u32,
    /// Last codepoint of the range (inclusive; at least `start`).
    pub end: u32,
    /// The class of every codepoint in the range.
    pub class: BidiClass,
}

/// Rejection of ill-formed input to table construction or compilation.
#[derive(Clone, Copy, PartialEq, Eq, Structural, Debug)]
pub enum BuildError {
    /// A range has `start > end`, or the ranges are not sorted by `start`
    /// and pairwise disjoint.
    MalformedRanges,
    /// The range list is empty, so no covered span can be determined.
    EmptyRanges,
}

/// Whether `c` lies in the inclusive range `rg`.
pub open spec fn range_contains(rg: CodepointRange, c: int) -> bool {
    rg.start <= c <= rg.end
}

/// Well-formedness of a range list: every range is non-empty in the
/// inclusive sense, and the ranges are strictly ordered and pairwise
/// disjoint.
pub open spec fn ranges_wf(rs: Seq<CodepointRange>) -> bool {
    &&& forall|i: int| 0 <= i < rs.len() ==> rs[i].start <= rs[i].end
    &&& forall|i: int, j: int| 0 <= i < j < rs.len() ==> rs[i].end < rs[j].start
}

/// The class of codepoint `c` under range list `rs` with default `default`:
/// the class of the first range containing `c`, or `default` when no range
/// does.  On a well-formed list at most one range contains `c`, so "first"
/// is simply "the" containing range.
pub open spec fn lookup_in(rs: Seq<CodepointRange>, default: BidiClass, c: int) -> BidiClass
    decreases rs.len(),
{
    if rs.len() == 0 {
        default
    } else if range_contains(rs[0], c) {
        rs[0].class
    } else {
        lookup_in(rs.drop_first(), default, c)
    }
}

/// Dropping the first range keeps a range list well-formed.
proof fn lemma_ranges_wf_drop_first(rs: Seq<CodepointRange>)
    requires
        ranges_wf(rs),
        rs.len() > 0,
    ensures
        ranges_wf(rs.drop_first()),
{
    assert forall|i: int| 0 <= i < rs.drop_first().len() implies rs.drop_first()[i].start
        <= rs.drop_first()[i].end by {
        assert(rs.drop_first()[i] == rs[i + 1]);
    }
    assert forall|i: int, j: int| 0 <= i < j < rs.drop_first().len() implies rs.drop_first()[i].end
        < rs.drop_first()[j].start by {
        assert(rs.drop_first()[i] == rs[i + 1]);
        assert(rs.drop_first()[j] == rs[j + 1]);
    }
}

/// On a well-formed list, a range that contains `c` decides the lookup.
pub proof fn lemma_lookup_in_at(rs: Seq<CodepointRange>, default: BidiClass, c: int, i: int)
    requires
        ranges_wf(rs),
        0 <= i < rs.len(),
        range_contains(rs[i], c),
    ensures
        lookup_in(rs, default, c) == rs[i].class,
    decreases rs.len(),
{
    if i == 0 {
    } else {
        assert(rs[0].end < rs[i].start);
        assert(!range_contains(rs[0], c));
        lemma_ranges_wf_drop_first(rs);
        assert(rs.drop_first()[i - 1] == rs[i]);
        lemma_lookup_in_at(rs.drop_first(), default, c, i - 1);
    }
}

/// When no range contains `c`, the lookup yields the default class.
pub proof fn lemma_lookup_in_default(rs: Seq<CodepointRange>, default: BidiClass, c: int)
    requires
        forall|i: int| 0 <= i < rs.len() ==> !range_contains(rs[i], c),
    ensures
        lookup_in(rs, default, c) == default,
    decreases rs.len(),
{
    if rs.len() > 0 {
        assert(!range_contains(rs[0], c));
        assert forall|i: int| 0 <= i < rs.drop_first().len() implies !range_contains(
            rs.drop_first()[i],
            c,
        ) by {
            assert(rs.drop_first()[i] == rs[i + 1]);
        }
        lemma_lookup_in_default(rs.drop_first(), default, c);
    }
}

/// The largest `end` over all ranges of `rs` (`0` for an empty list, which
/// no caller uses).
pub open spec fn max_end(rs: Seq<CodepointRange>) -> int
    decreases rs.len(),
{
    if rs.len() == 0 {
        0
    } else if rs.len() == 1 {
        rs[0].end as int
    } else {
        let m = max_end(rs.drop_last());
        if rs.last().end as int > m {
            rs.last().end as int
        } else {
            m
        }
    }
}

/// On a well-formed, non-empty list the ends are increasing, so the maximum
/// `end` is the last range's `end`.
pub proof fn lemma_max_end_last(rs: Seq<CodepointRange>)
    requires
        ranges_wf(rs),
        rs.len() > 0,
    ensures
        max_end(rs) == rs.last().end as int,
    decreases rs.len(),
{
    if rs.len() > 1 {
        let head = rs.drop_last();
        assert forall|i: int| 0 <= i < head.len() implies head[i].start <= head[i].end by {
            assert(head[i] == rs[i]);
        }
        assert forall|i: int, j: int| 0 <= i < j < head.len() implies head[i].end
            < head[j].start by {
            assert(head[i] == rs[i]);
            assert(head[j] == rs[j]);
        }
        lemma_max_end_last(head);
        assert(head.last() == rs[rs.len() - 2]);
        assert(rs[rs.len() - 2].end < rs[rs.len() - 1].start);
    }
}

/// An immutable, sorted, non-overlapping range table with a default class
/// for codepoints that no range covers.
#[derive(Debug)]
pub struct RangeTable {
    /// The ranges, sorted by `start` and pairwise disjoint.
    pub ranges: Vec<CodepointRange>,
    /// The class of every codepoint outside all ranges.
    pub default: BidiClass,
}

impl RangeTable {
    /// The table's invariant: its range list is well-formed.
    pub open spec fn wf(self) -> bool {
        ranges_wf(self.ranges@)
    }

    /// The classification the table assigns to codepoint `c`.
    pub open spec fn spec_lookup(self, c: int) -> BidiClass {
        lookup_in(self.ranges@, self.default, c)
    }

    /// Builds a table after validating the range list; a list that is not
    /// sorted, not disjoint, or holds a range with `start > end` is
    /// rejected.  An empty list is accepted (the table then classifies
    /// everything as `default`); compilation is where emptiness is an error.
    pub fn new(ranges: Vec<CodepointRange>, default: BidiClass) -> (result: Result<
        RangeTable,
        BuildError,
    >)
        ensures
            result is Ok <==> ranges_wf(ranges@),
            result is Ok ==> {
                &&& result->Ok_0.ranges@ == ranges@
                &&& result->Ok_0.default == default
                &&& result->Ok_0.wf()
            },
            result is Err ==> result->Err_0 == BuildError::MalformedRanges,
    {
        let n = ranges.len();
        let mut i: usize = 0;
        while i < n
            invariant
                i <= n,
                n == ranges@.len(),
                forall|j: int| 0 <= j < i ==> ranges@[j].start <= ranges@[j].end,
                forall|j: int, k: int| 0 <= j < k < i ==> ranges@[j].end < ranges@[k].start,
            decreases n - i,
        {
            let rg = ranges[i];
            if rg.start > rg.end {
                return Err(BuildError::MalformedRanges);
            }
            if i > 0 {
                if ranges[i - 1].end >= rg.start {
                    return Err(BuildError::MalformedRanges);
                }
            }
            i += 1;
        }
        Ok(RangeTable { ranges, default })
    }

    /// Point lookup by binary search over the sorted ranges; total over the
    /// whole `u32` domain, returning the default class on a gap.
    pub fn lookup(&self, codepoint: u32) -> (class: BidiClass)
        requires
            self.wf(),
        ensures
            class == self.spec_lookup(codepoint as int),
    {
        let mut lo: usize = 0;
        let mut hi: usize = self.ranges.len();
        while lo < hi
            invariant
                self.wf(),
                lo <= hi <= self.ranges@.len(),
                forall|i: int| 0 <= i < lo ==> (self.ranges@[i].end as int) < codepoint as int,
                forall|i: int|
                    hi <= i < self.ranges@.len() ==> (codepoint as int) < self.ranges@[i].start as int,
            decreases hi - lo,
        {
            let mid = lo + (hi - lo) / 2;
            let rg = self.ranges[mid];
            if codepoint < rg.start {
                hi = mid;
            } else if codepoint > rg.end {
                assert forall|i: int| 0 <= i < mid + 1 implies (self.ranges@[i].end as int)
                    < codepoint as int by {
                    if i < mid {
                        assert(self.ranges@[i].end < self.ranges@[mid as int].start);
                    }
                }
                lo = mid + 1;
            } else {
                proof {
                    lemma_lookup_in_at(self.ranges@, self.default, codepoint as int, mid as int);
                }
                return rg.class;
            }
        }
        proof {
            assert forall|i: int| 0 <= i < self.ranges@.len() implies !range_contains(
                self.ranges@[i],
                codepoint as int,
            ) by {
                if i < lo {
                } else {
                    assert((codepoint as int) < self.ranges@[i].start as int);
                }
            }
            lemma_lookup_in_default(self.ranges@, self.default, codepoint as int);
        }
        self.default
    }
}

} // verus!
