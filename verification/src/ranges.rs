//! Half-open ranges of one-based line numbers, and lists of them.

use vstd::prelude::*;

verus! {

/// The most lines a file can hold: every line, and the end of every range
/// that names one, has a number that fits in a `u32`.
pub const MAX_LINES: u32 = 4294967294;

/// The lines `start`, `start + 1`, ..., `end - 1` of a file. Line numbers start at one.
#[derive(Clone, Copy, Debug, PartialEq, Eq, Structural)]
pub struct LineRange {
    pub start: u32,
    pub end: u32,
}

impl LineRange {
    /// A range names at least one line, and no line zero.
    pub open spec fn is_valid(self) -> bool {
        1 <= self.start < self.end
    }

    /// How many lines the range names.
    pub open spec fn count(self) -> nat {
        if self.start < self.end {
            (self.end - self.start) as nat
        } else {
            0
        }
    }

    /// Whether line `n` lies in the range.
    pub open spec fn covers(self, n: int) -> bool {
        self.start <= n < self.end
    }

    /// The range from `start` up to `end`, `end` left out.
    pub fn new(start: u32, end: u32) -> (r: LineRange)
        ensures
            r.start == start,
            r.end == end,
    {
        LineRange { start, end }
    }

    /// How many lines the range names.
    pub fn len(&self) -> (n: u32)
        ensures
            n == self.count(),
    {
        if self.start < self.end {
            self.end - self.start
        } else {
            0
        }
    }
}

/// A list of ranges is in order when every range is valid and each one ends
/// no later than the next one starts: ascending, and no line named twice.
pub open spec fn ranges_ok(rs: Seq<LineRange>) -> bool {
    &&& forall|i: int| 0 <= i < rs.len() ==> (#[trigger] rs[i]).is_valid()
    &&& forall|i: int, j: int| 0 <= i < j < rs.len() ==> (#[trigger] rs[i]).end <= (#[trigger] rs[j]).start
}

/// The number of lines that the ranges of a list name, range by range.
pub open spec fn total_lines(rs: Seq<LineRange>) -> nat
    decreases rs.len(),
{
    if rs.len() == 0 {
        0
    } else {
        total_lines(rs.drop_last()) + rs.last().count()
    }
}

/// The line after the last one that a list in order names; one for the empty list.
pub open spec fn ranges_end(rs: Seq<LineRange>) -> int {
    if rs.len() == 0 {
        1
    } else {
        rs.last().end as int
    }
}

/// Whether some range of the list names line `n`.
pub open spec fn ranges_cover(rs: Seq<LineRange>, n: int) -> bool {
    exists|i: int| 0 <= i < rs.len() && (#[trigger] rs[i]).covers(n)
}

/// Every prefix of a list in order is in order.
pub proof fn lemma_ranges_ok_prefix(rs: Seq<LineRange>, n: int)
    requires
        ranges_ok(rs),
        0 <= n <= rs.len(),
    ensures
        ranges_ok(rs.take(n)),
{
    let p = rs.take(n);
    assert forall|i: int| 0 <= i < p.len() implies (#[trigger] p[i]).is_valid() by {
        assert(p[i] == rs[i]);
    }
    assert forall|i: int, j: int| 0 <= i < j < p.len() implies (#[trigger] p[i]).end <= (
    #[trigger] p[j]).start by {
        assert(p[i] == rs[i]);
        assert(p[j] == rs[j]);
    }
}

/// A list in order names fewer lines than the number at which it ends: the
/// lines it names are distinct and all lie below that number.
pub proof fn lemma_total_below_end(rs: Seq<LineRange>)
    requires
        ranges_ok(rs),
    ensures
        total_lines(rs) <= ranges_end(rs) - 1,
    decreases rs.len(),
{
    if rs.len() > 0 {
        let init = rs.drop_last();
        lemma_ranges_ok_prefix(rs, rs.len() - 1);
        assert(init =~= rs.take(rs.len() - 1));
        lemma_total_below_end(init);
        assert(rs.last() == rs[rs.len() - 1]);
        assert(rs.last().is_valid());
        if init.len() > 0 {
            assert(init.last() == rs[rs.len() - 2]);
            assert(rs[rs.len() - 2].end <= rs[rs.len() - 1].start);
        }
    }
}

/// The total of a prefix that is one range longer.
pub proof fn lemma_total_step(rs: Seq<LineRange>, n: int)
    requires
        0 <= n < rs.len(),
    ensures
        total_lines(rs.take(n + 1)) == total_lines(rs.take(n)) + rs[n].count(),
{
    assert(rs.take(n + 1).drop_last() =~= rs.take(n));
    assert(rs.take(n + 1).last() == rs[n]);
}

/// Whether the ranges are in order.
pub fn check_ranges(rs: &Vec<LineRange>) -> (ok: bool)
    ensures
        ok == ranges_ok(rs@),
{
    let mut i: usize = 0;
    let mut floor: u32 = 1;
    while i < rs.len()
        invariant
            0 <= i <= rs.len(),
            ranges_ok(rs@.take(i as int)),
            floor == ranges_end(rs@.take(i as int)),
        decreases rs.len() - i,
    {
        let r = rs[i];
        if !(floor <= r.start && r.start < r.end) {
            proof {
                if ranges_ok(rs@) {
                    assert(rs@[i as int].is_valid());
                    if i > 0 {
                        assert(rs@.take(i as int).last() == rs@[i - 1]);
                        assert(rs@[i - 1].end <= rs@[i as int].start);
                    }
                }
            }
            return false;
        }
        proof {
            let p = rs@.take(i as int);
            let q = rs@.take(i + 1);
            assert(q.last() == rs@[i as int]);
            assert forall|a: int| 0 <= a < q.len() implies (#[trigger] q[a]).is_valid() by {
                if a < i {
                    assert(q[a] == p[a]);
                }
            }
            assert forall|a: int, b: int| 0 <= a < b < q.len() implies (#[trigger] q[a]).end <= (
            #[trigger] q[b]).start by {
                if b < i {
                    assert(q[a] == p[a]);
                    assert(q[b] == p[b]);
                } else {
                    assert(q[a] == p[a]);
                    assert(p[a].is_valid());
                    if a < i - 1 {
                        assert(p[a].end <= p[i - 1].start);
                        assert(p[i - 1].is_valid());
                    }
                    assert(p.last() == p[i - 1]);
                }
            }
        }
        floor = r.end;
        i += 1;
    }
    proof {
        assert(rs@.take(i as int) =~= rs@);
    }
    true
}

/// The number of lines that the ranges name, or `u64::MAX` where that number is larger.
pub fn count_lines(rs: &Vec<LineRange>) -> (n: u64)
    ensures
        n == if total_lines(rs@) <= u64::MAX { total_lines(rs@) } else { u64::MAX as nat },
{
    let mut i: usize = 0;
    let mut n: u64 = 0;
    while i < rs.len()
        invariant
            0 <= i <= rs.len(),
            n == if total_lines(rs@.take(i as int)) <= u64::MAX {
                total_lines(rs@.take(i as int))
            } else {
                u64::MAX as nat
            },
        decreases rs.len() - i,
    {
        proof {
            lemma_total_step(rs@, i as int);
        }
        let c: u32 = rs[i].len();
        n = n.saturating_add(c as u64);
        i += 1;
    }
    proof {
        assert(rs@.take(i as int) =~= rs@);
    }
    n
}

} // verus!
