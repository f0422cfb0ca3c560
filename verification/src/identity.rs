//! Line identity under shifting line numbers: where the lines of a file
//! stand after ranges were taken out of it or put into it.

use vstd::prelude::*;
use crate::ranges::{
    LineRange, ranges_ok, ranges_end, ranges_cover, total_lines, lemma_ranges_ok_prefix,
};
use crate::lines::{LineOrigin, removable, without_ranges, with_ranges, written_block,
    lemma_without_ranges_append, lemma_without_ranges_len, lemma_with_ranges_len,
    lemma_fits_before_last};

verus! {

/// How many lines of a range lie above line `n` in the file, that is, have
/// a smaller number.
pub open spec fn range_above(r: LineRange, n: int) -> nat {
    if n <= r.start {
        0
    } else if n >= r.end {
        r.count()
    } else {
        (n - r.start) as nat
    }
}

/// How many lines the ranges name above line `n`.
pub open spec fn lines_above(rs: Seq<LineRange>, n: int) -> nat
    decreases rs.len(),
{
    if rs.len() == 0 {
        0
    } else {
        lines_above(rs.drop_last(), n) + range_above(rs.last(), n)
    }
}

/// What a list in order names above a line behind its end is all it names.
pub proof fn lemma_lines_above_all(rs: Seq<LineRange>, n: int)
    requires
        ranges_ok(rs),
        ranges_end(rs) <= n,
    ensures
        lines_above(rs, n) == total_lines(rs),
    decreases rs.len(),
{
    if rs.len() > 0 {
        let init = rs.drop_last();
        lemma_ranges_ok_prefix(rs, rs.len() - 1);
        assert(init =~= rs.take(rs.len() - 1));
        assert(rs.last() == rs[rs.len() - 1]);
        assert(rs.last().is_valid());
        if init.len() > 0 {
            assert(init.last() == rs[rs.len() - 2]);
            assert(rs[rs.len() - 2].end <= rs[rs.len() - 1].start);
        }
        lemma_lines_above_all(init, n);
    }
}

/// A surviving line keeps its place among the survivors. Where ranges are
/// taken out of a file, a line that none of them names is still there, and
/// it has moved up by the number of lines taken out above it; the file is
/// shorter by all the lines taken out, so lines that a range names are gone.
pub proof fn lemma_survivor_moves_up(lines: Seq<Option<LineOrigin>>, rs: Seq<LineRange>, n: int)
    requires
        removable(lines.len(), rs),
        1 <= n <= lines.len(),
        !ranges_cover(rs, n),
    ensures
        without_ranges(lines, rs).len() == lines.len() - total_lines(rs),
        0 <= n - 1 - lines_above(rs, n) < without_ranges(lines, rs).len(),
        without_ranges(lines, rs)[n - 1 - lines_above(rs, n)] == lines[n - 1],
    decreases rs.len(),
{
    lemma_without_ranges_len(lines, rs);
    if rs.len() > 0 {
        let r = rs.last();
        let init = rs.drop_last();
        assert(r == rs[rs.len() - 1]);
        assert(r.is_valid());
        assert(!r.covers(n));
        lemma_ranges_ok_prefix(rs, rs.len() - 1);
        assert(init =~= rs.take(rs.len() - 1));
        if init.len() > 0 {
            assert(init.last() == rs[rs.len() - 2]);
            assert(rs[rs.len() - 2].end <= rs[rs.len() - 1].start);
        }
        let head = lines.take(r.start - 1);
        let tail = lines.skip(r.end - 1);
        let kept = without_ranges(head, init);
        lemma_without_ranges_len(head, init);
        if n < r.start {
            assert(!ranges_cover(init, n)) by {
                if ranges_cover(init, n) {
                    let i = choose|i: int| 0 <= i < init.len() && (#[trigger] init[i]).covers(n);
                    assert(rs[i].covers(n));
                }
            }
            lemma_survivor_moves_up(head, init, n);
            assert((kept + tail)[n - 1 - lines_above(init, n)] == kept[n - 1 - lines_above(init, n)]);
        } else {
            lemma_lines_above_all(init, n);
            assert((kept + tail)[n - 1 - total_lines(rs)] == tail[n - r.end]);
        }
    }
}

/// A line that is put in stands where its range says. Where ranges are put
/// into a file for checkpoint `k`, every line that one of them names is a
/// line of that checkpoint, with the number that the range gives it.
pub proof fn lemma_written_line_stands(
    lines: Seq<Option<LineOrigin>>,
    rs: Seq<LineRange>,
    k: usize,
    j: int,
    n: int,
)
    requires
        ranges_ok(rs),
        ranges_end(rs) - 1 <= lines.len() + total_lines(rs),
        0 <= j < rs.len(),
        rs[j].covers(n),
    ensures
        with_ranges(lines, rs, k).len() == lines.len() + total_lines(rs),
        1 <= n <= with_ranges(lines, rs, k).len(),
        with_ranges(lines, rs, k)[n - 1] == Some(LineOrigin { checkpoint: k, line: n as u32 }),
    decreases rs.len(),
{
    lemma_with_ranges_len(lines, rs, k);
    let r = rs.last();
    let init = rs.drop_last();
    assert(r == rs[rs.len() - 1]);
    assert(r.is_valid());
    lemma_fits_before_last(lines.len(), rs);
    lemma_with_ranges_len(lines, init, k);
    let prev = with_ranges(lines, init, k);
    let head = prev.take(r.start - 1);
    let block = written_block(r, k);
    let tail = prev.skip(r.start - 1);
    if j == rs.len() - 1 {
        assert((head + block + tail)[n - 1] == block[n - r.start]);
    } else {
        assert(init[j] == rs[j]);
        assert(rs[j].end <= rs[rs.len() - 1].start);
        lemma_written_line_stands(lines, init, k, j, n);
        assert((head + block + tail)[n - 1] == prev[n - 1]);
    }
}

/// The lines that were there keep their order around the lines put in:
/// taking out of the new file the very ranges that were put into it gives
/// the old file back.
pub proof fn lemma_taking_out_what_was_put_in(
    lines: Seq<Option<LineOrigin>>,
    rs: Seq<LineRange>,
    k: usize,
)
    requires
        ranges_ok(rs),
        ranges_end(rs) - 1 <= lines.len() + total_lines(rs),
    ensures
        removable(with_ranges(lines, rs, k).len(), rs),
        without_ranges(with_ranges(lines, rs, k), rs) == lines,
    decreases rs.len(),
{
    lemma_with_ranges_len(lines, rs, k);
    if rs.len() > 0 {
        let r = rs.last();
        let init = rs.drop_last();
        assert(r == rs[rs.len() - 1]);
        assert(r.is_valid());
        lemma_fits_before_last(lines.len(), rs);
        lemma_with_ranges_len(lines, init, k);
        lemma_taking_out_what_was_put_in(lines, init, k);
        let prev = with_ranges(lines, init, k);
        let head = prev.take(r.start - 1);
        let block = written_block(r, k);
        let tail = prev.skip(r.start - 1);
        let now = head + block + tail;
        assert(now.take(r.start - 1) =~= head);
        assert(now.skip(r.end - 1) =~= tail);
        if init.len() > 0 {
            assert(init.last() == rs[rs.len() - 2]);
            assert(rs[rs.len() - 2].end <= rs[rs.len() - 1].start);
        }
        lemma_without_ranges_append(head, tail, init);
        assert(head + tail =~= prev);
    }
}

} // verus!
