//! The lines of one file, each with the checkpoint that last wrote it, and the
//! two edits that a checkpoint makes to them: taking ranges out and putting
//! ranges in.

use vstd::prelude::*;
use crate::ranges::{LineRange, MAX_LINES, ranges_ok, ranges_end, total_lines, check_ranges,
    count_lines, lemma_ranges_ok_prefix, lemma_total_below_end, lemma_total_step};

verus! {

/// Where a surviving line comes from: the checkpoint that wrote it, by its
/// index in the log, and the number the line had in the file as that edit left it.
#[derive(Clone, Copy, Debug, PartialEq, Eq, Structural)]
pub struct LineOrigin {
    pub checkpoint: usize,
    pub line: u32,
}

/// Every line that a checkpoint wrote was written by one of the first `n` checkpoints.
pub open spec fn origins_below(lines: Seq<Option<LineOrigin>>, n: int) -> bool {
    forall|i: int|
        0 <= i < lines.len() ==> match #[trigger] lines[i] {
            Some(o) => o.checkpoint < n,
            None => true,
        }
}

/// The lines that one range puts into a file on behalf of checkpoint `k`.
pub open spec fn written_block(r: LineRange, k: usize) -> Seq<Option<LineOrigin>> {
    Seq::new(r.count(), |t: int| Some(LineOrigin { checkpoint: k, line: (r.start + t) as u32 }))
}

/// Ranges can be taken out of a file of `len` lines when they are in order
/// and name lines of that file only.
pub open spec fn removable(len: nat, rs: Seq<LineRange>) -> bool {
    ranges_ok(rs) && ranges_end(rs) - 1 <= len
}

/// Ranges can be put into a file of `len` lines when they are in order, name
/// lines of the file as it stands afterwards only, and that file is not too long.
pub open spec fn insertable(len: nat, rs: Seq<LineRange>) -> bool {
    &&& ranges_ok(rs)
    &&& ranges_end(rs) - 1 <= len + total_lines(rs)
    &&& len + total_lines(rs) <= MAX_LINES
}

/// The file without the lines that the ranges name. The ranges count lines
/// of the file as it is before any of them is taken out: what stands before the
/// last range, less the earlier ranges, and then what stands behind the last range.
pub open spec fn without_ranges(lines: Seq<Option<LineOrigin>>, rs: Seq<LineRange>) -> Seq<
    Option<LineOrigin>,
>
    decreases rs.len(),
{
    if rs.len() == 0 {
        lines
    } else {
        let r = rs.last();
        without_ranges(lines.take(r.start - 1), rs.drop_last()) + lines.skip(r.end - 1)
    }
}

/// The file with new lines of checkpoint `k` at the places that the ranges
/// name. The ranges count lines of the file as it is once all of them are in:
/// the earlier ranges go in first, and the last one opens a gap at its start.
pub open spec fn with_ranges(lines: Seq<Option<LineOrigin>>, rs: Seq<LineRange>, k: usize) -> Seq<
    Option<LineOrigin>,
>
    decreases rs.len(),
{
    if rs.len() == 0 {
        lines
    } else {
        let r = rs.last();
        let prev = with_ranges(lines, rs.drop_last(), k);
        prev.take(r.start - 1) + written_block(r, k) + prev.skip(r.start - 1)
    }
}

/// Lines behind the last range stay as they are when ranges are taken out.
pub proof fn lemma_without_ranges_append(
    a: Seq<Option<LineOrigin>>,
    b: Seq<Option<LineOrigin>>,
    rs: Seq<LineRange>,
)
    requires
        removable(a.len(), rs),
    ensures
        without_ranges(a + b, rs) == without_ranges(a, rs) + b,
{
    if rs.len() > 0 {
        let r = rs.last();
        assert(r == rs[rs.len() - 1]);
        assert(r.is_valid());
        assert((a + b).take(r.start - 1) =~= a.take(r.start - 1));
        assert((a + b).skip(r.end - 1) =~= a.skip(r.end - 1) + b);
        assert(without_ranges(a, rs) + b =~= without_ranges(a.take(r.start - 1), rs.drop_last())
            + (a.skip(r.end - 1) + b));
    }
}

/// Taking ranges out shortens the file by the number of lines they name.
pub proof fn lemma_without_ranges_len(lines: Seq<Option<LineOrigin>>, rs: Seq<LineRange>)
    requires
        removable(lines.len(), rs),
    ensures
        without_ranges(lines, rs).len() == lines.len() - total_lines(rs),
        total_lines(rs) <= lines.len(),
    decreases rs.len(),
{
    lemma_total_below_end(rs);
    if rs.len() > 0 {
        let r = rs.last();
        let init = rs.drop_last();
        assert(r == rs[rs.len() - 1]);
        assert(r.is_valid());
        lemma_ranges_ok_prefix(rs, rs.len() - 1);
        assert(init =~= rs.take(rs.len() - 1));
        if init.len() > 0 {
            assert(init.last() == rs[rs.len() - 2]);
            assert(rs[rs.len() - 2].end <= rs[rs.len() - 1].start);
        }
        lemma_without_ranges_len(lines.take(r.start - 1), init);
    }
}

/// Putting ranges in lengthens the file by the number of lines they name.
pub proof fn lemma_with_ranges_len(lines: Seq<Option<LineOrigin>>, rs: Seq<LineRange>, k: usize)
    requires
        ranges_ok(rs),
        ranges_end(rs) - 1 <= lines.len() + total_lines(rs),
    ensures
        with_ranges(lines, rs, k).len() == lines.len() + total_lines(rs),
    decreases rs.len(),
{
    if rs.len() > 0 {
        lemma_fits_before_last(lines.len(), rs);
        lemma_with_ranges_len(lines, rs.drop_last(), k);
        assert(rs.last() == rs[rs.len() - 1]);
        assert(rs.last().is_valid());
    }
}

/// Where ranges fit into a file, so do all of them but the last, and the last
/// one starts no further than one line behind what is there by then.
pub proof fn lemma_fits_before_last(len: nat, rs: Seq<LineRange>)
    requires
        ranges_ok(rs),
        ranges_end(rs) - 1 <= len + total_lines(rs),
        rs.len() > 0,
    ensures
        ranges_ok(rs.drop_last()),
        ranges_end(rs.drop_last()) - 1 <= len + total_lines(rs.drop_last()),
        rs.last().start - 1 <= len + total_lines(rs.drop_last()),
{
    let init = rs.drop_last();
    lemma_ranges_ok_prefix(rs, rs.len() - 1);
    assert(init =~= rs.take(rs.len() - 1));
    assert(rs.last() == rs[rs.len() - 1]);
    assert(rs.last().is_valid());
    if init.len() > 0 {
        assert(init.last() == rs[rs.len() - 2]);
        assert(rs[rs.len() - 2].end <= rs[rs.len() - 1].start);
    }
}

/// Where ranges fit into a file, every prefix of them fits too.
pub proof fn lemma_fits_prefix(len: nat, rs: Seq<LineRange>, n: int)
    requires
        ranges_ok(rs),
        ranges_end(rs) - 1 <= len + total_lines(rs),
        0 <= n <= rs.len(),
    ensures
        ranges_ok(rs.take(n)),
        ranges_end(rs.take(n)) - 1 <= len + total_lines(rs.take(n)),
        n < rs.len() ==> rs[n].start - 1 <= len + total_lines(rs.take(n)),
    decreases rs.len() - n,
{
    if n == rs.len() {
        assert(rs.take(n) =~= rs);
    } else {
        lemma_fits_prefix(len, rs, n + 1);
        let q = rs.take(n + 1);
        lemma_fits_before_last(len, q);
        assert(q.drop_last() =~= rs.take(n));
        assert(q.last() == rs[n]);
    }
}

/// Taking ranges out brings in no line of a later checkpoint.
pub proof fn lemma_without_ranges_origins(
    lines: Seq<Option<LineOrigin>>,
    rs: Seq<LineRange>,
    n: int,
)
    requires
        removable(lines.len(), rs),
        origins_below(lines, n),
    ensures
        origins_below(without_ranges(lines, rs), n),
    decreases rs.len(),
{
    if rs.len() > 0 {
        let r = rs.last();
        let init = rs.drop_last();
        assert(r == rs[rs.len() - 1]);
        assert(r.is_valid());
        lemma_ranges_ok_prefix(rs, rs.len() - 1);
        assert(init =~= rs.take(rs.len() - 1));
        if init.len() > 0 {
            assert(init.last() == rs[rs.len() - 2]);
            assert(rs[rs.len() - 2].end <= rs[rs.len() - 1].start);
        }
        let head = lines.take(r.start - 1);
        assert forall|i: int| 0 <= i < head.len() implies match #[trigger] head[i] {
            Some(o) => o.checkpoint < n,
            None => true,
        } by {
            assert(head[i] == lines[i]);
        }
        lemma_without_ranges_origins(head, init, n);
        let kept = without_ranges(head, init);
        let tail = lines.skip(r.end - 1);
        let out = kept + tail;
        assert forall|i: int| 0 <= i < out.len() implies match #[trigger] out[i] {
            Some(o) => o.checkpoint < n,
            None => true,
        } by {
            if i < kept.len() {
                assert(out[i] == kept[i]);
            } else {
                assert(out[i] == tail[i - kept.len()]);
                assert(tail[i - kept.len()] == lines[i - kept.len() + r.end - 1]);
            }
        }
    }
}

/// Putting in ranges for checkpoint `k` brings in lines of that checkpoint only.
pub proof fn lemma_with_ranges_origins(
    lines: Seq<Option<LineOrigin>>,
    rs: Seq<LineRange>,
    k: usize,
    n: int,
)
    requires
        ranges_ok(rs),
        ranges_end(rs) - 1 <= lines.len() + total_lines(rs),
        origins_below(lines, n),
        k < n,
    ensures
        origins_below(with_ranges(lines, rs, k), n),
    decreases rs.len(),
{
    if rs.len() > 0 {
        let r = rs.last();
        let init = rs.drop_last();
        lemma_fits_before_last(lines.len(), rs);
        lemma_with_ranges_origins(lines, init, k, n);
        lemma_with_ranges_len(lines, init, k);
        let prev = with_ranges(lines, init, k);
        let head = prev.take(r.start - 1);
        let block = written_block(r, k);
        let tail = prev.skip(r.start - 1);
        let out = head + block + tail;
        assert forall|i: int| 0 <= i < out.len() implies match #[trigger] out[i] {
            Some(o) => o.checkpoint < n,
            None => true,
        } by {
            if i < head.len() {
                assert(out[i] == prev[i]);
            } else if i < head.len() + block.len() {
                assert(out[i] == block[i - head.len()]);
            } else {
                assert(out[i] == tail[i - head.len() - block.len()]);
                assert(tail[i - head.len() - block.len()] == prev[i - block.len()]);
            }
        }
    }
}

/// Takes the ranges out of the file, if they can be taken out of it.
pub fn remove_lines(lines: &Vec<Option<LineOrigin>>, rs: &Vec<LineRange>) -> (out: Option<
    Vec<Option<LineOrigin>>,
>)
    ensures
        out.is_some() == removable(lines@.len(), rs@),
        out matches Some(v) ==> v@ == without_ranges(lines@, rs@),
{
    if !check_ranges(rs) {
        return None;
    }
    if rs.len() > 0 && (rs[rs.len() - 1].end - 1) as usize > lines.len() {
        return None;
    }
    let mut out: Vec<Option<LineOrigin>> = Vec::new();
    let mut i: usize = 0;
    let mut j: usize = 0;
    while j < rs.len()
        invariant
            removable(lines@.len(), rs@),
            0 <= j <= rs.len(),
            i == ranges_end(rs@.take(j as int)) - 1,
            i <= lines.len(),
            out@ == without_ranges(lines@.take(i as int), rs@.take(j as int)),
        decreases rs.len() - j,
    {
        let r = rs[j];
        proof {
            assert(rs@[j as int].is_valid());
            if j > 0 {
                assert(rs@.take(j as int).last() == rs@[j - 1]);
                assert(rs@[j - 1].end <= rs@[j as int].start);
            }
            if j + 1 < rs.len() {
                assert(rs@[j as int].end <= rs@[rs.len() - 1].start);
                assert(rs@[rs.len() - 1].is_valid());
            }
            lemma_ranges_ok_prefix(rs@, j as int);
        }
        let stop: usize = (r.start - 1) as usize;
        while i < stop
            invariant
                removable(lines@.len(), rs@),
                ranges_ok(rs@.take(j as int)),
                0 <= j < rs.len(),
                ranges_end(rs@.take(j as int)) - 1 <= i <= stop,
                stop <= lines.len(),
                out@ == without_ranges(lines@.take(i as int), rs@.take(j as int)),
            decreases stop - i,
        {
            proof {
                lemma_without_ranges_append(
                    lines@.take(i as int),
                    seq![lines@[i as int]],
                    rs@.take(j as int),
                );
                assert(lines@.take(i + 1) =~= lines@.take(i as int) + seq![lines@[i as int]]);
                assert(out@.push(lines@[i as int]) =~= out@ + seq![lines@[i as int]]);
            }
            out.push(lines[i]);
            i += 1;
        }
        proof {
            let q = rs@.take(j + 1);
            assert(q.last() == rs@[j as int]);
            assert(q.drop_last() =~= rs@.take(j as int));
            let cut = lines@.take(r.end - 1);
            assert(cut.take(r.start - 1) =~= lines@.take(i as int));
            assert(cut.skip(r.end - 1) =~= Seq::<Option<LineOrigin>>::empty());
            assert(without_ranges(cut, q) =~= out@);
        }
        i = (r.end - 1) as usize;
        j += 1;
    }
    proof {
        assert(rs@.take(j as int) =~= rs@);
    }
    while i < lines.len()
        invariant
            removable(lines@.len(), rs@),
            ranges_end(rs@) - 1 <= i <= lines.len(),
            out@ == without_ranges(lines@.take(i as int), rs@),
        decreases lines.len() - i,
    {
        proof {
            lemma_without_ranges_append(lines@.take(i as int), seq![lines@[i as int]], rs@);
            assert(lines@.take(i + 1) =~= lines@.take(i as int) + seq![lines@[i as int]]);
            assert(out@.push(lines@[i as int]) =~= out@ + seq![lines@[i as int]]);
        }
        out.push(lines[i]);
        i += 1;
    }
    proof {
        assert(lines@.take(i as int) =~= lines@);
    }
    Some(out)
}

/// Puts new lines of checkpoint `k` into the file at the ranges, if they fit into it.
pub fn insert_lines(lines: &Vec<Option<LineOrigin>>, rs: &Vec<LineRange>, k: usize) -> (out:
    Option<Vec<Option<LineOrigin>>>)
    ensures
        out.is_some() == insertable(lines@.len(), rs@),
        out matches Some(v) ==> v@ == with_ranges(lines@, rs@, k),
{
    if !check_ranges(rs) {
        return None;
    }
    proof {
        lemma_total_below_end(rs@);
    }
    let total: u64 = count_lines(rs);
    if lines.len() > MAX_LINES as usize || lines.len() as u64 + total > MAX_LINES as u64 {
        return None;
    }
    if rs.len() > 0 && (rs[rs.len() - 1].end - 1) as u64 > lines.len() as u64 + total {
        return None;
    }
    let mut out: Vec<Option<LineOrigin>> = Vec::new();
    let mut i: usize = 0;
    let mut j: usize = 0;
    while j < rs.len()
        invariant
            insertable(lines@.len(), rs@),
            0 <= j <= rs.len(),
            i <= lines.len(),
            out@.len() == i + total_lines(rs@.take(j as int)),
            out@.len() == if j == 0 { 0 } else { rs@[j - 1].end - 1 },
            out@ + lines@.skip(i as int) == with_ranges(lines@, rs@.take(j as int), k),
        decreases rs.len() - j,
    {
        let r = rs[j];
        proof {
            assert(rs@[j as int].is_valid());
            if j > 0 {
                assert(rs@[j - 1].end <= rs@[j as int].start);
            }
            lemma_fits_prefix(lines@.len(), rs@, j as int);
            lemma_total_step(rs@, j as int);
        }
        let stop: usize = (r.start - 1) as usize;
        while out.len() < stop
            invariant
                i <= lines.len(),
                out@.len() <= stop,
                out@.len() == i + total_lines(rs@.take(j as int)),
                stop <= lines@.len() + total_lines(rs@.take(j as int)),
                out@ + lines@.skip(i as int) == with_ranges(lines@, rs@.take(j as int), k),
            decreases stop - out@.len(),
        {
            proof {
                assert(out@.push(lines@[i as int]) + lines@.skip(i + 1) =~= out@ + lines@.skip(
                    i as int,
                ));
            }
            out.push(lines[i]);
            i += 1;
        }
        let ghost before = out@;
        let mut n: u32 = r.start;
        while n < r.end
            invariant
                r.start <= n <= r.end,
                r == rs@[j as int],
                out@ == before + written_block(r, k).take(n - r.start),
            decreases r.end - n,
        {
            proof {
                let b = written_block(r, k);
                assert(b.take(n + 1 - r.start) =~= b.take(n - r.start).push(
                    Some(LineOrigin { checkpoint: k, line: n }),
                ));
            }
            out.push(Some(LineOrigin { checkpoint: k, line: n }));
            n += 1;
        }
        proof {
            let b = written_block(r, k);
            assert(b.take(r.end - r.start) =~= b);
            let q = rs@.take(j + 1);
            assert(q.last() == rs@[j as int]);
            assert(q.drop_last() =~= rs@.take(j as int));
            let prev = with_ranges(lines@, rs@.take(j as int), k);
            assert(prev.take(r.start - 1) =~= before);
            assert(prev.skip(r.start - 1) =~= lines@.skip(i as int));
            assert(out@ + lines@.skip(i as int) =~= with_ranges(lines@, q, k));
        }
        j += 1;
    }
    proof {
        assert(rs@.take(j as int) =~= rs@);
    }
    while i < lines.len()
        invariant
            i <= lines.len(),
            out@ + lines@.skip(i as int) == with_ranges(lines@, rs@, k),
        decreases lines.len() - i,
    {
        proof {
            assert(out@.push(lines@[i as int]) + lines@.skip(i + 1) =~= out@ + lines@.skip(
                i as int,
            ));
        }
        out.push(lines[i]);
        i += 1;
    }
    proof {
        assert(out@ + lines@.skip(i as int) =~= out@);
    }
    Some(out)
}

} // verus!
