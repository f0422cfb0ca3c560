//! Conservation: no author is credited with more surviving lines than the
//! checkpoints of that author reported as added.

use vstd::prelude::*;
use crate::ranges::{
    LineRange, MAX_LINES, ranges_ok, ranges_end, total_lines, lemma_ranges_ok_prefix,
};
use crate::lines::{
    LineOrigin, origins_below, removable, without_ranges, with_ranges, written_block,
    lemma_without_ranges_len, lemma_with_ranges_len, lemma_fits_before_last,
};
use crate::checkpoint::{AuthorView, CheckpointView, EntryView, total_added};
use crate::replay::{FileView, entry_applies, apply_entry, entry_fits, after_entry, replayed,
    replayed_all, replay_succeeds, steps_fit_before, step_fits, is_base, lemma_replayed_files};
use crate::ownership::{TargetView, targets_ok, base_files, paths_differ};
use crate::authorship::{
    owners_of, runs, authorship_of, selected, grown, single_line, lemma_runs_partition,
};
use crate::engine::authors_of;
use crate::stats::{PickView, lines_kept, net_lines, net_of, gross_picked, gross_additions_of};

verus! {

/// The lines of a file whose author the pick takes in.
pub open spec fn lines_by(
    lines: Seq<Option<LineOrigin>>,
    authors: Seq<AuthorView>,
    pick: PickView,
) -> nat
    decreases lines.len(),
{
    if lines.len() == 0 {
        0
    } else {
        lines_by(lines.drop_last(), authors, pick) + match lines.last() {
            Some(o) => if pick.takes(authors[o.checkpoint as int]) {
                1nat
            } else {
                0nat
            },
            None => 0nat,
        }
    }
}

/// The lines of a list of files whose author the pick takes in.
pub open spec fn files_by(files: Seq<FileView>, authors: Seq<AuthorView>, pick: PickView) -> nat
    decreases files.len(),
{
    if files.len() == 0 {
        0
    } else {
        files_by(files.drop_last(), authors, pick) + lines_by(files.last().lines, authors, pick)
    }
}

/// What an entry of checkpoint `k` can add to the count at most: the lines
/// it puts in, where the pick takes the author of the checkpoint in.
pub open spec fn credit(e: EntryView, k: int, authors: Seq<AuthorView>, pick: PickView) -> nat {
    if pick.takes(authors[k]) {
        total_lines(e.added)
    } else {
        0
    }
}

/// The lines that the entries reached by the replay before entry `m` of
/// checkpoint `k` put in, for the checkpoints whose author the pick takes in.
pub open spec fn credited(log: Seq<CheckpointView>, pick: PickView, k: nat, m: nat) -> nat
    decreases k, m,
{
    if m > 0 {
        credited(log, pick, k, (m - 1) as nat) + credit(
            log[k as int].entries[m - 1],
            k as int,
            authors_of(log),
            pick,
        )
    } else if k > 0 {
        credited(log, pick, (k - 1) as nat, log[k - 1].entries.len())
    } else {
        0
    }
}

/// The count of two stretches of lines is the sum of their counts.
pub proof fn lemma_lines_by_concat(
    a: Seq<Option<LineOrigin>>,
    b: Seq<Option<LineOrigin>>,
    authors: Seq<AuthorView>,
    pick: PickView,
)
    ensures
        lines_by(a + b, authors, pick) == lines_by(a, authors, pick) + lines_by(b, authors, pick),
    decreases b.len(),
{
    if b.len() == 0 {
        assert(a + b =~= a);
    } else {
        lemma_lines_by_concat(a, b.drop_last(), authors, pick);
        assert((a + b).drop_last() =~= a + b.drop_last());
        assert((a + b).last() == b.last());
    }
}

/// A file counts as much as its two parts at any cut.
pub proof fn lemma_lines_by_split(
    lines: Seq<Option<LineOrigin>>,
    n: int,
    authors: Seq<AuthorView>,
    pick: PickView,
)
    requires
        0 <= n <= lines.len(),
    ensures
        lines_by(lines, authors, pick) == lines_by(lines.take(n), authors, pick) + lines_by(
            lines.skip(n),
            authors,
            pick,
        ),
{
    lemma_lines_by_concat(lines.take(n), lines.skip(n), authors, pick);
    assert(lines.take(n) + lines.skip(n) =~= lines);
}

/// Lines that no checkpoint wrote count for nobody.
pub proof fn lemma_lines_by_unwritten(
    lines: Seq<Option<LineOrigin>>,
    authors: Seq<AuthorView>,
    pick: PickView,
)
    requires
        origins_below(lines, 0),
    ensures
        lines_by(lines, authors, pick) == 0,
    decreases lines.len(),
{
    if lines.len() > 0 {
        assert forall|i: int| 0 <= i < lines.drop_last().len() implies match #[trigger] lines.drop_last()[i] {
            Some(o) => o.checkpoint < 0,
            None => true,
        } by {
            assert(lines.drop_last()[i] == lines[i]);
        }
        lemma_lines_by_unwritten(lines.drop_last(), authors, pick);
        assert(lines.last() == lines[lines.len() - 1]);
    }
}

/// Taking ranges out never raises the count.
pub proof fn lemma_without_ranges_count(
    lines: Seq<Option<LineOrigin>>,
    rs: Seq<LineRange>,
    authors: Seq<AuthorView>,
    pick: PickView,
)
    requires
        removable(lines.len(), rs),
    ensures
        lines_by(without_ranges(lines, rs), authors, pick) <= lines_by(lines, authors, pick),
    decreases rs.len(),
{
    if rs.len() > 0 {
        let r = rs.last();
        let init = rs.drop_last();
        assert(r == rs[rs.len() - 1]);
        assert(r.is_valid());
        lemma_ranges_ok_prefix(rs, rs.len() - 1);
        assert(init =~= rs.take(rs.len() - 1));
        if init.len() > 0 {
            assert(init.last() == rs[rs.len() - 2]);
            assert(rs[rs.len() - 2].end <= rs[rs.len() - 1].start);
        }
        let head = lines.take(r.start - 1);
        let tail = lines.skip(r.end - 1);
        lemma_without_ranges_count(head, init, authors, pick);
        lemma_lines_by_concat(without_ranges(head, init), tail, authors, pick);
        lemma_lines_by_split(lines, r.end - 1, authors, pick);
        let upto = lines.take(r.end - 1);
        lemma_lines_by_split(upto, r.start - 1, authors, pick);
        assert(upto.take(r.start - 1) =~= head);
    }
}

/// The lines that a range puts in count for the author of their checkpoint.
pub proof fn lemma_written_block_count(
    r: LineRange,
    k: usize,
    authors: Seq<AuthorView>,
    pick: PickView,
)
    ensures
        lines_by(written_block(r, k), authors, pick) == if pick.takes(authors[k as int]) {
            r.count()
        } else {
            0
        },
    decreases r.count(),
{
    let b = written_block(r, k);
    if r.count() > 0 {
        let shorter = LineRange { start: r.start, end: (r.end - 1) as u32 };
        lemma_written_block_count(shorter, k, authors, pick);
        assert(b.drop_last() =~= written_block(shorter, k));
    }
}

/// Putting ranges in for checkpoint `k` raises the count by the lines put
/// in, where the pick takes the author of that checkpoint in, and else not at all.
pub proof fn lemma_with_ranges_count(
    lines: Seq<Option<LineOrigin>>,
    rs: Seq<LineRange>,
    k: usize,
    authors: Seq<AuthorView>,
    pick: PickView,
)
    requires
        ranges_ok(rs),
        ranges_end(rs) - 1 <= lines.len() + total_lines(rs),
    ensures
        lines_by(with_ranges(lines, rs, k), authors, pick) == lines_by(lines, authors, pick) + if pick.takes(
            authors[k as int],
        ) {
            total_lines(rs)
        } else {
            0
        },
    decreases rs.len(),
{
    if rs.len() > 0 {
        let r = rs.last();
        let init = rs.drop_last();
        lemma_fits_before_last(lines.len(), rs);
        lemma_with_ranges_count(lines, init, k, authors, pick);
        lemma_with_ranges_len(lines, init, k);
        let prev = with_ranges(lines, init, k);
        let head = prev.take(r.start - 1);
        let tail = prev.skip(r.start - 1);
        let block = written_block(r, k);
        lemma_lines_by_split(prev, r.start - 1, authors, pick);
        lemma_lines_by_concat(head, block, authors, pick);
        lemma_lines_by_concat(head + block, tail, authors, pick);
        lemma_written_block_count(r, k, authors, pick);
    }
}

/// An entry raises the count of a file by its credit at most.
pub proof fn lemma_apply_entry_count(
    lines: Seq<Option<LineOrigin>>,
    e: EntryView,
    k: usize,
    authors: Seq<AuthorView>,
    pick: PickView,
)
    requires
        entry_applies(lines.len(), e),
    ensures
        lines_by(apply_entry(lines, e, k), authors, pick) <= lines_by(lines, authors, pick) + credit(
            e,
            k as int,
            authors,
            pick,
        ),
{
    lemma_without_ranges_len(lines, e.removed);
    lemma_without_ranges_count(lines, e.removed, authors, pick);
    lemma_with_ranges_count(without_ranges(lines, e.removed), e.added, k, authors, pick);
}

/// An entry leaves files of other paths alone.
pub proof fn lemma_after_entry_elsewhere(files: Seq<FileView>, e: EntryView, k: usize)
    requires
        forall|i: int| 0 <= i < files.len() ==> (#[trigger] files[i]).path != e.path,
    ensures
        after_entry(files, e, k) == files,
{
    assert(after_entry(files, e, k) =~= files);
}

/// An entry raises the count of a list of files with differing paths by its
/// credit at most: it changes one file of them, or none.
pub proof fn lemma_after_entry_count(
    files: Seq<FileView>,
    e: EntryView,
    k: usize,
    authors: Seq<AuthorView>,
    pick: PickView,
)
    requires
        paths_differ(files),
        entry_fits(files, e),
    ensures
        files_by(after_entry(files, e, k), authors, pick) <= files_by(files, authors, pick) + credit(
            e,
            k as int,
            authors,
            pick,
        ),
    decreases files.len(),
{
    if files.len() > 0 {
        let init = files.drop_last();
        let f = files.last();
        let n = files.len() - 1;
        assert(f == files[n]);
        assert(after_entry(files, e, k).drop_last() =~= after_entry(init, e, k));
        assert forall|i: int, j: int| 0 <= i < j < init.len() implies (#[trigger] init[i]).path != (
        #[trigger] init[j]).path by {
            assert(init[i] == files[i]);
            assert(init[j] == files[j]);
        }
        assert forall|i: int| 0 <= i < init.len() && (#[trigger] init[i]).path == e.path implies entry_applies(
            init[i].lines.len(),
            e,
        ) by {
            assert(init[i] == files[i]);
        }
        if f.path == e.path {
            assert forall|i: int| 0 <= i < init.len() implies (#[trigger] init[i]).path != e.path by {
                assert(init[i] == files[i]);
                assert(files[i].path != files[n].path);
            }
            lemma_after_entry_elsewhere(init, e, k);
            lemma_apply_entry_count(f.lines, e, k, authors, pick);
            assert(after_entry(files, e, k).last().lines == apply_entry(f.lines, e, k));
        } else {
            lemma_after_entry_count(init, e, k, authors, pick);
            assert(after_entry(files, e, k).last() == f);
        }
    }
}

/// The files of a base commit count for nobody.
pub proof fn lemma_base_count(files: Seq<FileView>, authors: Seq<AuthorView>, pick: PickView)
    requires
        is_base(files),
    ensures
        files_by(files, authors, pick) == 0,
    decreases files.len(),
{
    if files.len() > 0 {
        assert forall|i: int| 0 <= i < files.drop_last().len() implies (#[trigger] files.drop_last()[i]).lines.len()
            <= MAX_LINES && origins_below(files.drop_last()[i].lines, 0) by {
            assert(files.drop_last()[i] == files[i]);
        }
        lemma_base_count(files.drop_last(), authors, pick);
        assert(files.last() == files[files.len() - 1]);
        lemma_lines_by_unwritten(files.last().lines, authors, pick);
    }
}

/// At every point of a replay that has gone through so far, the files count
/// no more lines than the entries behind that point are credited with.
pub proof fn lemma_replayed_count(
    log: Seq<CheckpointView>,
    base: Seq<FileView>,
    pick: PickView,
    k: nat,
    m: nat,
)
    requires
        log.len() <= usize::MAX,
        is_base(base),
        paths_differ(base),
        k <= log.len(),
        k < log.len() ==> m <= log[k as int].entries.len(),
        k == log.len() ==> m == 0,
        steps_fit_before(log, base, k as int, m as int),
    ensures
        files_by(replayed(log, base, k, m), authors_of(log), pick) <= credited(log, pick, k, m),
    decreases k, m,
{
    if m > 0 {
        let j = (m - 1) as nat;
        let before = replayed(log, base, k, j);
        let e = log[k as int].entries[m - 1];
        lemma_replayed_count(log, base, pick, k, j);
        lemma_replayed_files(log, base, k, j);
        assert(step_fits(log, base, k as int, m - 1));
        assert forall|a: int, b: int| 0 <= a < b < before.len() implies (#[trigger] before[a]).path != (
        #[trigger] before[b]).path by {
            assert(before[a].path == base[a].path);
            assert(before[b].path == base[b].path);
        }
        lemma_after_entry_count(before, e, k as usize, authors_of(log), pick);
    } else if k > 0 {
        let j = (k - 1) as nat;
        lemma_replayed_count(log, base, pick, j, log[j as int].entries.len());
    } else {
        lemma_base_count(base, authors_of(log), pick);
    }
}

/// The credit of a checkpoint grows entry by entry.
pub proof fn lemma_credited_within(log: Seq<CheckpointView>, pick: PickView, k: nat, m: nat)
    requires
        k < log.len(),
        m <= log[k as int].entries.len(),
    ensures
        credited(log, pick, k, m) == credited(log, pick, k, 0) + if pick.takes(log[k as int].author) {
            total_added(log[k as int].entries.take(m as int))
        } else {
            0
        },
    decreases m,
{
    let entries = log[k as int].entries;
    if m > 0 {
        lemma_credited_within(log, pick, k, (m - 1) as nat);
        assert(entries.take(m as int).drop_last() =~= entries.take(m - 1));
        assert(entries.take(m as int).last() == entries[m - 1]);
    } else {
        assert(entries.take(0) =~= Seq::<EntryView>::empty());
    }
}

/// Where no checkpoint reports fewer added lines than its entries name, the
/// credit of the first `k` checkpoints is within what they reported as added.
pub proof fn lemma_credited_within_gross(log: Seq<CheckpointView>, pick: PickView, k: nat)
    requires
        k <= log.len(),
        forall|i: int| 0 <= i < log.len() ==> (#[trigger] log[i]).reports_its_additions(),
    ensures
        credited(log, pick, k, 0) <= gross_picked(log.take(k as int), pick),
    decreases k,
{
    if k > 0 {
        let j = (k - 1) as nat;
        let entries = log[j as int].entries;
        lemma_credited_within_gross(log, pick, j);
        lemma_credited_within(log, pick, j, entries.len());
        assert(entries.take(entries.len() as int) =~= entries);
        assert(log.take(k as int).drop_last() =~= log.take(j as int));
        assert(log.take(k as int).last() == log[j as int]);
        assert(log[j as int].reports_its_additions());
    }
}

/// The owned ranges of a file hold as many lines of the picked authors as the file has.
pub proof fn lemma_runs_count(
    lines: Seq<Option<LineOrigin>>,
    authors: Seq<AuthorView>,
    pick: PickView,
)
    requires
        lines.len() <= MAX_LINES,
    ensures
        lines_kept(runs(owners_of(lines, authors)), pick) == lines_by(lines, authors, pick),
    decreases lines.len(),
{
    if lines.len() > 0 {
        let owners = owners_of(lines, authors);
        let init = lines.drop_last();
        lemma_runs_count(init, authors, pick);
        assert(owners.drop_last() =~= owners_of(init, authors));
        lemma_runs_partition(owners.drop_last());
        let prev = runs(owners.drop_last());
        let n = owners.len() as int;
        match owners.last() {
            None => {},
            Some(a) => {
                if prev.len() > 0 && prev.last().range.end == n && prev.last().owner == a {
                    let out = prev.drop_last().push(grown(prev.last()));
                    assert(out.drop_last() =~= prev.drop_last());
                    assert(prev.last() == prev[prev.len() - 1]);
                } else {
                    let out = prev.push(single_line(n, a));
                    assert(out.drop_last() =~= prev);
                }
            },
        }
    }
}

/// An authorship log holds no more lines of the picked authors than the
/// files it was made from.
pub proof fn lemma_authorship_count(
    files: Seq<FileView>,
    authors: Seq<AuthorView>,
    filter: Option<Seq<Seq<char>>>,
    pick: PickView,
)
    requires
        forall|i: int| 0 <= i < files.len() ==> (#[trigger] files[i]).lines.len() <= MAX_LINES,
    ensures
        net_lines(authorship_of(files, authors, filter), pick) <= files_by(files, authors, pick),
    decreases files.len(),
{
    if files.len() > 0 {
        let init = files.drop_last();
        let f = files.last();
        assert(f == files[files.len() - 1]);
        assert forall|i: int| 0 <= i < init.len() implies (#[trigger] init[i]).lines.len() <= MAX_LINES by {
            assert(init[i] == files[i]);
        }
        lemma_authorship_count(init, authors, filter, pick);
        lemma_runs_count(f.lines, authors, pick);
        let prev = authorship_of(init, authors, filter);
        let rs = runs(owners_of(f.lines, authors));
        if selected(filter, f.path) && rs.len() > 0 {
            assert(authorship_of(files, authors, filter).drop_last() =~= prev);
        }
    }
}

/// Conservation against the entries. For every log whose replay goes
/// through, every set of target files and every filter: the authorship log
/// holds no more lines of the picked authors than the entries of their
/// checkpoints put in.
pub proof fn lemma_net_within_added(
    log: Seq<CheckpointView>,
    targets: Seq<TargetView>,
    filter: Option<Seq<Seq<char>>>,
    pick: PickView,
)
    requires
        log.len() <= usize::MAX,
        targets_ok(targets),
        replay_succeeds(log, base_files(targets)),
    ensures
        net_lines(
            authorship_of(replayed_all(log, base_files(targets)), authors_of(log), filter),
            pick,
        ) <= credited(log, pick, log.len(), 0),
{
    let base = base_files(targets);
    assert(is_base(base));
    assert(paths_differ(base)) by {
        assert forall|i: int, j: int| 0 <= i < j < base.len() implies (#[trigger] base[i]).path != (
        #[trigger] base[j]).path by {
            assert(targets[i].path != targets[j].path);
        }
    }
    lemma_replayed_files(log, base, log.len(), 0);
    lemma_replayed_count(log, base, pick, log.len(), 0);
    lemma_authorship_count(replayed_all(log, base), authors_of(log), filter, pick);
}

/// Conservation. For every log whose replay goes through and none of whose
/// checkpoints reports fewer added lines than its entries name, for every set
/// of target files and every filter: the authorship log holds no more lines
/// of the picked authors than the checkpoints of those authors reported as added.
pub proof fn lemma_net_within_gross(
    log: Seq<CheckpointView>,
    targets: Seq<TargetView>,
    filter: Option<Seq<Seq<char>>>,
    pick: PickView,
)
    requires
        log.len() <= usize::MAX,
        targets_ok(targets),
        replay_succeeds(log, base_files(targets)),
        forall|i: int| 0 <= i < log.len() ==> (#[trigger] log[i]).reports_its_additions(),
    ensures
        net_lines(
            authorship_of(replayed_all(log, base_files(targets)), authors_of(log), filter),
            pick,
        ) <= gross_picked(log, pick),
{
    lemma_net_within_added(log, targets, filter, pick);
    lemma_credited_within_gross(log, pick, log.len());
    assert(log.take(log.len() as int) =~= log);
}

/// Conservation, author by author: the net lines of an author never exceed
/// the gross additions that the checkpoints of that author reported.
pub proof fn lemma_author_net_within_gross(
    log: Seq<CheckpointView>,
    targets: Seq<TargetView>,
    filter: Option<Seq<Seq<char>>>,
    author: AuthorView,
)
    requires
        log.len() <= usize::MAX,
        targets_ok(targets),
        replay_succeeds(log, base_files(targets)),
        forall|i: int| 0 <= i < log.len() ==> (#[trigger] log[i]).reports_its_additions(),
    ensures
        net_of(
            authorship_of(replayed_all(log, base_files(targets)), authors_of(log), filter),
            author,
        ) <= gross_additions_of(log, author),
{
    lemma_net_within_gross(log, targets, filter, PickView::Owner(author));
}

} // verus!
