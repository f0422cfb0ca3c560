//! The replay of a log: from the files of the base commit, checkpoint by
//! checkpoint and entry by entry, to the lines of the working tree and the
//! checkpoint that last wrote each of them.

use vstd::prelude::*;
use crate::ranges::{MAX_LINES, total_lines};
use crate::lines::{
    LineOrigin, origins_below, lemma_without_ranges_origins, lemma_with_ranges_origins,
    removable, insertable, without_ranges, with_ranges, remove_lines, insert_lines,
    lemma_without_ranges_len, lemma_with_ranges_len,
};
use crate::checkpoint::{EntryView, FileEntry, CheckpointView};
use crate::ownership::{FileLines, lines_views};

verus! {

/// One file of the working tree as a value: its path and, line by line, where
/// the line comes from. A line that no checkpoint wrote comes from the base commit.
pub struct FileView {
    pub path: Seq<char>,
    pub lines: Seq<Option<LineOrigin>>,
}

/// An entry applies to a file of `len` lines when its removed ranges can be
/// taken out of that file and its added ranges fit into what is left.
pub open spec fn entry_applies(len: nat, e: EntryView) -> bool {
    &&& removable(len, e.removed)
    &&& insertable((len - total_lines(e.removed)) as nat, e.added)
}

/// The file after an entry of checkpoint `k`: the removed ranges go out
/// first, then the added ranges come in as lines of that checkpoint.
pub open spec fn apply_entry(lines: Seq<Option<LineOrigin>>, e: EntryView, k: usize) -> Seq<
    Option<LineOrigin>,
> {
    with_ranges(without_ranges(lines, e.removed), e.added, k)
}

/// An entry fits the files when it applies to each file that has its path.
pub open spec fn entry_fits(files: Seq<FileView>, e: EntryView) -> bool {
    forall|i: int|
        0 <= i < files.len() && (#[trigger] files[i]).path == e.path ==> entry_applies(
            files[i].lines.len(),
            e,
        )
}

/// The files after an entry of checkpoint `k`: the files with its path
/// change, the others stay.
pub open spec fn after_entry(files: Seq<FileView>, e: EntryView, k: usize) -> Seq<FileView> {
    Seq::new(
        files.len(),
        |i: int|
            if files[i].path == e.path {
                FileView { path: files[i].path, lines: apply_entry(files[i].lines, e, k) }
            } else {
                files[i]
            },
    )
}

/// The files after the first `k` checkpoints of the log and the first `m`
/// entries of the next one, starting from `base`.
pub open spec fn replayed(log: Seq<CheckpointView>, base: Seq<FileView>, k: nat, m: nat) -> Seq<
    FileView,
>
    decreases k, m,
{
    if m > 0 {
        after_entry(replayed(log, base, k, (m - 1) as nat), log[k as int].entries[m - 1], k as usize)
    } else if k > 0 {
        replayed(log, base, (k - 1) as nat, log[k - 1].entries.len())
    } else {
        base
    }
}

/// The files after the whole log.
pub open spec fn replayed_all(log: Seq<CheckpointView>, base: Seq<FileView>) -> Seq<FileView> {
    replayed(log, base, log.len(), 0)
}

/// Entry `m` of checkpoint `k` fits the files as the replay has them by then.
pub open spec fn step_fits(log: Seq<CheckpointView>, base: Seq<FileView>, k: int, m: int) -> bool {
    entry_fits(replayed(log, base, k as nat, m as nat), log[k].entries[m])
}

/// Every entry that the replay reaches before entry `m` of checkpoint `k` fits.
pub open spec fn steps_fit_before(
    log: Seq<CheckpointView>,
    base: Seq<FileView>,
    k: int,
    m: int,
) -> bool {
    forall|a: int, b: int|
        0 <= a < log.len() && 0 <= b < log[a].entries.len() && (a < k || (a == k && b < m))
            ==> #[trigger] step_fits(log, base, a, b)
}

/// The replay of the whole log goes through: every entry fits.
pub open spec fn replay_succeeds(log: Seq<CheckpointView>, base: Seq<FileView>) -> bool {
    steps_fit_before(log, base, log.len() as int, 0)
}

/// The replay first fails at entry `m` of checkpoint `k`.
pub open spec fn replay_fails_at(
    log: Seq<CheckpointView>,
    base: Seq<FileView>,
    k: int,
    m: int,
) -> bool {
    &&& 0 <= k < log.len()
    &&& 0 <= m < log[k].entries.len()
    &&& steps_fit_before(log, base, k, m)
    &&& !step_fits(log, base, k, m)
}

/// A replay that fails at some entry does not go through.
pub proof fn lemma_failure_excludes_success(
    log: Seq<CheckpointView>,
    base: Seq<FileView>,
    k: int,
    m: int,
)
    requires
        replay_fails_at(log, base, k, m),
    ensures
        !replay_succeeds(log, base),
{
    if replay_succeeds(log, base) {
        assert(step_fits(log, base, k, m));
    }
}

/// A replay first fails at one entry only.
pub proof fn lemma_first_failure_is_unique(
    log: Seq<CheckpointView>,
    base: Seq<FileView>,
    k1: int,
    m1: int,
    k2: int,
    m2: int,
)
    requires
        replay_fails_at(log, base, k1, m1),
        replay_fails_at(log, base, k2, m2),
    ensures
        k1 == k2,
        m1 == m2,
{
    if k1 < k2 || (k1 == k2 && m1 < m2) {
        assert(step_fits(log, base, k1, m1));
    }
    if k2 < k1 || (k1 == k2 && m2 < m1) {
        assert(step_fits(log, base, k2, m2));
    }
}

/// The files of a base commit are fit to start a replay from: none is too
/// long, and no checkpoint has written any of their lines.
pub open spec fn is_base(files: Seq<FileView>) -> bool {
    forall|i: int|
        0 <= i < files.len() ==> (#[trigger] files[i]).lines.len() <= MAX_LINES && origins_below(
            files[i].lines,
            0,
        )
}

/// A replay that has gone through so far keeps the files and their paths,
/// keeps every file short enough, and holds lines of the checkpoints that it
/// has reached only.
pub proof fn lemma_replayed_files(log: Seq<CheckpointView>, base: Seq<FileView>, k: nat, m: nat)
    requires
        log.len() <= usize::MAX,
        is_base(base),
        k <= log.len(),
        k < log.len() ==> m <= log[k as int].entries.len(),
        k == log.len() ==> m == 0,
        steps_fit_before(log, base, k as int, m as int),
    ensures
        replayed(log, base, k, m).len() == base.len(),
        forall|i: int|
            0 <= i < base.len() ==> {
                &&& (#[trigger] replayed(log, base, k, m)[i]).path == base[i].path
                &&& replayed(log, base, k, m)[i].lines.len() <= MAX_LINES
                &&& origins_below(replayed(log, base, k, m)[i].lines, if m == 0 { k as int } else { k as int + 1 })
            },
    decreases k, m,
{
    let now = replayed(log, base, k, m);
    if m > 0 {
        let before = replayed(log, base, k, (m - 1) as nat);
        let e = log[k as int].entries[m - 1];
        lemma_replayed_files(log, base, k, (m - 1) as nat);
        assert(step_fits(log, base, k as int, m - 1));
        assert forall|i: int| 0 <= i < base.len() implies {
            &&& (#[trigger] now[i]).path == base[i].path
            &&& now[i].lines.len() <= MAX_LINES
            &&& origins_below(now[i].lines, k as int + 1)
        } by {
            let old_lines = before[i].lines;
            assert(origins_below(old_lines, k as int + 1)) by {
                assert(origins_below(old_lines, if m - 1 == 0 { k as int } else { k as int + 1 }));
            }
            if before[i].path == e.path {
                assert(entry_applies(old_lines.len(), e));
                lemma_without_ranges_len(old_lines, e.removed);
                lemma_without_ranges_origins(old_lines, e.removed, k as int + 1);
                let rest = without_ranges(old_lines, e.removed);
                lemma_with_ranges_len(rest, e.added, k as usize);
                lemma_with_ranges_origins(rest, e.added, k as usize, k as int + 1);
            }
        }
    } else if k > 0 {
        let j = (k - 1) as nat;
        lemma_replayed_files(log, base, j, log[j as int].entries.len());
        assert forall|i: int| 0 <= i < base.len() implies origins_below(now[i].lines, k as int) by {
            assert(origins_below(now[i].lines, if log[j as int].entries.len() == 0 { j as int } else { j as int + 1 }));
        }
    }
}

/// Applies an entry of checkpoint `k` to the lines of one file, if it applies.
pub fn apply_to_file(lines: &Vec<Option<LineOrigin>>, e: &FileEntry, k: usize) -> (out: Option<
    Vec<Option<LineOrigin>>,
>)
    ensures
        out.is_some() == entry_applies(lines@.len(), e@),
        out matches Some(v) ==> v@ == apply_entry(lines@, e@, k),
{
    match remove_lines(lines, &e.removed_line_ranges) {
        None => None,
        Some(rest) => {
            proof {
                lemma_without_ranges_len(lines@, e@.removed);
            }
            insert_lines(&rest, &e.added_line_ranges, k)
        },
    }
}

/// Applies an entry of checkpoint `k` to every file that has its path, and
/// says whether it fits. Where it does not fit, what `files` holds afterwards
/// is of no use.
pub(crate) fn apply_to_files(files: &mut Vec<FileLines>, e: &FileEntry, k: usize) -> (ok: bool)
    ensures
        final(files).len() == old(files).len(),
        ok == entry_fits(lines_views(old(files)@), e@),
        ok ==> lines_views(final(files)@) == after_entry(lines_views(old(files)@), e@, k),
{
    let ghost prev = lines_views(files@);
    let mut i: usize = 0;
    while i < files.len()
        invariant
            0 <= i <= files.len(),
            files.len() == old(files).len(),
            prev == lines_views(old(files)@),
            forall|a: int|
                0 <= a < i && (#[trigger] prev[a]).path == e@.path ==> entry_applies(
                    prev[a].lines.len(),
                    e@,
                ),
            forall|a: int| 0 <= a < i ==> (#[trigger] files@[a])@ == after_entry(prev, e@, k)[a],
            forall|a: int| i <= a < files.len() ==> (#[trigger] files@[a])@ == prev[a],
        decreases files.len() - i,
    {
        if files[i].path == e.file_path {
            match apply_to_file(&files[i].lines, e, k) {
                None => {
                    proof {
                        assert(prev[i as int].path == e@.path);
                        assert(!entry_applies(prev[i as int].lines.len(), e@));
                    }
                    return false;
                },
                Some(v) => {
                    files[i].lines = v;
                },
            }
        }
        i += 1;
    }
    proof {
        assert(lines_views(files@) =~= after_entry(prev, e@, k));
    }
    true
}

} // verus!
