//! The recorder: makes a checkpoint of what has changed since the last one
//! and adds it to the log, or adds nothing where nothing has changed.

use vstd::prelude::*;
use crate::ranges::{check_ranges, count_lines, lemma_total_below_end};
use crate::checkpoint::{Author, AuthorView, Checkpoint, CheckpointView, EntryView, FileEntry,
    LineStats, entry_views, total_added, total_removed};
use crate::error::AttributionError;
use crate::working_log::WorkingLog;

verus! {

/// The entries of a list that change something, in their order.
pub open spec fn changed(diffs: Seq<EntryView>) -> Seq<EntryView>
    decreases diffs.len(),
{
    if diffs.len() == 0 {
        Seq::empty()
    } else {
        let c = changed(diffs.drop_last());
        if diffs.last().is_blank() {
            c
        } else {
            c.push(diffs.last())
        }
    }
}

/// A list of entries can be recorded when the ranges of each are in order
/// and the lines they add and remove can be counted in a `u32` each.
pub open spec fn recordable(diffs: Seq<EntryView>) -> bool {
    &&& forall|i: int| 0 <= i < diffs.len() ==> (#[trigger] diffs[i]).is_shaped()
    &&& total_added(diffs) <= u32::MAX
    &&& total_removed(diffs) <= u32::MAX
}

/// Entry `j` is the first with which the list cannot be recorded.
pub open spec fn first_unrecordable(diffs: Seq<EntryView>, j: int) -> bool {
    &&& 0 <= j < diffs.len()
    &&& recordable(diffs.take(j))
    &&& !recordable(diffs.take(j + 1))
}

/// The time stamp that a new checkpoint gets: the time of the clock, but
/// never earlier than the newest checkpoint of the log.
pub open spec fn stamped(log: Seq<CheckpointView>, now: u64) -> u64 {
    if log.len() > 0 && log.last().timestamp > now {
        log.last().timestamp
    } else {
        now
    }
}

/// The checkpoint that the recorder makes of a list of entries.
pub open spec fn checkpoint_of(
    log: Seq<CheckpointView>,
    author: AuthorView,
    now: u64,
    diffs: Seq<EntryView>,
) -> CheckpointView {
    CheckpointView {
        timestamp: stamped(log, now),
        author,
        entries: changed(diffs),
        line_stats: LineStats {
            additions: total_added(diffs) as u32,
            deletions: total_removed(diffs) as u32,
        },
    }
}

/// The log after the recorder has run: one checkpoint longer where the
/// entries can be recorded and one of them changes something, and else as it was.
pub open spec fn recorded(
    log: Seq<CheckpointView>,
    author: AuthorView,
    now: u64,
    diffs: Seq<EntryView>,
) -> Seq<CheckpointView> {
    if recordable(diffs) && changed(diffs).len() > 0 {
        log.push(checkpoint_of(log, author, now, diffs))
    } else {
        log
    }
}

/// Entries that change nothing add and remove no lines, so the entries
/// that are kept name as many lines as the whole list.
pub proof fn lemma_changed_totals(diffs: Seq<EntryView>)
    ensures
        total_added(changed(diffs)) == total_added(diffs),
        total_removed(changed(diffs)) == total_removed(diffs),
        changed(diffs).len() <= diffs.len(),
        forall|i: int| 0 <= i < changed(diffs).len() ==> !(#[trigger] changed(diffs)[i]).is_blank(),
        (forall|i: int| 0 <= i < diffs.len() ==> (#[trigger] diffs[i]).is_shaped()) ==> (forall|i: int|
            0 <= i < changed(diffs).len() ==> (#[trigger] changed(diffs)[i]).is_shaped()),
    decreases diffs.len(),
{
    if diffs.len() > 0 {
        lemma_changed_totals(diffs.drop_last());
        let c = changed(diffs.drop_last());
        if !diffs.last().is_blank() {
            assert(c.push(diffs.last()).drop_last() =~= c);
        }
        if forall|i: int| 0 <= i < diffs.len() ==> (#[trigger] diffs[i]).is_shaped() {
            assert forall|i: int| 0 <= i < diffs.drop_last().len() implies (
            #[trigger] diffs.drop_last()[i]).is_shaped() by {
                assert(diffs.drop_last()[i] == diffs[i]);
            }
            assert(diffs.last() == diffs[diffs.len() - 1]);
        }
    }
}

/// A part of a list names no more lines than the whole list.
pub proof fn lemma_totals_grow(diffs: Seq<EntryView>, n: int)
    requires
        0 <= n <= diffs.len(),
    ensures
        total_added(diffs.take(n)) <= total_added(diffs),
        total_removed(diffs.take(n)) <= total_removed(diffs),
    decreases diffs.len() - n,
{
    if n == diffs.len() {
        assert(diffs.take(n) =~= diffs);
    } else {
        lemma_totals_grow(diffs, n + 1);
        assert(diffs.take(n + 1).drop_last() =~= diffs.take(n));
    }
}

/// The checkpoint that the recorder makes reports the lines that its entries name.
pub proof fn lemma_checkpoint_reports(
    log: Seq<CheckpointView>,
    author: AuthorView,
    now: u64,
    diffs: Seq<EntryView>,
)
    requires
        recordable(diffs),
    ensures
        checkpoint_of(log, author, now, diffs).reports_its_lines(),
{
    lemma_changed_totals(diffs);
}

/// A log whose checkpoints all report the lines that their entries name
/// stays such a log when the recorder has run.
pub proof fn lemma_recorded_reports(
    log: Seq<CheckpointView>,
    author: AuthorView,
    now: u64,
    diffs: Seq<EntryView>,
)
    requires
        forall|i: int| 0 <= i < log.len() ==> (#[trigger] log[i]).reports_its_lines(),
    ensures
        forall|i: int|
            0 <= i < recorded(log, author, now, diffs).len() ==> (#[trigger] recorded(
                log,
                author,
                now,
                diffs,
            )[i]).reports_its_lines(),
{
    if recordable(diffs) {
        lemma_checkpoint_reports(log, author, now, diffs);
    }
}

/// Makes a checkpoint of the entries that change something, with the lines
/// they add and remove as its figures, and adds it to the log. Where no entry
/// changes anything the log stays as it is, and so it does where the entries
/// cannot be recorded: then the first entry at fault is named.
pub fn record(log: &mut WorkingLog, author: Author, now: u64, diffs: &Vec<FileEntry>) -> (r: Result<
    bool,
    AttributionError,
>)
    requires
        old(log).wf(),
    ensures
        final(log).wf(),
        final(log)@.base_commit == old(log)@.base_commit,
        final(log)@.checkpoints == recorded(old(log)@.checkpoints, author@, now, entry_views(diffs@)),
        match r {
            Ok(appended) => recordable(entry_views(diffs@)) && appended == (changed(
                entry_views(diffs@),
            ).len() > 0),
            Err(AttributionError::CorruptCheckpoint { checkpoint, entry, file }) => {
                &&& checkpoint == old(log)@.checkpoints.len()
                &&& first_unrecordable(entry_views(diffs@), entry as int)
                &&& file@ == diffs@[entry as int]@.path
            },
            Err(AttributionError::StoreUnavailable { .. }) => false,
        },
{
    let ghost dv = entry_views(diffs@);
    let mut kept: Vec<FileEntry> = Vec::new();
    let mut additions: u64 = 0;
    let mut deletions: u64 = 0;
    let mut j: usize = 0;
    assert(dv.take(0) =~= Seq::<EntryView>::empty());
    assert(entry_views(kept@) =~= changed(dv.take(0)));
    while j < diffs.len()
        invariant
            0 <= j <= diffs.len(),
            dv == entry_views(diffs@),
            *log == *old(log),
            log.wf(),
            recordable(dv.take(j as int)),
            additions == total_added(dv.take(j as int)),
            deletions == total_removed(dv.take(j as int)),
            entry_views(kept@) == changed(dv.take(j as int)),
        decreases diffs.len() - j,
    {
        let e = &diffs[j];
        proof {
            assert(dv.take(j + 1).drop_last() =~= dv.take(j as int));
            assert(dv.take(j + 1).last() == e@);
            assert(dv.take(j + 1)[j as int] == e@);
        }
        let shaped = check_ranges(&e.added_line_ranges) && check_ranges(&e.removed_line_ranges);
        if !shaped {
            return Err(
                AttributionError::CorruptCheckpoint {
                    checkpoint: log.len(),
                    entry: j,
                    file: e.file_path.clone(),
                },
            );
        }
        proof {
            lemma_total_below_end(e@.added);
            lemma_total_below_end(e@.removed);
        }
        let a = count_lines(&e.added_line_ranges);
        let d = count_lines(&e.removed_line_ranges);
        if additions + a > u32::MAX as u64 || deletions + d > u32::MAX as u64 {
            proof {
                lemma_totals_grow(dv, j + 1);
            }
            return Err(
                AttributionError::CorruptCheckpoint {
                    checkpoint: log.len(),
                    entry: j,
                    file: e.file_path.clone(),
                },
            );
        }
        additions = additions + a;
        deletions = deletions + d;
        if a > 0 || d > 0 {
            let ghost before = entry_views(kept@);
            kept.push(e.clone());
            assert(entry_views(kept@) =~= before.push(e@));
        }
        proof {
            let p = dv.take(j as int);
            let q = dv.take(j + 1);
            assert forall|i: int| 0 <= i < q.len() implies (#[trigger] q[i]).is_shaped() by {
                if i < j {
                    assert(q[i] == p[i]);
                }
            }
        }
        j += 1;
    }
    proof {
        assert(dv.take(j as int) =~= dv);
    }
    if kept.len() == 0 {
        return Ok(false);
    }
    let timestamp = match log.last_timestamp() {
        Some(t) => if t > now {
            t
        } else {
            now
        },
        None => now,
    };
    let cp = Checkpoint::new(
        timestamp,
        author,
        kept,
        LineStats { additions: additions as u32, deletions: deletions as u32 },
    );
    assert(cp@ == checkpoint_of(old(log)@.checkpoints, author@, now, dv));
    let added = log.append(cp);
    assert(added);
    Ok(true)
}

} // verus!
