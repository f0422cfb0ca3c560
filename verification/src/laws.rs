//! What holds of the library as a whole: of any two replays of one log, of
//! the empty log, and of the recorder run twice.

use vstd::prelude::*;
use crate::lines::{LineOrigin, origins_below};
use crate::checkpoint::{AuthorView, CheckpointView, EntryView};
use crate::error::AttributionError;
use crate::ownership::{LineOwnership, TargetView, base_files};
use crate::replay::{FileView, is_base, replayed, replayed_all, replay_succeeds, steps_fit_before,
    step_fits, after_entry, lemma_first_failure_is_unique, lemma_failure_excludes_success};
use crate::engine::{is_replay_of, authors_of};
use crate::authorship::{AuthorshipLog, FileAuthorshipView, OwnedRangeView, authorship_of,
    is_authorship_of, owners_of, runs};
use crate::stats::{PickView, StatsView, net_lines, gross_additions, gross_deletions, stats_of};
use crate::recorder::{changed, recorded, checkpoint_of};

verus! {

/// Two failures are the same when they name the same entry of the same
/// checkpoint and the same file, or say the same of the store.
pub open spec fn same_failure(x: AttributionError, y: AttributionError) -> bool {
    match (x, y) {
        (
            AttributionError::CorruptCheckpoint { checkpoint: c1, entry: e1, file: f1 },
            AttributionError::CorruptCheckpoint { checkpoint: c2, entry: e2, file: f2 },
        ) => c1 == c2 && e1 == e2 && f1@ == f2@,
        (
            AttributionError::StoreUnavailable { detail: d1 },
            AttributionError::StoreUnavailable { detail: d2 },
        ) => d1@ == d2@,
        _ => false,
    }
}

/// Determinism of the replay: two replays of one log over the same target
/// files end alike, with the same ownership or with the same failure.
pub proof fn lemma_replay_is_deterministic(
    r1: Result<LineOwnership, AttributionError>,
    r2: Result<LineOwnership, AttributionError>,
    log: Seq<CheckpointView>,
    targets: Seq<TargetView>,
)
    requires
        is_replay_of(r1, log, targets),
        is_replay_of(r2, log, targets),
    ensures
        match (r1, r2) {
            (Ok(a), Ok(b)) => a@ == b@,
            (Err(x), Err(y)) => same_failure(x, y),
            _ => false,
        },
{
    let base = base_files(targets);
    match (r1, r2) {
        (Ok(a), Ok(b)) => {},
        (
            Err(AttributionError::CorruptCheckpoint { checkpoint: c1, entry: e1, file: f1 }),
            Err(AttributionError::CorruptCheckpoint { checkpoint: c2, entry: e2, file: f2 }),
        ) => {
            lemma_first_failure_is_unique(log, base, c1 as int, e1 as int, c2 as int, e2 as int);
        },
        (Err(AttributionError::CorruptCheckpoint { checkpoint: c1, entry: e1, file: f1 }), Ok(_)) => {
            lemma_failure_excludes_success(log, base, c1 as int, e1 as int);
        },
        (Ok(_), Err(AttributionError::CorruptCheckpoint { checkpoint: c2, entry: e2, file: f2 })) => {
            lemma_failure_excludes_success(log, base, c2 as int, e2 as int);
        },
        _ => {},
    }
}

/// Determinism: two authorship logs made of one log, over the same target
/// files and with the same filter, are equal in every path, range and owner,
/// and where the replay fails both name the same failure.
pub proof fn lemma_authorship_is_deterministic(
    r1: Result<AuthorshipLog, AttributionError>,
    r2: Result<AuthorshipLog, AttributionError>,
    log: Seq<CheckpointView>,
    targets: Seq<TargetView>,
    filter: Option<Seq<Seq<char>>>,
)
    requires
        is_authorship_of(r1, log, targets, filter),
        is_authorship_of(r2, log, targets, filter),
    ensures
        match (r1, r2) {
            (Ok(a), Ok(b)) => a@ == b@,
            (Err(x), Err(y)) => same_failure(x, y),
            _ => false,
        },
{
    let base = base_files(targets);
    match (r1, r2) {
        (Ok(a), Ok(b)) => {},
        (
            Err(AttributionError::CorruptCheckpoint { checkpoint: c1, entry: e1, file: f1 }),
            Err(AttributionError::CorruptCheckpoint { checkpoint: c2, entry: e2, file: f2 }),
        ) => {
            lemma_first_failure_is_unique(log, base, c1 as int, e1 as int, c2 as int, e2 as int);
        },
        (Err(AttributionError::CorruptCheckpoint { checkpoint: c1, entry: e1, file: f1 }), Ok(_)) => {
            lemma_failure_excludes_success(log, base, c1 as int, e1 as int);
        },
        (Ok(_), Err(AttributionError::CorruptCheckpoint { checkpoint: c2, entry: e2, file: f2 })) => {
            lemma_failure_excludes_success(log, base, c2 as int, e2 as int);
        },
        _ => {},
    }
}

/// Files are replayed each for itself. What a replay that has gone through
/// so far says of one file is what the replay over that file alone says of
/// it: the other files it was asked about make no difference, whatever they hold.
pub proof fn lemma_file_replays_alone(
    log: Seq<CheckpointView>,
    base: Seq<FileView>,
    i: int,
    k: nat,
    m: nat,
)
    requires
        0 <= i < base.len(),
        k <= log.len(),
        k < log.len() ==> m <= log[k as int].entries.len(),
        k == log.len() ==> m == 0,
        steps_fit_before(log, base, k as int, m as int),
    ensures
        steps_fit_before(log, seq![base[i]], k as int, m as int),
        replayed(log, base, k, m).len() == base.len(),
        replayed(log, seq![base[i]], k, m) == seq![replayed(log, base, k, m)[i]],
    decreases k, m,
{
    let alone = seq![base[i]];
    if m > 0 {
        let j = (m - 1) as nat;
        lemma_file_replays_alone(log, base, i, k, j);
        assert(step_fits(log, base, k as int, j as int));
        let e = log[k as int].entries[j as int];
        let all = replayed(log, base, k, j);
        let one = replayed(log, alone, k, j);
        assert(one[0] == all[i]);
        assert(step_fits(log, alone, k as int, j as int));
        assert(after_entry(one, e, k as usize) =~= seq![after_entry(all, e, k as usize)[i]]);
        assert forall|a: int, b: int|
            0 <= a < log.len() && 0 <= b < log[a].entries.len() && (a < k || (a == k && b < m))
            implies #[trigger] step_fits(log, alone, a, b) by {
            if a == k && b == j {
            } else {
                assert(a < k || (a == k && b < j));
            }
        }
    } else if k > 0 {
        let j = (k - 1) as nat;
        lemma_file_replays_alone(log, base, i, j, log[j as int].entries.len());
        assert forall|a: int, b: int|
            0 <= a < log.len() && 0 <= b < log[a].entries.len() && (a < k || (a == k && b < 0))
            implies #[trigger] step_fits(log, alone, a, b) by {
            assert(a < j || (a == j && b < log[j as int].entries.len()));
        }
    } else {
    }
}

/// A file that no checkpoint has written has no owned range.
pub proof fn lemma_unwritten_runs(lines: Seq<Option<LineOrigin>>, authors: Seq<AuthorView>)
    requires
        origins_below(lines, 0),
    ensures
        runs(owners_of(lines, authors)) == Seq::<OwnedRangeView>::empty(),
    decreases lines.len(),
{
    if lines.len() > 0 {
        let init = lines.drop_last();
        assert forall|i: int| 0 <= i < init.len() implies match #[trigger] init[i] {
            Some(o) => o.checkpoint < 0,
            None => true,
        } by {
            assert(init[i] == lines[i]);
        }
        lemma_unwritten_runs(init, authors);
        assert(owners_of(lines, authors).drop_last() =~= owners_of(init, authors));
        assert(lines[lines.len() - 1].is_none());
    }
}

/// The files of a base commit make an empty authorship log.
pub proof fn lemma_base_authorship(
    files: Seq<FileView>,
    authors: Seq<AuthorView>,
    filter: Option<Seq<Seq<char>>>,
)
    requires
        is_base(files),
    ensures
        authorship_of(files, authors, filter) == Seq::<FileAuthorshipView>::empty(),
    decreases files.len(),
{
    if files.len() > 0 {
        let init = files.drop_last();
        assert forall|i: int| 0 <= i < init.len() implies (#[trigger] init[i]).lines.len()
            <= crate::ranges::MAX_LINES && origins_below(init[i].lines, 0) by {
            assert(init[i] == files[i]);
        }
        lemma_base_authorship(init, authors, filter);
        assert(files.last() == files[files.len() - 1]);
        lemma_unwritten_runs(files.last().lines, authors);
    }
}

/// The empty log: whatever the target files and the filter, its replay goes
/// through, its authorship log is empty, and every figure is zero, gross and net.
pub proof fn lemma_empty_log(
    targets: Seq<TargetView>,
    filter: Option<Seq<Seq<char>>>,
    pick: PickView,
)
    requires
        forall|i: int| 0 <= i < targets.len() ==> (#[trigger] targets[i]).base_lines <= crate::ranges::MAX_LINES,
    ensures
        replay_succeeds(Seq::<CheckpointView>::empty(), base_files(targets)),
        replayed_all(Seq::<CheckpointView>::empty(), base_files(targets)) == base_files(targets),
        authorship_of(
            replayed_all(Seq::<CheckpointView>::empty(), base_files(targets)),
            authors_of(Seq::<CheckpointView>::empty()),
            filter,
        ) == Seq::<FileAuthorshipView>::empty(),
        gross_additions(Seq::<CheckpointView>::empty()) == 0,
        gross_deletions(Seq::<CheckpointView>::empty()) == 0,
        net_lines(Seq::<FileAuthorshipView>::empty(), pick) == 0,
        stats_of(Seq::<FileAuthorshipView>::empty(), 0, 0) == (StatsView {
            gross_additions: 0,
            gross_deletions: 0,
            human_net: 0,
            ai_net: 0,
            by_owner: Seq::empty(),
        }),
{
    let base = base_files(targets);
    assert(is_base(base));
    lemma_base_authorship(base, authors_of(Seq::<CheckpointView>::empty()), filter);
    assert(stats_of(Seq::<FileAuthorshipView>::empty(), 0, 0).by_owner =~= Seq::empty());
}

/// Entries that change nothing leave nothing to record.
pub proof fn lemma_nothing_changed(diffs: Seq<EntryView>)
    requires
        forall|i: int| 0 <= i < diffs.len() ==> (#[trigger] diffs[i]).is_blank(),
    ensures
        changed(diffs) == Seq::<EntryView>::empty(),
    decreases diffs.len(),
{
    if diffs.len() > 0 {
        let init = diffs.drop_last();
        assert forall|i: int| 0 <= i < init.len() implies (#[trigger] init[i]).is_blank() by {
            assert(init[i] == diffs[i]);
        }
        lemma_nothing_changed(init);
        assert(diffs.last() == diffs[diffs.len() - 1]);
    }
}

/// Recording without a change is a no-op. Where the recorder runs twice and
/// nothing was edited in between, so that the second run finds entries that
/// change nothing, the second run leaves the log as the first left it: at
/// most one checkpoint longer than before, never two.
pub proof fn lemma_second_recording_adds_nothing(
    log: Seq<CheckpointView>,
    first_author: AuthorView,
    first_now: u64,
    first_diffs: Seq<EntryView>,
    second_author: AuthorView,
    second_now: u64,
    second_diffs: Seq<EntryView>,
)
    requires
        forall|i: int| 0 <= i < second_diffs.len() ==> (#[trigger] second_diffs[i]).is_blank(),
    ensures
        recorded(
            recorded(log, first_author, first_now, first_diffs),
            second_author,
            second_now,
            second_diffs,
        ) == recorded(log, first_author, first_now, first_diffs),
        recorded(log, first_author, first_now, first_diffs).len() <= log.len() + 1,
{
    lemma_nothing_changed(second_diffs);
}

/// The recorder never adds a checkpoint of nothing: a checkpoint that it
/// adds has an entry, and each of its entries changes something.
pub proof fn lemma_no_empty_checkpoint(
    log: Seq<CheckpointView>,
    author: AuthorView,
    now: u64,
    diffs: Seq<EntryView>,
)
    ensures
        recorded(log, author, now, diffs) == log || {
            &&& recorded(log, author, now, diffs) == log.push(checkpoint_of(log, author, now, diffs))
            &&& checkpoint_of(log, author, now, diffs).entries.len() > 0
            &&& forall|i: int|
                0 <= i < checkpoint_of(log, author, now, diffs).entries.len() ==> !(
                #[trigger] checkpoint_of(log, author, now, diffs).entries[i]).is_blank()
        },
{
    crate::recorder::lemma_changed_totals(diffs);
}

} // verus!
