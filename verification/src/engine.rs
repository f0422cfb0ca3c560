//! The attribution engine: replays a log over the files of the base commit.

use vstd::prelude::*;
use crate::lines::LineOrigin;
use crate::checkpoint::{Author, AuthorView, CheckpointView};
use crate::error::{AttributionError, StoreError};
use crate::working_log::WorkingLog;
use crate::ownership::{
    TargetSet, TargetView, FileLines, LineOwnership, base_files, paths_differ, author_views,
    lines_views,
};
use crate::replay::{
    replayed, replayed_all, replay_succeeds, replay_fails_at, steps_fit_before, step_fits,
    apply_to_files, is_base, lemma_replayed_files, lemma_failure_excludes_success,
};

verus! {

/// The authors of the checkpoints of a log, in its order.
pub open spec fn authors_of(log: Seq<CheckpointView>) -> Seq<AuthorView> {
    Seq::new(log.len(), |i: int| log[i].author)
}

/// What a replay of `log` over `targets` has to give: the ownership after the
/// whole log where every entry fits, and else the first entry that does not.
pub open spec fn is_replay_of(
    r: Result<LineOwnership, AttributionError>,
    log: Seq<CheckpointView>,
    targets: Seq<TargetView>,
) -> bool {
    match r {
        Ok(own) => {
            &&& replay_succeeds(log, base_files(targets))
            &&& own@.files == replayed_all(log, base_files(targets))
            &&& own@.authors == authors_of(log)
        },
        Err(AttributionError::CorruptCheckpoint { checkpoint, entry, file }) => {
            &&& replay_fails_at(log, base_files(targets), checkpoint as int, entry as int)
            &&& file@ == log[checkpoint as int].entries[entry as int].path
        },
        Err(AttributionError::StoreUnavailable { .. }) => false,
    }
}

/// A file of `n` lines, none of them written by a checkpoint.
pub fn blank_lines(n: u32) -> (v: Vec<Option<LineOrigin>>)
    ensures
        v@ == Seq::new(n as nat, |j: int| None::<LineOrigin>),
{
    let mut v: Vec<Option<LineOrigin>> = Vec::new();
    let mut i: u32 = 0;
    while i < n
        invariant
            0 <= i <= n,
            v@ == Seq::new(i as nat, |j: int| None::<LineOrigin>),
        decreases n - i,
    {
        v.push(None);
        i += 1;
        assert(v@ =~= Seq::new(i as nat, |j: int| None::<LineOrigin>));
    }
    v
}

/// The authors of the checkpoints of a log, in its order.
pub fn log_authors(log: &WorkingLog) -> (authors: Vec<Author>)
    ensures
        author_views(authors@) == authors_of(log@.checkpoints),
{
    let mut authors: Vec<Author> = Vec::new();
    let mut k: usize = 0;
    while k < log.len()
        invariant
            0 <= k <= log@.checkpoints.len(),
            author_views(authors@) == authors_of(log@.checkpoints.take(k as int)),
        decreases log@.checkpoints.len() - k,
    {
        let ghost before = authors@;
        let a = log.get(k).author.clone();
        assert(a@ == log@.checkpoints[k as int].author);
        authors.push(a);
        k += 1;
        proof {
            let want = authors_of(log@.checkpoints.take(k as int));
            assert(author_views(before) == authors_of(log@.checkpoints.take(k - 1)));
            assert forall|i: int| 0 <= i < want.len() implies author_views(authors@)[i] == want[i] by {
                if i < k - 1 {
                    assert(author_views(before)[i] == authors_of(log@.checkpoints.take(k - 1))[i]);
                }
            }
            assert(author_views(authors@) =~= want);
        }
    }
    assert(log@.checkpoints.take(k as int) =~= log@.checkpoints);
    authors
}

/// Replays the log over the target files, from their state in the base
/// commit. The checkpoints are taken in the order of the log and the entries
/// of each in the order in which it lists them; entries of other files are
/// passed over. The replay stops at the first entry that does not fit the
/// file as the replay has it by then, and names it.
pub fn replay(log: &WorkingLog, targets: &TargetSet) -> (r: Result<LineOwnership, AttributionError>)
    requires
        targets.wf(),
    ensures
        is_replay_of(r, log@.checkpoints, targets@),
        r.is_ok() == replay_succeeds(log@.checkpoints, base_files(targets@)),
        r matches Ok(own) ==> own.wf(),
{
    let ghost cps = log@.checkpoints;
    let ghost base = base_files(targets@);
    let mut files: Vec<FileLines> = Vec::new();
    let mut t: usize = 0;
    while t < targets.len()
        invariant
            0 <= t <= targets@.len(),
            files.len() == t,
            base == base_files(targets@),
            lines_views(files@) == base.take(t as int),
        decreases targets@.len() - t,
    {
        let target = targets.get(t);
        files.push(FileLines { path: target.path.clone(), lines: blank_lines(target.base_lines) });
        t += 1;
        assert(lines_views(files@) =~= base.take(t as int));
    }
    assert(base.take(t as int) =~= base);
    let mut k: usize = 0;
    while k < log.len()
        invariant
            0 <= k <= cps.len(),
            cps == log@.checkpoints,
            base == base_files(targets@),
            lines_views(files@) == replayed(cps, base, k as nat, 0),
            steps_fit_before(cps, base, k as int, 0),
        decreases cps.len() - k,
    {
        let cp = log.get(k);
        let mut m: usize = 0;
        while m < cp.entries.len()
            invariant
                0 <= k < cps.len(),
                cp@ == cps[k as int],
                cps == log@.checkpoints,
                base == base_files(targets@),
                0 <= m <= cp.entries.len(),
                lines_views(files@) == replayed(cps, base, k as nat, m as nat),
                steps_fit_before(cps, base, k as int, m as int),
            decreases cp.entries.len() - m,
        {
            let e = &cp.entries[m];
            assert(e@ == cps[k as int].entries[m as int]);
            if !apply_to_files(&mut files, e, k) {
                proof {
                    assert(!step_fits(cps, base, k as int, m as int));
                    lemma_failure_excludes_success(cps, base, k as int, m as int);
                }
                return Err(
                    AttributionError::CorruptCheckpoint {
                        checkpoint: k,
                        entry: m,
                        file: e.file_path.clone(),
                    },
                );
            }
            assert(step_fits(cps, base, k as int, m as int));
            m += 1;
        }
        k += 1;
    }
    let authors = log_authors(log);
    let own = LineOwnership { authors, files };
    proof {
        assert(is_base(base));
        lemma_replayed_files(cps, base, cps.len(), 0);
        assert(paths_differ(own@.files)) by {
            assert forall|i: int, j: int| 0 <= i < j < own@.files.len() implies (
            #[trigger] own@.files[i]).path != (#[trigger] own@.files[j]).path by {
                assert(own@.files[i].path == base[i].path);
                assert(own@.files[j].path == base[j].path);
                assert(targets@[i].path != targets@[j].path);
            }
        }
    }
    Ok(own)
}

/// The replay of what the checkpoint store gave: a log, or its failure.
pub fn replay_read(read: Result<WorkingLog, StoreError>, targets: &TargetSet) -> (r: Result<
    LineOwnership,
    AttributionError,
>)
    requires
        targets.wf(),
    ensures
        match read {
            Ok(log) => is_replay_of(r, log@.checkpoints, targets@) && (r matches Ok(own)
                ==> own.wf()),
            Err(e) => r == Err::<LineOwnership, AttributionError>(
                AttributionError::StoreUnavailable { detail: e.detail },
            ),
        },
{
    match read {
        Ok(log) => replay(&log, targets),
        Err(e) => Err(AttributionError::from_store(e)),
    }
}

} // verus!
