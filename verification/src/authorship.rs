//! The authorship log: for each file asked for, the ranges of lines that
//! checkpoints wrote and survive, each with its author.

use vstd::prelude::*;
use crate::ranges::{LineRange, MAX_LINES};
use crate::lines::{LineOrigin, origins_below};
use crate::checkpoint::{Author, AuthorView};
use crate::ownership::{LineOwnership, TargetSet, TargetView, author_views, base_files};
use crate::replay::{FileView, replay_succeeds, replay_fails_at, replayed_all};
use crate::checkpoint::CheckpointView;
use crate::error::AttributionError;
use crate::working_log::WorkingLog;
use crate::engine::{replay, authors_of};

verus! {

/// A range of lines of one file, all last written by one author.
#[derive(Debug, PartialEq, Eq)]
pub struct OwnedRange {
    pub range: LineRange,
    pub owner: Author,
}

/// An owned range as a value.
pub struct OwnedRangeView {
    pub range: LineRange,
    pub owner: AuthorView,
}

impl View for OwnedRange {
    type V = OwnedRangeView;

    open spec fn view(&self) -> OwnedRangeView {
        OwnedRangeView { range: self.range, owner: self.owner@ }
    }
}

/// The owned ranges of one file, in the order of their lines.
#[derive(Debug, PartialEq, Eq)]
pub struct FileAuthorship {
    pub path: String,
    pub ranges: Vec<OwnedRange>,
}

/// The owned ranges of one file as a value.
pub struct FileAuthorshipView {
    pub path: Seq<char>,
    pub ranges: Seq<OwnedRangeView>,
}

/// The owned ranges of a list as values.
pub open spec fn range_views(ranges: Seq<OwnedRange>) -> Seq<OwnedRangeView> {
    Seq::new(ranges.len(), |i: int| ranges[i]@)
}

impl View for FileAuthorship {
    type V = FileAuthorshipView;

    open spec fn view(&self) -> FileAuthorshipView {
        FileAuthorshipView { path: self.path@, ranges: range_views(self.ranges@) }
    }
}

/// The authorship log: the files that have lines written by a checkpoint,
/// in the order of the ownership it was made from.
#[derive(Debug, PartialEq, Eq)]
pub struct AuthorshipLog {
    pub files: Vec<FileAuthorship>,
}

impl View for AuthorshipLog {
    type V = Seq<FileAuthorshipView>;

    open spec fn view(&self) -> Seq<FileAuthorshipView> {
        Seq::new(self.files@.len(), |i: int| self.files@[i]@)
    }
}

/// The paths of a list as values.
pub open spec fn path_views(paths: Seq<String>) -> Seq<Seq<char>> {
    Seq::new(paths.len(), |i: int| paths[i]@)
}

/// The filter that a caller gave, as a value.
pub open spec fn filter_view(filter: Option<&Vec<String>>) -> Option<Seq<Seq<char>>> {
    match filter {
        Some(paths) => Some(path_views(paths@)),
        None => None,
    }
}

/// A filter lets a path through when there is no filter or the filter names the path.
pub open spec fn selected(filter: Option<Seq<Seq<char>>>, path: Seq<char>) -> bool {
    match filter {
        Some(paths) => paths.contains(path),
        None => true,
    }
}

/// The author of each line of a file, where a checkpoint wrote the line.
pub open spec fn owners_of(lines: Seq<Option<LineOrigin>>, authors: Seq<AuthorView>) -> Seq<
    Option<AuthorView>,
> {
    Seq::new(
        lines.len(),
        |i: int|
            match lines[i] {
                Some(o) => Some(authors[o.checkpoint as int]),
                None => None,
            },
    )
}

/// The range that holds line `n` alone.
pub open spec fn single_line(n: int, owner: AuthorView) -> OwnedRangeView {
    OwnedRangeView { range: LineRange { start: n as u32, end: (n + 1) as u32 }, owner }
}

/// A range made one line longer at its end.
pub open spec fn grown(r: OwnedRangeView) -> OwnedRangeView {
    OwnedRangeView { range: LineRange { start: r.range.start, end: (r.range.end + 1) as u32 }, owner: r.owner }
}

/// The owned lines of a file as ranges: each range is a longest stretch of
/// neighbouring lines with one author. The last line either has no author,
/// or makes the range before it one longer, or starts a range of its own.
pub open spec fn runs(owners: Seq<Option<AuthorView>>) -> Seq<OwnedRangeView>
    decreases owners.len(),
{
    if owners.len() == 0 {
        Seq::empty()
    } else {
        let prev = runs(owners.drop_last());
        let n = owners.len() as int;
        match owners.last() {
            None => prev,
            Some(a) => if prev.len() > 0 && prev.last().range.end == n && prev.last().owner == a {
                prev.drop_last().push(grown(prev.last()))
            } else {
                prev.push(single_line(n, a))
            },
        }
    }
}

/// What makes a list of ranges the owned ranges of a file: the ranges lie in
/// the file, each holds lines of its author only, they stand in ascending
/// order without overlap, two that touch have different authors, and every
/// line that has an author lies in one of them.
pub open spec fn is_partition(rs: Seq<OwnedRangeView>, owners: Seq<Option<AuthorView>>) -> bool {
    &&& forall|j: int|
        0 <= j < rs.len() ==> 1 <= (#[trigger] rs[j]).range.start < rs[j].range.end <= owners.len()
            + 1
    &&& forall|j: int, n: int|
        0 <= j < rs.len() && (#[trigger] rs[j]).range.covers(n) ==> #[trigger] owners[n - 1]
            == Some(rs[j].owner)
    &&& forall|i: int, j: int|
        0 <= i < j < rs.len() ==> (#[trigger] rs[i]).range.end <= (#[trigger] rs[j]).range.start
    &&& forall|j: int|
        0 <= j < rs.len() - 1 && (#[trigger] rs[j]).range.end == rs[j + 1].range.start ==> rs[j].owner
            != rs[j + 1].owner
    &&& forall|n: int|
        1 <= n <= owners.len() && (#[trigger] owners[n - 1]).is_some() ==> exists|j: int|
            0 <= j < rs.len() && (#[trigger] rs[j]).range.covers(n)
}

/// The ranges that `runs` gives are the owned ranges of the file.
pub proof fn lemma_runs_partition(owners: Seq<Option<AuthorView>>)
    requires
        owners.len() <= MAX_LINES,
    ensures
        is_partition(runs(owners), owners),
        runs(owners).len() > 0 ==> runs(owners).last().range.end <= owners.len() + 1,
    decreases owners.len(),
{
    if owners.len() > 0 {
        let init = owners.drop_last();
        let prev = runs(init);
        let rs = runs(owners);
        let n = owners.len() as int;
        lemma_runs_partition(init);
        assert forall|m: int| 0 <= m < init.len() implies init[m] == owners[m] by {}
        match owners.last() {
            None => {
                assert forall|m: int|
                    1 <= m <= owners.len() && (#[trigger] owners[m - 1]).is_some() implies exists|
                    j: int,
                |
                    0 <= j < rs.len() && (#[trigger] rs[j]).range.covers(m) by {
                    assert(init[m - 1].is_some());
                }
                assert forall|j: int, m: int|
                    0 <= j < rs.len() && (#[trigger] rs[j]).range.covers(m) implies #[trigger] owners[m
                        - 1] == Some(rs[j].owner) by {
                    assert(init[m - 1] == Some(prev[j].owner));
                }
            },
            Some(a) => {
                if prev.len() > 0 && prev.last().range.end == n && prev.last().owner == a {
                    let last = prev.len() - 1;
                    assert(prev.last() == prev[last]);
                    assert forall|j: int| 0 <= j < rs.len() implies 1 <= (
                    #[trigger] rs[j]).range.start < rs[j].range.end <= owners.len() + 1 by {
                        if j < last {
                            assert(rs[j] == prev[j]);
                        }
                    }
                    assert forall|j: int, m: int|
                        0 <= j < rs.len() && (#[trigger] rs[j]).range.covers(m) implies #[trigger] owners[m
                            - 1] == Some(rs[j].owner) by {
                        if j < last {
                            assert(rs[j] == prev[j]);
                            assert(init[m - 1] == Some(prev[j].owner));
                        } else if m < n {
                            assert(prev[last].range.covers(m));
                            assert(init[m - 1] == Some(prev[last].owner));
                        }
                    }
                    assert forall|i: int, j: int| 0 <= i < j < rs.len() implies (
                    #[trigger] rs[i]).range.end <= (#[trigger] rs[j]).range.start by {
                        assert(rs[i] == prev[i]);
                        assert(prev[i].range.end <= prev[j].range.start);
                    }
                    assert forall|j: int|
                        0 <= j < rs.len() - 1 && (#[trigger] rs[j]).range.end == rs[j
                            + 1].range.start implies rs[j].owner != rs[j + 1].owner by {
                        assert(rs[j] == prev[j]);
                        assert(prev[j].range.end == prev[j + 1].range.start);
                    }
                    assert forall|m: int|
                        1 <= m <= owners.len() && (#[trigger] owners[m - 1]).is_some() implies exists|
                        j: int,
                    |
                        0 <= j < rs.len() && (#[trigger] rs[j]).range.covers(m) by {
                        if m < n {
                            assert(init[m - 1].is_some());
                            let j = choose|j: int|
                                0 <= j < prev.len() && (#[trigger] prev[j]).range.covers(m);
                            if j < last {
                                assert(rs[j] == prev[j]);
                            }
                            assert(rs[j].range.covers(m));
                        } else {
                            assert(rs[last].range.covers(m));
                        }
                    }
                } else {
                    let last = prev.len() as int;
                    assert(rs[last] == single_line(n, a));
                    assert forall|j: int| 0 <= j < rs.len() implies 1 <= (
                    #[trigger] rs[j]).range.start < rs[j].range.end <= owners.len() + 1 by {
                        if j < last {
                            assert(rs[j] == prev[j]);
                        }
                    }
                    assert forall|j: int, m: int|
                        0 <= j < rs.len() && (#[trigger] rs[j]).range.covers(m) implies #[trigger] owners[m
                            - 1] == Some(rs[j].owner) by {
                        if j < last {
                            assert(rs[j] == prev[j]);
                            assert(init[m - 1] == Some(prev[j].owner));
                        }
                    }
                    assert forall|i: int, j: int| 0 <= i < j < rs.len() implies (
                    #[trigger] rs[i]).range.end <= (#[trigger] rs[j]).range.start by {
                        assert(rs[i] == prev[i]);
                        if j < last {
                            assert(rs[j] == prev[j]);
                        } else {
                            assert(prev[i].range.end <= prev[last - 1].range.end) by {
                                if i < last - 1 {
                                    assert(prev[i].range.end <= prev[last - 1].range.start);
                                }
                            }
                            assert(prev.last() == prev[last - 1]);
                        }
                    }
                    assert forall|j: int|
                        0 <= j < rs.len() - 1 && (#[trigger] rs[j]).range.end == rs[j
                            + 1].range.start implies rs[j].owner != rs[j + 1].owner by {
                        assert(rs[j] == prev[j]);
                        if j + 1 < last {
                            assert(rs[j + 1] == prev[j + 1]);
                        } else {
                            assert(prev.last() == prev[j]);
                        }
                    }
                    assert forall|m: int|
                        1 <= m <= owners.len() && (#[trigger] owners[m - 1]).is_some() implies exists|
                        j: int,
                    |
                        0 <= j < rs.len() && (#[trigger] rs[j]).range.covers(m) by {
                        if m < n {
                            assert(init[m - 1].is_some());
                            let j = choose|j: int|
                                0 <= j < prev.len() && (#[trigger] prev[j]).range.covers(m);
                            assert(rs[j] == prev[j]);
                            assert(rs[j].range.covers(m));
                        } else {
                            assert(rs[last].range.covers(m));
                        }
                    }
                }
            },
        }
    }
}

/// The authorship log of a list of files: each file that the filter lets
/// through and that has an owned line, with its owned ranges, in the order of
/// the list.
pub open spec fn authorship_of(
    files: Seq<FileView>,
    authors: Seq<AuthorView>,
    filter: Option<Seq<Seq<char>>>,
) -> Seq<FileAuthorshipView>
    decreases files.len(),
{
    if files.len() == 0 {
        Seq::empty()
    } else {
        let prev = authorship_of(files.drop_last(), authors, filter);
        let f = files.last();
        let rs = runs(owners_of(f.lines, authors));
        if selected(filter, f.path) && rs.len() > 0 {
            prev.push(FileAuthorshipView { path: f.path, ranges: rs })
        } else {
            prev
        }
    }
}

/// Whether some file of the list has the path.
pub open spec fn is_path_of(files: Seq<FileView>, path: Seq<char>) -> bool {
    exists|j: int| 0 <= j < files.len() && (#[trigger] files[j]).path == path
}

/// Path filtering: an authorship log names no file that its filter does not
/// let through, none that the ownership does not hold, and none without an
/// owned line.
pub proof fn lemma_authorship_within_filter(
    files: Seq<FileView>,
    authors: Seq<AuthorView>,
    filter: Option<Seq<Seq<char>>>,
)
    ensures
        forall|i: int|
            0 <= i < authorship_of(files, authors, filter).len() ==> {
                &&& selected(filter, (#[trigger] authorship_of(files, authors, filter)[i]).path)
                &&& is_path_of(files, authorship_of(files, authors, filter)[i].path)
                &&& authorship_of(files, authors, filter)[i].ranges.len() > 0
            },
    decreases files.len(),
{
    if files.len() > 0 {
        let init = files.drop_last();
        lemma_authorship_within_filter(init, authors, filter);
        let prev = authorship_of(init, authors, filter);
        let out = authorship_of(files, authors, filter);
        assert forall|i: int| 0 <= i < out.len() implies {
            &&& selected(filter, (#[trigger] out[i]).path)
            &&& is_path_of(files, out[i].path)
            &&& out[i].ranges.len() > 0
        } by {
            if i < prev.len() {
                assert(out[i] == prev[i]);
                let j = choose|j: int| 0 <= j < init.len() && (#[trigger] init[j]).path == prev[i].path;
                assert(files[j] == init[j]);
            } else {
                assert(files[files.len() - 1] == files.last());
            }
        }
    }
}

/// Whether the filter lets the path through.
pub fn is_selected(filter: Option<&Vec<String>>, path: &String) -> (b: bool)
    ensures
        b == selected(filter_view(filter), path@),
{
    match filter {
        None => true,
        Some(paths) => {
            let mut i: usize = 0;
            while i < paths.len()
                invariant
                    0 <= i <= paths.len(),
                    filter_view(filter) == Some(path_views(paths@)),
                    forall|a: int| 0 <= a < i ==> path_views(paths@)[a] != path@,
                decreases paths.len() - i,
            {
                if paths[i] == *path {
                    assert(path_views(paths@)[i as int] == path@);
                    return true;
                }
                i += 1;
            }
            false
        },
    }
}

/// The owned ranges of one file.
pub fn owned_ranges(
    lines: &Vec<Option<LineOrigin>>,
    authors: &Vec<Author>,
) -> (out: Vec<OwnedRange>)
    requires
        lines@.len() <= MAX_LINES,
        origins_below(lines@, authors@.len() as int),
    ensures
        range_views(out@) == runs(owners_of(lines@, author_views(authors@))),
        is_partition(range_views(out@), owners_of(lines@, author_views(authors@))),
{
    let ghost owners = owners_of(lines@, author_views(authors@));
    let mut out: Vec<OwnedRange> = Vec::new();
    let mut i: usize = 0;
    assert(range_views(out@) =~= runs(owners.take(0)));
    while i < lines.len()
        invariant
            0 <= i <= lines.len(),
            lines@.len() <= MAX_LINES,
            origins_below(lines@, authors@.len() as int),
            owners == owners_of(lines@, author_views(authors@)),
            range_views(out@) == runs(owners.take(i as int)),
        decreases lines.len() - i,
    {
        let n: u32 = (i + 1) as u32;
        proof {
            assert(owners.take(i + 1).drop_last() =~= owners.take(i as int));
            assert(owners.take(i + 1).last() == owners[i as int]);
            lemma_runs_partition(owners.take(i as int));
        }
        match lines[i] {
            None => {},
            Some(o) => {
                let a = &authors[o.checkpoint];
                let len = out.len();
                let ghost prev = range_views(out@);
                if len > 0 && out[len - 1].range.end == n && out[len - 1].owner.same_as(a) {
                    out[len - 1].range.end = n + 1;
                    assert(range_views(out@) =~= prev.drop_last().push(grown(prev.last())));
                } else {
                    out.push(OwnedRange { range: LineRange { start: n, end: n + 1 }, owner: a.clone() });
                    assert(range_views(out@) =~= prev.push(single_line(n as int, a@)));
                }
            },
        }
        i += 1;
    }
    proof {
        assert(owners.take(i as int) =~= owners);
        lemma_runs_partition(owners);
    }
    out
}

/// Builds the authorship log from a line ownership, for the files that the
/// filter names, or for all files where there is no filter.
pub fn build_authorship_log(
    own: &LineOwnership,
    filter: Option<&Vec<String>>,
) -> (log: AuthorshipLog)
    requires
        own.wf(),
    ensures
        log@ == authorship_of(own@.files, own@.authors, filter_view(filter)),
        forall|i: int|
            0 <= i < log@.len() ==> selected(filter_view(filter), (#[trigger] log@[i]).path)
                && is_path_of(own@.files, log@[i].path),
{
    proof {
        lemma_authorship_within_filter(own@.files, own@.authors, filter_view(filter));
    }
    let mut files: Vec<FileAuthorship> = Vec::new();
    let mut i: usize = 0;
    let ghost all = own@.files;
    let ghost authors = own@.authors;
    let ghost fv = filter_view(filter);
    while i < own.files.len()
        invariant
            0 <= i <= own.files.len(),
            own.wf(),
            all == own@.files,
            authors == own@.authors,
            fv == filter_view(filter),
            Seq::new(files@.len(), |j: int| files@[j]@) == authorship_of(all.take(i as int), authors, fv),
        decreases own.files.len() - i,
    {
        let f = &own.files[i];
        proof {
            assert(all.take(i + 1).drop_last() =~= all.take(i as int));
            assert(all.take(i + 1).last() == all[i as int]);
            assert(f@ == all[i as int]);
        }
        if is_selected(filter, &f.path) {
            let ranges = owned_ranges(&f.lines, &own.authors);
            if ranges.len() > 0 {
                let ghost before = Seq::new(files@.len(), |j: int| files@[j]@);
                files.push(FileAuthorship { path: f.path.clone(), ranges });
                assert(Seq::new(files@.len(), |j: int| files@[j]@) =~= before.push(
                    FileAuthorshipView {
                        path: all[i as int].path,
                        ranges: runs(owners_of(all[i as int].lines, authors)),
                    },
                ));
            }
        }
        i += 1;
    }
    proof {
        assert(all.take(i as int) =~= all);
    }
    AuthorshipLog { files }
}

/// What the authorship log of a log over target files has to be: the log
/// made of the ownership after the whole replay, or the first entry at which
/// the replay fails.
pub open spec fn is_authorship_of(
    r: Result<AuthorshipLog, AttributionError>,
    log: Seq<CheckpointView>,
    targets: Seq<TargetView>,
    filter: Option<Seq<Seq<char>>>,
) -> bool {
    match r {
        Ok(alog) => {
            &&& replay_succeeds(log, base_files(targets))
            &&& alog@ == authorship_of(replayed_all(log, base_files(targets)), authors_of(log), filter)
        },
        Err(AttributionError::CorruptCheckpoint { checkpoint, entry, file }) => {
            &&& replay_fails_at(log, base_files(targets), checkpoint as int, entry as int)
            &&& file@ == log[checkpoint as int].entries[entry as int].path
        },
        Err(AttributionError::StoreUnavailable { .. }) => false,
    }
}

/// Replays the log over the target files and builds the authorship log of
/// the files that the filter names.
pub fn attribute(log: &WorkingLog, targets: &TargetSet, filter: Option<&Vec<String>>) -> (r: Result<
    AuthorshipLog,
    AttributionError,
>)
    requires
        targets.wf(),
    ensures
        is_authorship_of(r, log@.checkpoints, targets@, filter_view(filter)),
        r.is_ok() == replay_succeeds(log@.checkpoints, base_files(targets@)),
{
    match replay(log, targets) {
        Ok(own) => Ok(build_authorship_log(&own, filter)),
        Err(e) => Err(e),
    }
}

} // verus!
