//! The files that a replay is asked about, and what it finds out about them.

use vstd::prelude::*;
use crate::ranges::MAX_LINES;
use crate::lines::{LineOrigin, origins_below};
use crate::checkpoint::{Author, AuthorView};
use crate::replay::FileView;

verus! {

/// A file that a replay is asked about: its path, and how many lines it has
/// in the base commit (none where the base commit does not have the file).
#[derive(Debug, PartialEq, Eq)]
pub struct TargetFile {
    pub path: String,
    pub base_lines: u32,
}

/// A target file as a value.
pub struct TargetView {
    pub path: Seq<char>,
    pub base_lines: u32,
}

impl View for TargetFile {
    type V = TargetView;

    open spec fn view(&self) -> TargetView {
        TargetView { path: self.path@, base_lines: self.base_lines }
    }
}

/// The set of files that a replay is asked about. No path stands in it twice.
#[derive(Debug)]
pub struct TargetSet {
    files: Vec<TargetFile>,
}

/// No two targets of the list have the same path, and none is too long.
pub open spec fn targets_ok(ts: Seq<TargetView>) -> bool {
    &&& forall|i: int| 0 <= i < ts.len() ==> (#[trigger] ts[i]).base_lines <= MAX_LINES
    &&& forall|i: int, j: int|
        0 <= i < j < ts.len() ==> (#[trigger] ts[i]).path != (#[trigger] ts[j]).path
}

/// Whether some target of the list has the path.
pub open spec fn targets_hold(ts: Seq<TargetView>, path: Seq<char>) -> bool {
    exists|i: int| 0 <= i < ts.len() && (#[trigger] ts[i]).path == path
}

/// The files of the base commit: each target with all its lines unwritten.
pub open spec fn base_files(ts: Seq<TargetView>) -> Seq<FileView> {
    Seq::new(
        ts.len(),
        |i: int|
            FileView {
                path: ts[i].path,
                lines: Seq::new(ts[i].base_lines as nat, |j: int| None::<LineOrigin>),
            },
    )
}

impl View for TargetSet {
    type V = Seq<TargetView>;

    closed spec fn view(&self) -> Seq<TargetView> {
        Seq::new(self.files@.len(), |i: int| self.files@[i]@)
    }
}

impl TargetSet {
    /// The invariant of a target set.
    pub open spec fn wf(&self) -> bool {
        targets_ok(self@)
    }

    /// The empty set.
    pub fn new() -> (ts: TargetSet)
        ensures
            ts.wf(),
            ts@ == Seq::<TargetView>::empty(),
    {
        let ts = TargetSet { files: Vec::new() };
        assert(ts@ =~= Seq::<TargetView>::empty());
        ts
    }

    /// How many files the set holds.
    pub fn len(&self) -> (n: usize)
        ensures
            n == self@.len(),
    {
        self.files.len()
    }

    /// The file at place `i`, in the order in which the files were added.
    pub fn get(&self, i: usize) -> (t: &TargetFile)
        requires
            i < self@.len(),
        ensures
            t@ == self@[i as int],
    {
        &self.files[i]
    }

    /// Whether the set holds the path.
    pub fn contains(&self, path: &String) -> (b: bool)
        ensures
            b == targets_hold(self@, path@),
    {
        let mut i: usize = 0;
        while i < self.files.len()
            invariant
                0 <= i <= self.files.len(),
                forall|a: int| 0 <= a < i ==> (#[trigger] self@[a]).path != path@,
            decreases self.files.len() - i,
        {
            if self.files[i].path == *path {
                assert(self@[i as int].path == path@);
                return true;
            }
            i += 1;
        }
        false
    }

    /// Adds a file with the number of lines it has in the base commit. The
    /// set stays as it is where it holds the path already, or where the file
    /// is longer than a file can be. Says whether the file was added.
    pub fn insert(&mut self, path: String, base_lines: u32) -> (added: bool)
        requires
            old(self).wf(),
        ensures
            final(self).wf(),
            added == (!targets_hold(old(self)@, path@) && base_lines <= MAX_LINES),
            added ==> final(self)@ == old(self)@.push(TargetView { path: path@, base_lines }),
            !added ==> final(self)@ == old(self)@,
    {
        if base_lines > MAX_LINES || self.contains(&path) {
            return false;
        }
        let ghost before = self@;
        let ghost t = TargetView { path: path@, base_lines };
        self.files.push(TargetFile { path, base_lines });
        proof {
            assert(self@ =~= before.push(t));
            assert forall|i: int, j: int| 0 <= i < j < self@.len() implies (#[trigger] self@[i]).path
                != (#[trigger] self@[j]).path by {
                if j < before.len() {
                    assert(before[i].path != before[j].path);
                } else {
                    assert(before[i].path != path@);
                }
            }
        }
        true
    }
}

/// The lines of one file of the working tree.
#[derive(Debug, PartialEq, Eq)]
pub struct FileLines {
    pub path: String,
    pub lines: Vec<Option<LineOrigin>>,
}

impl View for FileLines {
    type V = FileView;

    open spec fn view(&self) -> FileView {
        FileView { path: self.path@, lines: self.lines@ }
    }
}

/// For every line of the working tree, the checkpoint that last wrote it, if
/// any did, and for every checkpoint its author. It is worked out from the
/// log alone and kept nowhere.
#[derive(Debug, PartialEq, Eq)]
pub struct LineOwnership {
    pub authors: Vec<Author>,
    pub files: Vec<FileLines>,
}

/// A line ownership as a value.
pub struct OwnershipView {
    pub authors: Seq<AuthorView>,
    pub files: Seq<FileView>,
}

/// No two files of the list have the same path.
pub open spec fn paths_differ(files: Seq<FileView>) -> bool {
    forall|i: int, j: int|
        0 <= i < j < files.len() ==> (#[trigger] files[i]).path != (#[trigger] files[j]).path
}

impl OwnershipView {
    /// No path stands twice, no file is too long, and every written line
    /// names a checkpoint that has an author.
    pub open spec fn is_valid(self) -> bool {
        &&& paths_differ(self.files)
        &&& forall|i: int|
            0 <= i < self.files.len() ==> (#[trigger] self.files[i]).lines.len() <= MAX_LINES
                && origins_below(self.files[i].lines, self.authors.len() as int)
    }

    /// The author of a line, if a checkpoint wrote it. Lines count from one.
    pub open spec fn owner(self, file: int, line: int) -> Option<AuthorView> {
        match self.files[file].lines[line - 1] {
            Some(o) => Some(self.authors[o.checkpoint as int]),
            None => None,
        }
    }
}

/// The authors of a list as values.
pub open spec fn author_views(authors: Seq<Author>) -> Seq<AuthorView> {
    Seq::new(authors.len(), |i: int| authors[i]@)
}

/// The files of a list as values.
pub open spec fn lines_views(files: Seq<FileLines>) -> Seq<FileView> {
    Seq::new(files.len(), |i: int| files[i]@)
}

impl View for LineOwnership {
    type V = OwnershipView;

    open spec fn view(&self) -> OwnershipView {
        OwnershipView { authors: author_views(self.authors@), files: lines_views(self.files@) }
    }
}

impl LineOwnership {
    /// The invariant of a line ownership.
    pub open spec fn wf(&self) -> bool {
        self@.is_valid()
    }

    /// How many files the ownership speaks of.
    pub fn file_count(&self) -> (n: usize)
        ensures
            n == self@.files.len(),
    {
        self.files.len()
    }

    /// How many lines file `file` has in the working tree.
    pub fn line_count(&self, file: usize) -> (n: usize)
        requires
            file < self@.files.len(),
        ensures
            n == self@.files[file as int].lines.len(),
    {
        self.files[file].lines.len()
    }

    /// Where line `line` of file `file` comes from, if a checkpoint wrote it.
    pub fn origin(&self, file: usize, line: u32) -> (o: Option<LineOrigin>)
        requires
            file < self@.files.len(),
            1 <= line <= self@.files[file as int].lines.len(),
        ensures
            o == self@.files[file as int].lines[line - 1],
    {
        self.files[file].lines[(line - 1) as usize]
    }

    /// The author of line `line` of file `file`, if a checkpoint wrote it.
    pub fn owner(&self, file: usize, line: u32) -> (a: Option<&Author>)
        requires
            self.wf(),
            file < self@.files.len(),
            1 <= line <= self@.files[file as int].lines.len(),
        ensures
            match a {
                Some(x) => self@.owner(file as int, line as int) == Some(x@),
                None => self@.owner(file as int, line as int).is_none(),
            },
    {
        match self.files[file].lines[(line - 1) as usize] {
            Some(o) => {
                assert(self@.files[file as int].lines[line - 1] == Some(o));
                assert(origins_below(self@.files[file as int].lines, self@.authors.len() as int));
                Some(&self.authors[o.checkpoint])
            },
            None => None,
        }
    }
}

} // verus!
