//! Checkpoints: one recorded snapshot of edits, tagged with its author.

use vstd::prelude::*;
use crate::ranges::{LineRange, ranges_ok, total_lines, count_lines};

verus! {

/// The tool and the model of an AI coding agent.
#[derive(Debug, PartialEq, Eq)]
pub struct AgentId {
    pub tool: String,
    pub model: String,
}

/// Who wrote a checkpoint: a person, by display name, or an agent.
#[derive(Debug, PartialEq, Eq)]
pub enum Author {
    Human(String),
    Agent(AgentId),
}

/// Whether a checkpoint was made by a person or by an agent.
#[derive(Clone, Copy, Debug, PartialEq, Eq, Structural)]
pub enum CheckpointKind {
    Human,
    Agent,
}

/// An author as a value: the name, or the tool and the model.
pub enum AuthorView {
    Human(Seq<char>),
    Agent(Seq<char>, Seq<char>),
}

impl AuthorView {
    /// Whether the author is a person.
    pub open spec fn is_human(self) -> bool {
        self is Human
    }
}

impl View for AgentId {
    type V = (Seq<char>, Seq<char>);

    open spec fn view(&self) -> (Seq<char>, Seq<char>) {
        (self.tool@, self.model@)
    }
}

impl View for Author {
    type V = AuthorView;

    open spec fn view(&self) -> AuthorView {
        match *self {
            Author::Human(name) => AuthorView::Human(name@),
            Author::Agent(id) => AuthorView::Agent(id.tool@, id.model@),
        }
    }
}

impl Clone for AgentId {
    fn clone(&self) -> (r: Self)
        ensures
            r@ == self@,
    {
        AgentId { tool: self.tool.clone(), model: self.model.clone() }
    }
}

impl Clone for Author {
    fn clone(&self) -> (r: Self)
        ensures
            r@ == self@,
    {
        match self {
            Author::Human(name) => Author::Human(name.clone()),
            Author::Agent(id) => Author::Agent(id.clone()),
        }
    }
}

impl AgentId {
    /// The agent of the given tool and model.
    pub fn new(tool: String, model: String) -> (r: AgentId)
        ensures
            r@ == (tool@, model@),
    {
        AgentId { tool, model }
    }
}

impl Author {
    /// A person with the given display name.
    pub fn human(name: String) -> (r: Author)
        ensures
            r@ == AuthorView::Human(name@),
    {
        Author::Human(name)
    }

    /// An agent, by tool and model.
    pub fn agent(tool: String, model: String) -> (r: Author)
        ensures
            r@ == AuthorView::Agent(tool@, model@),
    {
        Author::Agent(AgentId { tool, model })
    }

    /// Whether the author is a person or an agent.
    pub fn kind(&self) -> (k: CheckpointKind)
        ensures
            k == if self@.is_human() { CheckpointKind::Human } else { CheckpointKind::Agent },
    {
        match self {
            Author::Human(_) => CheckpointKind::Human,
            Author::Agent(_) => CheckpointKind::Agent,
        }
    }

    /// Whether the author is a person.
    pub fn is_human(&self) -> (b: bool)
        ensures
            b == self@.is_human(),
    {
        match self {
            Author::Human(_) => true,
            Author::Agent(_) => false,
        }
    }

    /// The agent's identity: present for an agent, and for an agent only.
    pub fn agent_id(&self) -> (id: Option<&AgentId>)
        ensures
            match id {
                Some(a) => self@ == AuthorView::Agent(a.tool@, a.model@),
                None => self@.is_human(),
            },
    {
        match self {
            Author::Human(_) => None,
            Author::Agent(id) => Some(id),
        }
    }

    /// Whether two authors are the same: the same name, or the same tool and model.
    pub fn same_as(&self, other: &Author) -> (b: bool)
        ensures
            b == (self@ == other@),
    {
        match self {
            Author::Human(name) => match other {
                Author::Human(n) => *name == *n,
                Author::Agent(_) => false,
            },
            Author::Agent(id) => match other {
                Author::Human(_) => false,
                Author::Agent(o) => id.tool == o.tool && id.model == o.model,
            },
        }
    }
}

/// What one checkpoint did to one file: the ranges it took out, which count
/// lines of the file as the checkpoint found it, and the ranges it put in,
/// which count lines of the file as the checkpoint left it.
#[derive(Debug, PartialEq, Eq)]
pub struct FileEntry {
    pub file_path: String,
    pub added_line_ranges: Vec<LineRange>,
    pub removed_line_ranges: Vec<LineRange>,
}

/// A file entry as a value.
pub struct EntryView {
    pub path: Seq<char>,
    pub added: Seq<LineRange>,
    pub removed: Seq<LineRange>,
}

impl EntryView {
    /// Both lists of ranges are in order.
    pub open spec fn is_shaped(self) -> bool {
        ranges_ok(self.added) && ranges_ok(self.removed)
    }

    /// The entry changes nothing.
    pub open spec fn is_blank(self) -> bool {
        total_lines(self.added) == 0 && total_lines(self.removed) == 0
    }
}

impl View for FileEntry {
    type V = EntryView;

    open spec fn view(&self) -> EntryView {
        EntryView {
            path: self.file_path@,
            added: self.added_line_ranges@,
            removed: self.removed_line_ranges@,
        }
    }
}

/// Copies a list of ranges.
pub fn copy_ranges(rs: &Vec<LineRange>) -> (out: Vec<LineRange>)
    ensures
        out@ == rs@,
{
    let mut out: Vec<LineRange> = Vec::new();
    let mut i: usize = 0;
    while i < rs.len()
        invariant
            0 <= i <= rs.len(),
            out@ == rs@.take(i as int),
        decreases rs.len() - i,
    {
        proof {
            assert(rs@.take(i + 1) =~= rs@.take(i as int).push(rs@[i as int]));
        }
        out.push(rs[i]);
        i += 1;
    }
    proof {
        assert(rs@.take(i as int) =~= rs@);
    }
    out
}

impl Clone for FileEntry {
    fn clone(&self) -> (r: Self)
        ensures
            r@ == self@,
    {
        FileEntry {
            file_path: self.file_path.clone(),
            added_line_ranges: copy_ranges(&self.added_line_ranges),
            removed_line_ranges: copy_ranges(&self.removed_line_ranges),
        }
    }
}

impl FileEntry {
    /// The entry of a file with the ranges put in and the ranges taken out.
    pub fn new(file_path: String, added: Vec<LineRange>, removed: Vec<LineRange>) -> (r:
        FileEntry)
        ensures
            r@ == (EntryView { path: file_path@, added: added@, removed: removed@ }),
    {
        FileEntry { file_path, added_line_ranges: added, removed_line_ranges: removed }
    }
}

/// The lines that a checkpoint reports as added and as deleted, over all its files.
#[derive(Clone, Copy, Debug, PartialEq, Eq, Structural)]
pub struct LineStats {
    pub additions: u32,
    pub deletions: u32,
}

/// One recorded snapshot of edits. It is never changed once it is made.
#[derive(Debug, PartialEq, Eq)]
pub struct Checkpoint {
    pub timestamp: u64,
    pub author: Author,
    pub entries: Vec<FileEntry>,
    pub line_stats: LineStats,
}

/// A checkpoint as a value.
pub struct CheckpointView {
    pub timestamp: u64,
    pub author: AuthorView,
    pub entries: Seq<EntryView>,
    pub line_stats: LineStats,
}

/// The entries of a list as values.
pub open spec fn entry_views(entries: Seq<FileEntry>) -> Seq<EntryView> {
    Seq::new(entries.len(), |i: int| entries[i]@)
}

/// The lines that a list of entries puts in, over all of them.
pub open spec fn total_added(entries: Seq<EntryView>) -> nat
    decreases entries.len(),
{
    if entries.len() == 0 {
        0
    } else {
        total_added(entries.drop_last()) + total_lines(entries.last().added)
    }
}

/// The lines that a list of entries takes out, over all of them.
pub open spec fn total_removed(entries: Seq<EntryView>) -> nat
    decreases entries.len(),
{
    if entries.len() == 0 {
        0
    } else {
        total_removed(entries.drop_last()) + total_lines(entries.last().removed)
    }
}

impl CheckpointView {
    /// The checkpoint reports as many added and deleted lines as its entries
    /// name. A checkpoint is made so; one read back from storage may not be.
    pub open spec fn reports_its_lines(self) -> bool {
        &&& self.line_stats.additions == total_added(self.entries)
        &&& self.line_stats.deletions == total_removed(self.entries)
    }

    /// The checkpoint reports no fewer added lines than its entries name.
    pub open spec fn reports_its_additions(self) -> bool {
        self.line_stats.additions >= total_added(self.entries)
    }
}

impl View for Checkpoint {
    type V = CheckpointView;

    open spec fn view(&self) -> CheckpointView {
        CheckpointView {
            timestamp: self.timestamp,
            author: self.author@,
            entries: entry_views(self.entries@),
            line_stats: self.line_stats,
        }
    }
}

impl Checkpoint {
    /// A checkpoint of the given parts, taken as they are.
    pub fn new(
        timestamp: u64,
        author: Author,
        entries: Vec<FileEntry>,
        line_stats: LineStats,
    ) -> (r:
        Checkpoint)
        ensures
            r@ == (CheckpointView {
                timestamp,
                author: author@,
                entries: entry_views(entries@),
                line_stats,
            }),
    {
        Checkpoint { timestamp, author, entries, line_stats }
    }

    /// Whether a person or an agent made the checkpoint.
    pub fn kind(&self) -> (k: CheckpointKind)
        ensures
            k == if self@.author.is_human() { CheckpointKind::Human } else { CheckpointKind::Agent },
    {
        self.author.kind()
    }

    /// Whether the checkpoint reports as many added and deleted lines as its
    /// entries name.
    pub fn check_figures(&self) -> (ok: bool)
        ensures
            ok == self@.reports_its_lines(),
    {
        let ghost ev = entry_views(self.entries@);
        let mut added: u64 = 0;
        let mut removed: u64 = 0;
        let mut i: usize = 0;
        while i < self.entries.len()
            invariant
                0 <= i <= self.entries.len(),
                ev == entry_views(self.entries@),
                added == if total_added(ev.take(i as int)) <= u64::MAX {
                    total_added(ev.take(i as int))
                } else {
                    u64::MAX as nat
                },
                removed == if total_removed(ev.take(i as int)) <= u64::MAX {
                    total_removed(ev.take(i as int))
                } else {
                    u64::MAX as nat
                },
            decreases self.entries.len() - i,
        {
            proof {
                assert(ev.take(i + 1).drop_last() =~= ev.take(i as int));
                assert(ev.take(i + 1).last() == self.entries@[i as int]@);
            }
            added = added.saturating_add(count_lines(&self.entries[i].added_line_ranges));
            removed = removed.saturating_add(count_lines(&self.entries[i].removed_line_ranges));
            i += 1;
        }
        proof {
            assert(ev.take(i as int) =~= ev);
        }
        added == self.line_stats.additions as u64 && removed == self.line_stats.deletions as u64
    }

    /// The agent that made the checkpoint, if an agent made it.
    pub fn agent_id(&self) -> (id: Option<&AgentId>)
        ensures
            match id {
                Some(a) => self@.author == AuthorView::Agent(a.tool@, a.model@),
                None => self@.author.is_human(),
            },
    {
        self.author.agent_id()
    }
}

} // verus!
