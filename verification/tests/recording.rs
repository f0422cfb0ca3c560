use git_ai::checkpoint::{Author, Checkpoint, CheckpointKind, FileEntry, LineStats};
use git_ai::error::AttributionError;
use git_ai::ranges::LineRange;
use git_ai::recorder::record;
use git_ai::working_log::WorkingLog;

fn ranges(rs: &[(u32, u32)]) -> Vec<LineRange> {
    rs.iter().map(|&(s, e)| LineRange::new(s, e)).collect()
}

fn entry(path: &str, added: &[(u32, u32)], removed: &[(u32, u32)]) -> FileEntry {
    FileEntry::new(path.to_string(), ranges(added), ranges(removed))
}

fn human() -> Author {
    Author::human("Ada".to_string())
}

fn agent() -> Author {
    Author::agent("toolA".to_string(), "modelX".to_string())
}

#[test]
fn recording_twice_without_edits_adds_one_checkpoint() {
    let mut log = WorkingLog::new("abc".to_string());
    let first = vec![entry("a.rs", &[(1, 4)], &[]), entry("b.rs", &[], &[])];
    assert_eq!(record(&mut log, human(), 100, &first), Ok(true));
    assert_eq!(log.len(), 1);
    // Nothing was edited since: the files differ in nothing from what the checkpoint left.
    let second = vec![entry("a.rs", &[], &[]), entry("b.rs", &[], &[])];
    assert_eq!(record(&mut log, human(), 101, &second), Ok(false));
    assert_eq!(log.len(), 1);
    assert_eq!(record(&mut log, human(), 102, &vec![]), Ok(false));
    assert_eq!(log.len(), 1);
}

#[test]
fn recording_nothing_leaves_the_log_empty() {
    let mut log = WorkingLog::new("abc".to_string());
    assert_eq!(record(&mut log, human(), 100, &vec![entry("a.rs", &[], &[])]), Ok(false));
    assert_eq!(record(&mut log, human(), 100, &vec![]), Ok(false));
    assert!(log.is_empty());
}

#[test]
fn the_checkpoint_holds_the_changed_files_and_their_lines() {
    let mut log = WorkingLog::new("abc".to_string());
    let diffs = vec![
        entry("a.rs", &[(1, 4), (10, 12)], &[(2, 3)]),
        entry("same.rs", &[], &[]),
        entry("b.rs", &[], &[(1, 8)]),
    ];
    assert_eq!(record(&mut log, agent(), 100, &diffs), Ok(true));
    let cp = log.get(0);
    assert_eq!(
        *cp,
        Checkpoint::new(
            100,
            agent(),
            vec![entry("a.rs", &[(1, 4), (10, 12)], &[(2, 3)]), entry("b.rs", &[], &[(1, 8)])],
            LineStats { additions: 5, deletions: 8 }
        )
    );
    assert_eq!(cp.kind(), CheckpointKind::Agent);
    assert_eq!(cp.agent_id().map(|a| a.tool.as_str()), Some("toolA"));
}

#[test]
fn a_human_checkpoint_has_no_agent() {
    let mut log = WorkingLog::new("abc".to_string());
    assert_eq!(record(&mut log, human(), 100, &vec![entry("a.rs", &[(1, 2)], &[])]), Ok(true));
    assert_eq!(log.get(0).kind(), CheckpointKind::Human);
    assert!(log.get(0).agent_id().is_none());
    assert_eq!(log.get(0).line_stats, LineStats { additions: 1, deletions: 0 });
}

#[test]
fn time_stamps_never_go_back() {
    let mut log = WorkingLog::new("abc".to_string());
    assert_eq!(record(&mut log, human(), 100, &vec![entry("a.rs", &[(1, 2)], &[])]), Ok(true));
    assert_eq!(record(&mut log, agent(), 90, &vec![entry("a.rs", &[(1, 2)], &[])]), Ok(true));
    assert_eq!(record(&mut log, agent(), 120, &vec![entry("a.rs", &[(1, 2)], &[])]), Ok(true));
    assert_eq!(log.get(0).timestamp, 100);
    assert_eq!(log.get(1).timestamp, 100);
    assert_eq!(log.get(2).timestamp, 120);
}

#[test]
fn malformed_entries_are_not_recorded() {
    let mut log = WorkingLog::new("abc".to_string());
    assert_eq!(record(&mut log, human(), 1, &vec![entry("a.rs", &[(1, 2)], &[])]), Ok(true));
    let diffs = vec![entry("a.rs", &[(1, 2)], &[]), entry("b.rs", &[(3, 5), (4, 6)], &[])];
    assert_eq!(
        record(&mut log, human(), 2, &diffs),
        Err(AttributionError::CorruptCheckpoint { checkpoint: 1, entry: 1, file: "b.rs".to_string() })
    );
    assert_eq!(log.len(), 1);
    let diffs = vec![entry("c.rs", &[], &[(0, 1)])];
    assert_eq!(
        record(&mut log, human(), 2, &diffs),
        Err(AttributionError::CorruptCheckpoint { checkpoint: 1, entry: 0, file: "c.rs".to_string() })
    );
    assert_eq!(log.len(), 1);
}

#[test]
fn more_lines_than_can_be_counted_are_not_recorded() {
    let mut log = WorkingLog::new("abc".to_string());
    let diffs = vec![
        entry("a.rs", &[(1, u32::MAX)], &[]),
        entry("b.rs", &[(1, 2)], &[]),
        entry("c.rs", &[(1, 2)], &[]),
    ];
    assert_eq!(
        record(&mut log, human(), 2, &diffs),
        Err(AttributionError::CorruptCheckpoint { checkpoint: 0, entry: 2, file: "c.rs".to_string() })
    );
    assert!(log.is_empty());
    let diffs = vec![entry("a.rs", &[(1, u32::MAX)], &[]), entry("b.rs", &[(1, 2)], &[])];
    assert_eq!(record(&mut log, human(), 2, &diffs), Ok(true));
    assert_eq!(log.get(0).line_stats, LineStats { additions: u32::MAX, deletions: 0 });
}

#[test]
fn figures_are_held_against_the_entries() {
    let entries = || vec![entry("a.rs", &[(1, 4)], &[(2, 3)]), entry("b.rs", &[(5, 6)], &[])];
    let cp = |add: u32, del: u32| {
        Checkpoint::new(1, agent(), entries(), LineStats { additions: add, deletions: del })
    };
    assert!(cp(4, 1).check_figures());
    assert!(!cp(3, 1).check_figures());
    assert!(!cp(4, 0).check_figures());
    assert!(!cp(0, 0).check_figures());
    assert!(Checkpoint::new(1, human(), vec![], LineStats { additions: 0, deletions: 0 }).check_figures());
    let mut log = WorkingLog::new("abc".to_string());
    assert_eq!(record(&mut log, human(), 100, &entries()), Ok(true));
    assert!(log.get(0).check_figures());
}
