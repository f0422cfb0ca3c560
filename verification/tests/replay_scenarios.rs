use git_ai::authorship::{attribute, build_authorship_log, AuthorshipLog, OwnedRange};
use git_ai::checkpoint::{Author, Checkpoint, FileEntry, LineStats};
use git_ai::engine::{blank_lines, replay, replay_read};
use git_ai::error::{AttributionError, StoreError};
use git_ai::lines::{insert_lines, remove_lines, LineOrigin};
use git_ai::ownership::{LineOwnership, TargetSet};
use git_ai::ranges::{check_ranges, count_lines, LineRange, MAX_LINES};
use git_ai::stats::{count_net, gross_additions_by, gross_totals, stats_from_authorship_log, Pick};
use git_ai::working_log::WorkingLog;

fn agent() -> Author {
    Author::agent("toolA".to_string(), "modelX".to_string())
}

fn other_agent() -> Author {
    Author::agent("toolB".to_string(), "modelY".to_string())
}

fn human() -> Author {
    Author::human("Ada".to_string())
}

fn ranges(rs: &[(u32, u32)]) -> Vec<LineRange> {
    rs.iter().map(|&(s, e)| LineRange::new(s, e)).collect()
}

fn entry(path: &str, added: &[(u32, u32)], removed: &[(u32, u32)]) -> FileEntry {
    FileEntry::new(path.to_string(), ranges(added), ranges(removed))
}

fn checkpoint(ts: u64, author: Author, entries: Vec<FileEntry>, add: u32, del: u32) -> Checkpoint {
    Checkpoint::new(ts, author, entries, LineStats { additions: add, deletions: del })
}

fn log_of(cps: Vec<Checkpoint>) -> WorkingLog {
    let mut log = WorkingLog::new("abc1234def".to_string());
    for cp in cps {
        assert!(log.append(cp));
    }
    log
}

fn targets_of(files: &[(&str, u32)]) -> TargetSet {
    let mut targets = TargetSet::new();
    for &(path, lines) in files {
        assert!(targets.insert(path.to_string(), lines));
    }
    targets
}

fn owned(start: u32, end: u32, owner: Author) -> OwnedRange {
    OwnedRange { range: LineRange::new(start, end), owner }
}

fn origins(own: &LineOwnership, file: usize) -> Vec<Option<(usize, u32)>> {
    (1..=own.line_count(file) as u32)
        .map(|n| own.origin(file, n).map(|o| (o.checkpoint, o.line)))
        .collect()
}

fn corrupt(checkpoint: usize, entry: usize, file: &str) -> AttributionError {
    AttributionError::CorruptCheckpoint { checkpoint, entry, file: file.to_string() }
}

fn overwrite_log() -> WorkingLog {
    log_of(vec![
        checkpoint(10, agent(), vec![entry("a.rs", &[(1, 11)], &[])], 10, 0),
        checkpoint(20, human(), vec![entry("a.rs", &[(3, 6)], &[(3, 6)])], 3, 3),
    ])
}

fn deletion_log() -> WorkingLog {
    log_of(vec![
        checkpoint(10, agent(), vec![entry("a.rs", &[(1, 6)], &[])], 5, 0),
        checkpoint(20, human(), vec![entry("a.rs", &[], &[(2, 5)])], 0, 3),
    ])
}

#[test]
fn overwrite_moves_only_the_rewritten_lines() {
    let log = overwrite_log();
    let targets = targets_of(&[("a.rs", 0)]);
    let own = replay(&log, &targets).unwrap();
    assert_eq!(own.line_count(0), 10);
    let alog = build_authorship_log(&own, None);
    assert_eq!(alog.files.len(), 1);
    assert_eq!(alog.files[0].path, "a.rs");
    assert_eq!(
        alog.files[0].ranges,
        vec![owned(1, 3, agent()), owned(3, 6, human()), owned(6, 11, agent())]
    );
    let (gross_add, gross_del) = gross_totals(&log);
    assert_eq!((gross_add, gross_del), (13, 3));
    let stats = stats_from_authorship_log(Some(&alog), gross_add, gross_del);
    assert_eq!(count_net(&alog, &Pick::Owner(&agent())), 7);
    assert_eq!(count_net(&alog, &Pick::Owner(&human())), 3);
    assert_eq!(stats.ai_net, 7);
    assert_eq!(stats.human_net, 3);
    assert_eq!(stats.gross_additions, 13);
    assert_eq!(stats.gross_deletions, 3);
    assert_eq!(stats.by_owner.len(), 2);
    assert_eq!(stats.by_owner[0].owner, agent());
    assert_eq!(stats.by_owner[0].net_additions, 7);
    assert_eq!(stats.by_owner[1].owner, human());
    assert_eq!(stats.by_owner[1].net_additions, 3);
}

#[test]
fn deleted_lines_have_no_owner() {
    let log = deletion_log();
    let targets = targets_of(&[("a.rs", 0)]);
    let own = replay(&log, &targets).unwrap();
    // Two lines are left, the first and the second of the file as it is now:
    // what the agent wrote as lines 1 and 5. What it wrote as lines 2 to 4 is gone.
    assert_eq!(own.line_count(0), 2);
    assert_eq!(own.origin(0, 1), Some(LineOrigin { checkpoint: 0, line: 1 }));
    assert_eq!(own.origin(0, 2), Some(LineOrigin { checkpoint: 0, line: 5 }));
    assert_eq!(own.owner(0, 1), Some(&agent()));
    assert_eq!(own.owner(0, 2), Some(&agent()));
    let alog = build_authorship_log(&own, None);
    assert_eq!(alog.files.len(), 1);
    assert_eq!(alog.files[0].ranges, vec![owned(1, 3, agent())]);
    let (gross_add, gross_del) = gross_totals(&log);
    let stats = stats_from_authorship_log(Some(&alog), gross_add, gross_del);
    assert_eq!(stats.gross_deletions, 3);
    assert_eq!(stats.gross_additions, 5);
    assert_eq!(stats.ai_net, 2);
    assert_eq!(stats.human_net, 0);
    assert_eq!(stats.by_owner.len(), 1);
    assert_eq!(stats.by_owner[0].owner, agent());
    assert_eq!(stats.by_owner[0].net_additions, 2);
}

#[test]
fn empty_log_gives_empty_authorship_and_zero_stats() {
    let log = WorkingLog::new("abc1234".to_string());
    assert!(log.is_empty());
    let targets = targets_of(&[("a.rs", 12), ("b.rs", 0)]);
    let own = replay(&log, &targets).unwrap();
    assert_eq!(own.file_count(), 2);
    assert_eq!(own.line_count(0), 12);
    assert_eq!(origins(&own, 0), vec![None; 12]);
    assert_eq!(own.line_count(1), 0);
    let alog = build_authorship_log(&own, None);
    assert_eq!(alog, AuthorshipLog { files: vec![] });
    assert_eq!(gross_totals(&log), (0, 0));
    let stats = stats_from_authorship_log(Some(&alog), 0, 0);
    assert_eq!(stats.gross_additions, 0);
    assert_eq!(stats.gross_deletions, 0);
    assert_eq!(stats.human_net, 0);
    assert_eq!(stats.ai_net, 0);
    assert!(stats.by_owner.is_empty());
}

#[test]
fn empty_log_without_targets() {
    let log = WorkingLog::new("abc1234".to_string());
    let own = replay(&log, &TargetSet::new()).unwrap();
    assert_eq!(own.file_count(), 0);
    assert!(build_authorship_log(&own, None).files.is_empty());
}

#[test]
fn replaying_twice_gives_the_same_output() {
    let log = overwrite_log();
    let targets = targets_of(&[("a.rs", 0)]);
    let first = attribute(&log, &targets, None);
    let second = attribute(&log, &targets, None);
    assert_eq!(first, second);
    assert_eq!(replay(&log, &targets), replay(&log, &targets));
}

#[test]
fn failing_twice_gives_the_same_failure() {
    let log = log_of(vec![checkpoint(1, agent(), vec![entry("a.rs", &[(3, 4)], &[])], 1, 0)]);
    let targets = targets_of(&[("a.rs", 0)]);
    let first = replay(&log, &targets);
    assert_eq!(first, Err(corrupt(0, 0, "a.rs")));
    assert_eq!(first, replay(&log, &targets));
}

#[test]
fn net_never_exceeds_gross_for_any_author() {
    let log = log_of(vec![
        checkpoint(1, agent(), vec![entry("a.rs", &[(1, 11)], &[]), entry("b.rs", &[(1, 4)], &[])], 13, 0),
        checkpoint(2, human(), vec![entry("a.rs", &[(3, 6)], &[(3, 6)])], 3, 3),
        checkpoint(3, other_agent(), vec![entry("b.rs", &[(2, 3)], &[(1, 3)])], 1, 2),
        checkpoint(4, agent(), vec![entry("a.rs", &[(1, 2)], &[(9, 11)])], 1, 2),
    ]);
    let targets = targets_of(&[("a.rs", 0), ("b.rs", 0)]);
    let alog = attribute(&log, &targets, None).unwrap();
    for author in [agent(), human(), other_agent()] {
        let net = count_net(&alog, &Pick::Owner(&author));
        let gross = gross_additions_by(&log, &author);
        assert!(net <= gross, "{:?}: net {} > gross {}", author, net, gross);
    }
    assert_eq!(count_net(&alog, &Pick::Owner(&agent())), 7);
    assert_eq!(gross_additions_by(&log, &agent()), 14);
    assert_eq!(count_net(&alog, &Pick::Owner(&human())), 3);
    assert_eq!(gross_additions_by(&log, &human()), 3);
    assert_eq!(count_net(&alog, &Pick::Owner(&other_agent())), 1);
    assert_eq!(gross_additions_by(&log, &other_agent()), 1);
    assert_eq!(count_net(&alog, &Pick::Agents), 8);
    assert_eq!(count_net(&alog, &Pick::Humans), 3);
}

#[test]
fn filter_keeps_other_files_out() {
    let log = log_of(vec![checkpoint(
        1,
        agent(),
        vec![entry("a.rs", &[(1, 3)], &[]), entry("b.rs", &[(1, 2)], &[]), entry("c.rs", &[(1, 5)], &[])],
        7,
        0,
    )]);
    let targets = targets_of(&[("a.rs", 0), ("b.rs", 0), ("c.rs", 0)]);
    let own = replay(&log, &targets).unwrap();
    let all = build_authorship_log(&own, None);
    assert_eq!(all.files.iter().map(|f| f.path.as_str()).collect::<Vec<_>>(), vec!["a.rs", "b.rs", "c.rs"]);
    let filter = vec!["c.rs".to_string(), "a.rs".to_string(), "zzz.rs".to_string()];
    let some = build_authorship_log(&own, Some(&filter));
    assert_eq!(some.files.iter().map(|f| f.path.as_str()).collect::<Vec<_>>(), vec!["a.rs", "c.rs"]);
    assert_eq!(some.files[0].ranges, vec![owned(1, 3, agent())]);
    assert_eq!(some.files[1].ranges, vec![owned(1, 5, agent())]);
    let none = build_authorship_log(&own, Some(&vec![]));
    assert!(none.files.is_empty());
}

#[test]
fn lines_above_shift_the_lines_below() {
    // The agent writes three lines into a file of two; a person then puts two
    // lines at the top. The agent's lines move down and stay the agent's.
    let log = log_of(vec![
        checkpoint(1, agent(), vec![entry("a.rs", &[(2, 5)], &[])], 3, 0),
        checkpoint(2, human(), vec![entry("a.rs", &[(1, 3)], &[])], 2, 0),
    ]);
    let targets = targets_of(&[("a.rs", 2)]);
    let own = replay(&log, &targets).unwrap();
    assert_eq!(
        origins(&own, 0),
        vec![Some((1, 1)), Some((1, 2)), None, Some((0, 2)), Some((0, 3)), Some((0, 4)), None]
    );
    let alog = build_authorship_log(&own, None);
    assert_eq!(alog.files[0].ranges, vec![owned(1, 3, human()), owned(4, 7, agent())]);
}

#[test]
fn base_lines_have_no_owner() {
    let log = log_of(vec![checkpoint(1, agent(), vec![entry("a.rs", &[(3, 4)], &[(1, 2)])], 1, 1)]);
    let targets = targets_of(&[("a.rs", 4)]);
    let own = replay(&log, &targets).unwrap();
    // Base lines 2, 3 and 4 are left; the new line is the third of the file now.
    assert_eq!(origins(&own, 0), vec![None, None, Some((0, 3)), None]);
    assert_eq!(own.owner(0, 1), None);
    assert_eq!(own.owner(0, 3), Some(&agent()));
}

#[test]
fn added_then_deleted_disappears() {
    let log = log_of(vec![
        checkpoint(1, agent(), vec![entry("a.rs", &[(1, 4)], &[])], 3, 0),
        checkpoint(2, agent(), vec![entry("a.rs", &[], &[(1, 4)])], 0, 3),
    ]);
    let targets = targets_of(&[("a.rs", 0)]);
    let own = replay(&log, &targets).unwrap();
    assert_eq!(own.line_count(0), 0);
    let alog = build_authorship_log(&own, None);
    assert!(alog.files.is_empty());
    assert_eq!(count_net(&alog, &Pick::Agents), 0);
    assert_eq!(gross_totals(&log), (3, 3));
}

#[test]
fn file_deleted_entirely_drops_every_owner() {
    let log = log_of(vec![
        checkpoint(1, agent(), vec![entry("a.rs", &[(2, 4)], &[])], 2, 0),
        checkpoint(2, human(), vec![entry("a.rs", &[(1, 2)], &[])], 1, 0),
        checkpoint(3, other_agent(), vec![entry("a.rs", &[], &[(1, 7)])], 0, 6),
    ]);
    let targets = targets_of(&[("a.rs", 3)]);
    let own = replay(&log, &targets).unwrap();
    assert_eq!(own.line_count(0), 0);
    assert!(build_authorship_log(&own, None).files.is_empty());
}

#[test]
fn neighbouring_ranges_of_one_author_are_merged() {
    let log = log_of(vec![
        checkpoint(1, agent(), vec![entry("a.rs", &[(1, 3)], &[])], 2, 0),
        checkpoint(2, human(), vec![entry("a.rs", &[(3, 4)], &[])], 1, 0),
        checkpoint(3, agent(), vec![entry("a.rs", &[(1, 2), (4, 6)], &[(3, 4)])], 3, 1),
    ]);
    let targets = targets_of(&[("a.rs", 0)]);
    let own = replay(&log, &targets).unwrap();
    assert_eq!(
        origins(&own, 0),
        vec![Some((2, 1)), Some((0, 1)), Some((0, 2)), Some((2, 4)), Some((2, 5))]
    );
    // Two checkpoints of one agent, one range.
    let alog = build_authorship_log(&own, None);
    assert_eq!(alog.files[0].ranges, vec![owned(1, 6, agent())]);
}

#[test]
fn ranges_are_split_by_base_lines() {
    let log = log_of(vec![checkpoint(1, agent(), vec![entry("a.rs", &[(1, 2), (3, 4)], &[])], 2, 0)]);
    let targets = targets_of(&[("a.rs", 1)]);
    let alog = attribute(&log, &targets, None).unwrap();
    assert_eq!(alog.files[0].ranges, vec![owned(1, 2, agent()), owned(3, 4, agent())]);
}

#[test]
fn two_entries_for_one_file_apply_in_turn() {
    let log = log_of(vec![checkpoint(
        1,
        agent(),
        vec![entry("a.rs", &[(1, 3)], &[]), entry("a.rs", &[(2, 3)], &[(1, 2)])],
        3,
        1,
    )]);
    let targets = targets_of(&[("a.rs", 0)]);
    let own = replay(&log, &targets).unwrap();
    assert_eq!(origins(&own, 0), vec![Some((0, 2)), Some((0, 2))]);
}

#[test]
fn entries_of_other_files_are_passed_over() {
    let log = log_of(vec![checkpoint(
        1,
        agent(),
        vec![entry("other.rs", &[(9, 3)], &[(0, 0)]), entry("a.rs", &[(1, 2)], &[])],
        1,
        0,
    )]);
    let targets = targets_of(&[("a.rs", 0)]);
    let own = replay(&log, &targets).unwrap();
    assert_eq!(own.file_count(), 1);
    assert_eq!(origins(&own, 0), vec![Some((0, 1))]);
}

#[test]
fn added_range_needs_start_before_end() {
    let log = log_of(vec![checkpoint(1, agent(), vec![entry("a.rs", &[(3, 3)], &[])], 0, 0)]);
    assert_eq!(replay(&log, &targets_of(&[("a.rs", 5)])), Err(corrupt(0, 0, "a.rs")));
    let log = log_of(vec![checkpoint(1, agent(), vec![entry("a.rs", &[(4, 2)], &[])], 0, 0)]);
    assert_eq!(replay(&log, &targets_of(&[("a.rs", 5)])), Err(corrupt(0, 0, "a.rs")));
}

#[test]
fn line_zero_is_corrupt() {
    let log = log_of(vec![checkpoint(1, agent(), vec![entry("a.rs", &[(0, 2)], &[])], 2, 0)]);
    assert_eq!(replay(&log, &targets_of(&[("a.rs", 5)])), Err(corrupt(0, 0, "a.rs")));
    let log = log_of(vec![checkpoint(1, agent(), vec![entry("a.rs", &[], &[(0, 1)])], 0, 1)]);
    assert_eq!(replay(&log, &targets_of(&[("a.rs", 5)])), Err(corrupt(0, 0, "a.rs")));
}

#[test]
fn overlapping_ranges_are_corrupt() {
    let log = log_of(vec![checkpoint(1, agent(), vec![entry("a.rs", &[(1, 4), (3, 5)], &[])], 5, 0)]);
    assert_eq!(replay(&log, &targets_of(&[("a.rs", 5)])), Err(corrupt(0, 0, "a.rs")));
    let log = log_of(vec![checkpoint(1, agent(), vec![entry("a.rs", &[], &[(1, 4), (3, 5)])], 0, 5)]);
    assert_eq!(replay(&log, &targets_of(&[("a.rs", 5)])), Err(corrupt(0, 0, "a.rs")));
}

#[test]
fn descending_ranges_are_corrupt() {
    let log = log_of(vec![checkpoint(1, agent(), vec![entry("a.rs", &[(4, 5), (1, 2)], &[])], 2, 0)]);
    assert_eq!(replay(&log, &targets_of(&[("a.rs", 5)])), Err(corrupt(0, 0, "a.rs")));
}

#[test]
fn removing_beyond_the_file_is_corrupt() {
    let log = log_of(vec![checkpoint(1, human(), vec![entry("a.rs", &[], &[(5, 7)])], 0, 2)]);
    assert_eq!(replay(&log, &targets_of(&[("a.rs", 5)])), Err(corrupt(0, 0, "a.rs")));
    assert!(replay(&log, &targets_of(&[("a.rs", 6)])).is_ok());
}

#[test]
fn adding_beyond_the_file_is_corrupt() {
    // A file of five lines with one more has six: the new line cannot be the eighth.
    let log = log_of(vec![checkpoint(1, human(), vec![entry("a.rs", &[(8, 9)], &[])], 1, 0)]);
    assert_eq!(replay(&log, &targets_of(&[("a.rs", 5)])), Err(corrupt(0, 0, "a.rs")));
    // The sixth it can be.
    let log = log_of(vec![checkpoint(1, human(), vec![entry("a.rs", &[(6, 7)], &[])], 1, 0)]);
    let own = replay(&log, &targets_of(&[("a.rs", 5)])).unwrap();
    assert_eq!(origins(&own, 0), vec![None, None, None, None, None, Some((0, 6))]);
    // Two ranges with a gap that nothing fills.
    let log = log_of(vec![checkpoint(1, human(), vec![entry("a.rs", &[(1, 2), (5, 6)], &[])], 2, 0)]);
    assert_eq!(replay(&log, &targets_of(&[("a.rs", 0)])), Err(corrupt(0, 0, "a.rs")));
}

#[test]
fn the_length_after_earlier_checkpoints_counts() {
    let log = log_of(vec![
        checkpoint(1, agent(), vec![entry("a.rs", &[(1, 4)], &[])], 3, 0),
        checkpoint(2, human(), vec![entry("a.rs", &[], &[(2, 4)])], 0, 2),
        checkpoint(3, agent(), vec![entry("b.rs", &[(1, 2)], &[]), entry("a.rs", &[], &[(2, 3)])], 1, 1),
    ]);
    let targets = targets_of(&[("a.rs", 0), ("b.rs", 0)]);
    // After the second checkpoint the file has one line; there is no second to remove.
    assert_eq!(replay(&log, &targets), Err(corrupt(2, 1, "a.rs")));
}

#[test]
fn the_first_corrupt_entry_is_named() {
    let log = log_of(vec![
        checkpoint(1, agent(), vec![entry("a.rs", &[(1, 2)], &[])], 1, 0),
        checkpoint(2, agent(), vec![entry("a.rs", &[(1, 2)], &[]), entry("b.rs", &[(7, 8)], &[])], 2, 0),
        checkpoint(3, agent(), vec![entry("a.rs", &[(9, 10)], &[])], 1, 0),
    ]);
    let targets = targets_of(&[("a.rs", 0), ("b.rs", 0)]);
    assert_eq!(replay(&log, &targets), Err(corrupt(1, 1, "b.rs")));
    assert_eq!(attribute(&log, &targets, None), Err(corrupt(1, 1, "b.rs")));
    // Without the second file among the targets the third checkpoint is the first at fault.
    assert_eq!(replay(&log, &targets_of(&[("a.rs", 0)])), Err(corrupt(2, 0, "a.rs")));
}

#[test]
fn a_store_failure_is_reported() {
    let targets = targets_of(&[("a.rs", 0)]);
    let r = replay_read(Err(StoreError { detail: "disk gone".to_string() }), &targets);
    assert_eq!(r, Err(AttributionError::StoreUnavailable { detail: "disk gone".to_string() }));
    let r = replay_read(Ok(overwrite_log()), &targets);
    assert_eq!(r, replay(&overwrite_log(), &targets));
}

#[test]
fn targets_hold_each_path_once() {
    let mut targets = TargetSet::new();
    assert!(targets.insert("a.rs".to_string(), 3));
    assert!(!targets.insert("a.rs".to_string(), 4));
    assert!(targets.insert("b.rs".to_string(), MAX_LINES));
    assert!(!targets.insert("c.rs".to_string(), u32::MAX));
    assert_eq!(targets.len(), 2);
    assert!(targets.contains(&"a.rs".to_string()));
    assert!(!targets.contains(&"c.rs".to_string()));
    assert_eq!(targets.get(0).base_lines, 3);
    assert_eq!(targets.get(1).path, "b.rs");
}

#[test]
fn log_keeps_the_order_of_time() {
    let mut log = WorkingLog::new("abc".to_string());
    assert_eq!(log.last_timestamp(), None);
    assert!(log.append(checkpoint(5, agent(), vec![], 0, 0)));
    assert!(log.append(checkpoint(5, human(), vec![], 0, 0)));
    assert!(!log.append(checkpoint(4, human(), vec![], 0, 0)));
    assert_eq!(log.len(), 2);
    assert_eq!(log.last_timestamp(), Some(5));
    assert_eq!(log.base_commit(), "abc");
    assert_eq!(log.get(1).author, human());
}

#[test]
fn ranges_in_order_are_accepted() {
    assert!(check_ranges(&ranges(&[])));
    assert!(check_ranges(&ranges(&[(1, 2)])));
    assert!(check_ranges(&ranges(&[(1, 3), (3, 4), (10, 20)])));
    assert!(!check_ranges(&ranges(&[(1, 3), (2, 4)])));
    assert!(!check_ranges(&ranges(&[(0, 3)])));
    assert!(!check_ranges(&ranges(&[(2, 2)])));
    assert!(!check_ranges(&ranges(&[(5, 6), (1, 2)])));
    assert_eq!(count_lines(&ranges(&[(1, 3), (3, 4), (10, 20)])), 13);
    assert_eq!(count_lines(&ranges(&[(5, 2)])), 0);
    assert_eq!(LineRange::new(4, 9).len(), 5);
    assert_eq!(LineRange::new(9, 4).len(), 0);
}

#[test]
fn removing_and_inserting_lines() {
    let tag = |c: usize, l: u32| Some(LineOrigin { checkpoint: c, line: l });
    let lines = vec![tag(0, 1), None, tag(0, 3), tag(1, 4), None];
    assert_eq!(
        remove_lines(&lines, &ranges(&[(2, 3), (4, 6)])),
        Some(vec![tag(0, 1), tag(0, 3)])
    );
    assert_eq!(remove_lines(&lines, &ranges(&[])), Some(lines.clone()));
    assert_eq!(remove_lines(&lines, &ranges(&[(5, 7)])), None);
    assert_eq!(
        insert_lines(&lines, &ranges(&[(1, 2), (7, 8)]), 2),
        Some(vec![tag(2, 1), tag(0, 1), None, tag(0, 3), tag(1, 4), None, tag(2, 7)])
    );
    assert_eq!(insert_lines(&lines, &ranges(&[(8, 9)]), 2), None);
    assert_eq!(insert_lines(&vec![], &ranges(&[(1, 3)]), 0), Some(vec![tag(0, 1), tag(0, 2)]));
    assert_eq!(blank_lines(3), vec![None, None, None]);
}

#[test]
fn stats_without_an_authorship_log() {
    let stats = stats_from_authorship_log(None, 9, 4);
    assert_eq!(stats.gross_additions, 9);
    assert_eq!(stats.gross_deletions, 4);
    assert_eq!(stats.human_net, 0);
    assert_eq!(stats.ai_net, 0);
    assert!(stats.by_owner.is_empty());
}

#[test]
fn gross_overstates_what_survives() {
    let log = overwrite_log();
    let alog = attribute(&log, &targets_of(&[("a.rs", 0)]), None).unwrap();
    assert_eq!(gross_additions_by(&log, &agent()), 10);
    assert_eq!(count_net(&alog, &Pick::Owner(&agent())), 7);
    assert_eq!(gross_additions_by(&log, &other_agent()), 0);
    assert_eq!(count_net(&alog, &Pick::Owner(&other_agent())), 0);
}

#[test]
fn authors_are_told_apart_by_name_tool_and_model() {
    assert!(agent().same_as(&agent()));
    assert!(!agent().same_as(&other_agent()));
    assert!(!agent().same_as(&Author::agent("toolA".to_string(), "modelY".to_string())));
    assert!(!human().same_as(&Author::human("Bob".to_string())));
    assert!(!human().same_as(&Author::agent("Ada".to_string(), "".to_string())));
    assert!(human().is_human());
    assert!(!agent().is_human());
    assert_eq!(agent().agent_id().map(|a| (a.tool.as_str(), a.model.as_str())), Some(("toolA", "modelX")));
    assert!(human().agent_id().is_none());
    assert_eq!(agent().clone(), agent());
}

#[test]
fn other_targets_make_no_difference() {
    let log = log_of(vec![
        checkpoint(1, agent(), vec![entry("a.rs", &[(1, 4)], &[]), entry("b.rs", &[(2, 3)], &[])], 4, 0),
        checkpoint(2, human(), vec![entry("b.rs", &[], &[(1, 2)]), entry("a.rs", &[(2, 3)], &[(3, 4)])], 1, 2),
    ]);
    let both = replay(&log, &targets_of(&[("a.rs", 0), ("b.rs", 1)])).unwrap();
    let a_alone = replay(&log, &targets_of(&[("a.rs", 0)])).unwrap();
    let b_alone = replay(&log, &targets_of(&[("b.rs", 1)])).unwrap();
    assert_eq!(origins(&both, 0), origins(&a_alone, 0));
    assert_eq!(origins(&both, 1), origins(&b_alone, 0));
    assert_eq!(origins(&a_alone, 0), vec![Some((0, 1)), Some((1, 2)), Some((0, 2))]);
    assert_eq!(origins(&b_alone, 0), vec![Some((0, 2))]);
}
