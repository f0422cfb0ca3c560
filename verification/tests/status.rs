use git_ai::checkpoint::{Author, Checkpoint, FileEntry, LineStats};
use git_ai::commands::status::{
    checkpoint_infos, format_row, is_blank, name_or_unknown, no_checkpoints_notice, signed_count, status_report,
    tool_model_label, touched_paths, user_name_or_unknown, CheckpointInfo,
};
use git_ai::error::AttributionError;
use git_ai::ownership::TargetSet;
use git_ai::ranges::LineRange;
use git_ai::working_log::WorkingLog;

fn ranges(rs: &[(u32, u32)]) -> Vec<LineRange> {
    rs.iter().map(|&(s, e)| LineRange::new(s, e)).collect()
}

fn entry(path: &str, added: &[(u32, u32)], removed: &[(u32, u32)]) -> FileEntry {
    FileEntry::new(path.to_string(), ranges(added), ranges(removed))
}

fn agent() -> Author {
    Author::agent("toolA".to_string(), "modelX".to_string())
}

fn human() -> Author {
    Author::human("Ada".to_string())
}

fn sample_log() -> WorkingLog {
    let mut log = WorkingLog::new("0123456789abcdef".to_string());
    assert!(log.append(Checkpoint::new(
        1000,
        agent(),
        vec![entry("a.rs", &[(1, 11)], &[]), entry("b.rs", &[(1, 3)], &[])],
        LineStats { additions: 12, deletions: 0 }
    )));
    assert!(log.append(Checkpoint::new(
        4000,
        human(),
        vec![entry("a.rs", &[(3, 6)], &[(3, 6)]), entry("c.rs", &[], &[(1, 2)])],
        LineStats { additions: 3, deletions: 4 }
    )));
    log
}

fn info(time_ago: &str, additions: u32, deletions: u32, tool_model: &str, is_human: bool) -> CheckpointInfo {
    CheckpointInfo {
        time_ago: time_ago.to_string(),
        additions,
        deletions,
        tool_model: tool_model.to_string(),
        is_human,
    }
}

#[test]
fn checkpoints_are_listed_newest_first() {
    let infos = checkpoint_infos(&sample_log(), "Grace", 4030);
    assert_eq!(
        infos,
        vec![info("30 secs ago", 3, 4, "Grace", true), info("50 mins ago", 12, 0, "ToolA modelX", false)]
    );
    assert!(checkpoint_infos(&WorkingLog::new("abc".to_string()), "Grace", 1).is_empty());
}

#[test]
fn agents_are_shown_by_tool_and_model() {
    assert_eq!(tool_model_label(&agent(), "Grace"), "ToolA modelX");
    assert_eq!(tool_model_label(&human(), "Grace"), "Grace");
    assert_eq!(tool_model_label(&Author::agent("".to_string(), "m".to_string()), "Grace"), " m");
}

#[test]
fn rows_are_laid_out_in_columns() {
    assert_eq!(
        format_row(&info("50 mins ago", 12, 0, "ToolA modelX", false)),
        "50 mins ago      +12      0  ToolA modelX"
    );
    assert_eq!(
        format_row(&info("30 secs ago", 3, 4, "Grace", true)),
        "\x1b[90m30 secs ago       +3     -4  Grace\x1b[0m"
    );
    assert_eq!(
        format_row(&info("213503982334601 days ago", 1234567, 4294967295, "x", false)),
        "213503982334601 days ago +1234567  -4294967295  x"
    );
}

#[test]
fn counts_carry_their_sign() {
    assert_eq!(signed_count("+", 7), "+7");
    assert_eq!(signed_count("-", 120), "-120");
    assert_eq!(signed_count("+", 0), "0");
    assert_eq!(signed_count("-", 0), "0");
}

#[test]
fn a_blank_name_is_unknown() {
    assert_eq!(user_name_or_unknown(Some("Ada".to_string())), "Ada");
    assert_eq!(user_name_or_unknown(Some("  Ada L. ".to_string())), "  Ada L. ");
    assert_eq!(user_name_or_unknown(Some("".to_string())), "unknown");
    assert_eq!(user_name_or_unknown(Some(" \t\n\u{a0}\u{3000}".to_string())), "unknown");
    assert_eq!(user_name_or_unknown(None), "unknown");
    assert_eq!(name_or_unknown(Some("Ada".to_string()), false), "Ada");
    assert_eq!(name_or_unknown(Some("Ada".to_string()), true), "unknown");
    assert_eq!(name_or_unknown(None, false), "unknown");
    assert!(is_blank(""));
    assert!(is_blank(" \r\n"));
    assert!(!is_blank(" x "));
}

#[test]
fn touched_paths_come_once_each() {
    assert_eq!(touched_paths(&sample_log()), vec!["a.rs", "b.rs", "c.rs"]);
    assert!(touched_paths(&WorkingLog::new("abc".to_string())).is_empty());
}

#[test]
fn notice_names_the_commit_in_short() {
    assert_eq!(
        no_checkpoints_notice("0123456789abcdef"),
        "No checkpoints recorded since last commit (0123456)"
    );
    assert_eq!(no_checkpoints_notice("0123"), "No checkpoints recorded since last commit (0123)");
}

#[test]
fn status_of_an_empty_log_is_nothing() {
    let log = WorkingLog::new("abc".to_string());
    assert_eq!(status_report(&log, &TargetSet::new(), "Grace", 5), Ok(None));
}

#[test]
fn status_counts_what_survives() {
    let log = sample_log();
    let mut targets = TargetSet::new();
    assert!(targets.insert("a.rs".to_string(), 0));
    assert!(targets.insert("b.rs".to_string(), 0));
    assert!(targets.insert("c.rs".to_string(), 2));
    let report = status_report(&log, &targets, "Grace", 4030).unwrap().unwrap();
    assert_eq!(report.stats.gross_additions, 15);
    assert_eq!(report.stats.gross_deletions, 4);
    assert_eq!(report.stats.ai_net, 9);
    assert_eq!(report.stats.human_net, 3);
    assert_eq!(report.stats.by_owner.len(), 2);
    assert_eq!(report.stats.by_owner[0].owner, agent());
    assert_eq!(report.stats.by_owner[0].net_additions, 9);
    assert_eq!(report.stats.by_owner[1].owner, human());
    assert_eq!(report.stats.by_owner[1].net_additions, 3);
    assert_eq!(report.checkpoints, checkpoint_infos(&log, "Grace", 4030));
}

#[test]
fn status_reports_a_corrupt_checkpoint() {
    let log = sample_log();
    let mut targets = TargetSet::new();
    assert!(targets.insert("a.rs".to_string(), 0));
    assert!(targets.insert("c.rs".to_string(), 0));
    assert_eq!(
        status_report(&log, &targets, "Grace", 4030),
        Err(AttributionError::CorruptCheckpoint { checkpoint: 1, entry: 1, file: "c.rs".to_string() })
    );
}
