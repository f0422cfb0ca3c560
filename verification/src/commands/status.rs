//! The status report: the checkpoints since the last commit, newest first,
//! and what survives of each author's lines.

use vstd::prelude::*;
use vstd::string::*;
use crate::text::{decimal, decimal_text, pad_left, pad_right, padded_left, padded_right,
    leading, first_chars};
use crate::checkpoint::{Author, AuthorView, CheckpointView, EntryView};
use crate::error::AttributionError;
use crate::working_log::WorkingLog;
use crate::ownership::{TargetSet, TargetView};
use crate::authorship::{AuthorshipLog, attribute, is_authorship_of, path_views, is_selected};
use crate::stats::{
    Stats, stats_of, stats_from_authorship_log, gross_totals, capped, gross_additions,
    gross_deletions,
};
use crate::seen::{joined, each_once, lemma_joined_concat};

verus! {

/// The upper-case form of a character, as `char::to_uppercase` of the
/// standard library gives it: one character or several.
pub uninterp spec fn uppercase_of(c: char) -> Seq<char>;

/// The text with its first character in upper case.
pub open spec fn capitalized(s: Seq<char>) -> Seq<char> {
    if s.len() == 0 {
        s
    } else {
        uppercase_of(s[0]) + s.skip(1)
    }
}

/// The text with `head` in the place of its first character; the empty text stays empty.
pub open spec fn with_head(s: Seq<char>, head: Seq<char>) -> Seq<char> {
    if s.len() == 0 {
        s
    } else {
        head + s.skip(1)
    }
}

/// How long ago `timestamp` was at the time `now`, both in seconds: in
/// seconds below a minute, in minutes below an hour, in hours below a day,
/// and in days from there, each rounded down. A time stamp that lies ahead
/// counts as now.
pub open spec fn time_ago_text(now: u64, timestamp: u64) -> Seq<char> {
    let diff: nat = if now >= timestamp {
        (now - timestamp) as nat
    } else {
        0
    };
    if diff < 60 {
        decimal_text(diff) + " secs ago"@
    } else if diff < 3600 {
        decimal_text(diff / 60) + " mins ago"@
    } else if diff < 86400 {
        decimal_text(diff / 3600) + " hours ago"@
    } else {
        decimal_text(diff / 86400) + " days ago"@
    }
}

/// Whether a character is white space, as `char::is_whitespace` of the
/// standard library says.
pub uninterp spec fn is_space(c: char) -> bool;

/// A text that holds white space only, or nothing at all.
pub open spec fn is_blank_text(s: Seq<char>) -> bool {
    forall|i: int| 0 <= i < s.len() ==> is_space(#[trigger] s[i])
}

/// The name under which a person's checkpoints are shown: the configured
/// name, or `unknown` where none is configured or it is blank.
pub open spec fn shown_name(configured: Option<Seq<char>>) -> Seq<char> {
    match configured {
        Some(name) => if is_blank_text(name) {
            "unknown"@
        } else {
            name
        },
        None => "unknown"@,
    }
}

/// How a checkpoint's author is shown: an agent as its tool, capitalized,
/// and its model; a person as the name that stands for the user.
pub open spec fn tool_model_text(author: AuthorView, default_user_name: Seq<char>) -> Seq<char> {
    match author {
        AuthorView::Agent(tool, model) => capitalized(tool) + " "@ + model,
        AuthorView::Human(_) => default_user_name,
    }
}

/// One line of the list of checkpoints, before it is laid out.
#[derive(Debug, PartialEq, Eq)]
pub struct CheckpointInfo {
    pub time_ago: String,
    pub additions: u32,
    pub deletions: u32,
    pub tool_model: String,
    pub is_human: bool,
}

/// One line of the list of checkpoints as a value.
pub struct CheckpointInfoView {
    pub time_ago: Seq<char>,
    pub additions: u32,
    pub deletions: u32,
    pub tool_model: Seq<char>,
    pub is_human: bool,
}

impl View for CheckpointInfo {
    type V = CheckpointInfoView;

    open spec fn view(&self) -> CheckpointInfoView {
        CheckpointInfoView {
            time_ago: self.time_ago@,
            additions: self.additions,
            deletions: self.deletions,
            tool_model: self.tool_model@,
            is_human: self.is_human,
        }
    }
}

/// What is shown of one checkpoint at the time `now`.
pub open spec fn info_of(
    cp: CheckpointView,
    default_user_name: Seq<char>,
    now: u64,
) -> CheckpointInfoView {
    CheckpointInfoView {
        time_ago: time_ago_text(now, cp.timestamp),
        additions: cp.line_stats.additions,
        deletions: cp.line_stats.deletions,
        tool_model: tool_model_text(cp.author, default_user_name),
        is_human: cp.author.is_human(),
    }
}

/// What is shown of the checkpoints of a log, newest first.
pub open spec fn infos_of(log: Seq<CheckpointView>, default_user_name: Seq<char>, now: u64) -> Seq<
    CheckpointInfoView,
> {
    Seq::new(log.len(), |i: int| info_of(log[log.len() - 1 - i], default_user_name, now))
}

/// The lines of a list as values.
pub open spec fn info_views(infos: Seq<CheckpointInfo>) -> Seq<CheckpointInfoView> {
    Seq::new(infos.len(), |i: int| infos[i]@)
}

/// A count with its sign before it, or a bare zero.
pub open spec fn signed_text(sign: Seq<char>, n: u32) -> Seq<char> {
    if n > 0 {
        sign + decimal_text(n as nat)
    } else {
        "0"@
    }
}

/// A line of the list laid out in columns: the age flush left in fourteen
/// characters, the additions and the deletions flush right in five each,
/// and the author.
pub open spec fn row_text(info: CheckpointInfoView) -> Seq<char> {
    padded_right(info.time_ago, 14) + " "@ + padded_left(signed_text("+"@, info.additions), 5)
        + "  "@ + padded_left(signed_text("-"@, info.deletions), 5) + "  "@ + info.tool_model
}

/// A line of the list as it is printed: a person's line is dimmed.
pub open spec fn row_line(info: CheckpointInfoView) -> Seq<char> {
    if info.is_human {
        "\x1b[90m"@ + row_text(info) + "\x1b[0m"@
    } else {
        row_text(info)
    }
}

/// The paths of a list of entries, entry by entry.
pub open spec fn entry_paths(entries: Seq<EntryView>) -> Seq<Seq<char>> {
    Seq::new(entries.len(), |i: int| entries[i].path)
}

/// The paths of all entries of a log, checkpoint by checkpoint.
pub open spec fn all_paths(log: Seq<CheckpointView>) -> Seq<Seq<char>>
    decreases log.len(),
{
    if log.len() == 0 {
        Seq::empty()
    } else {
        all_paths(log.drop_last()) + entry_paths(log.last().entries)
    }
}

/// The files that the checkpoints of a log touch, each once, in the order
/// in which the log first names them.
pub open spec fn touched(log: Seq<CheckpointView>) -> Seq<Seq<char>> {
    each_once(all_paths(log))
}

/// What the status command has to show.
#[derive(Debug, PartialEq, Eq)]
pub struct StatusReport {
    pub stats: Stats,
    pub checkpoints: Vec<CheckpointInfo>,
}

/// What the status of a log is: nothing to show for the empty log; else the
/// figures of the authorship log of the files that the log touches, with the
/// gross totals of the checkpoints, and the list of checkpoints; or the
/// failure of the replay.
pub open spec fn is_status_of(
    r: Result<Option<StatusReport>, AttributionError>,
    log: Seq<CheckpointView>,
    targets: Seq<TargetView>,
    default_user_name: Seq<char>,
    now: u64,
) -> bool {
    if log.len() == 0 {
        r == Ok::<Option<StatusReport>, AttributionError>(None)
    } else {
        match r {
            Ok(Some(report)) => exists|alog: AuthorshipLog|
                {
                    &&& #[trigger] is_authorship_of(
                        Ok(alog),
                        log,
                        targets,
                        Some(touched(log)),
                    )
                    &&& report.stats@ == stats_of(
                        alog@,
                        capped(gross_additions(log)),
                        capped(gross_deletions(log)),
                    )
                    &&& info_views(report.checkpoints@) == infos_of(log, default_user_name, now)
                },
            Ok(None) => false,
            Err(e) => is_authorship_of(Err(e), log, targets, Some(touched(log))),
        }
    }
}

/// Calls `char::is_whitespace` of the standard library. The contract gives
/// the result its name and claims nothing else of it.
#[verifier::external_body]
fn is_whitespace(c: char) -> (b: bool)
    ensures
        b == is_space(c),
{
    c.is_whitespace()
}

/// Calls `char::to_uppercase` of the standard library and collects what it
/// yields. The contract gives the result its name and claims nothing else of it.
#[verifier::external_body]
fn to_upper(c: char) -> (r: String)
    ensures
        r@ == uppercase_of(c),
{
    c.to_uppercase().collect()
}

/// Reads the clock of the system through `SystemTime::elapsed` of the
/// standard library, taken of the start of 1970: the whole seconds since
/// then, or zero where the clock stands before it. Nothing is claimed of
/// the result.
#[verifier::external_body]
fn now_secs() -> (secs: u64) {
    match std::time::UNIX_EPOCH.elapsed() {
        Ok(d) => d.as_secs(),
        Err(_) => 0,
    }
}

/// The text with `head` in the place of its first character.
pub fn replace_first(s: &str, head: &str) -> (r: String)
    ensures
        r@ == with_head(s@, head@),
{
    let n = s.unicode_len();
    if n == 0 {
        let r = String::new();
        assert(r@ =~= s@);
        r
    } else {
        let mut r = String::from_str(head);
        let rest = s.substring_char(1, n);
        r.append(rest);
        assert(s@.subrange(1, n as int) =~= s@.skip(1));
        r
    }
}

/// The text with its first character in upper case.
pub fn capitalize(s: &str) -> (r: String)
    ensures
        r@ == capitalized(s@),
{
    if s.unicode_len() == 0 {
        let r = String::new();
        assert(r@ =~= s@);
        r
    } else {
        let up = to_upper(s.get_char(0));
        replace_first(s, up.as_str())
    }
}

/// How long ago `timestamp` was at the time `now`, in words.
pub fn time_ago_at(now: u64, timestamp: u64) -> (r: String)
    ensures
        r@ == time_ago_text(now, timestamp),
{
    let diff: u64 = if now >= timestamp {
        now - timestamp
    } else {
        0
    };
    if diff < 60 {
        let mut r = decimal(diff);
        r.append(" secs ago");
        r
    } else if diff < 3600 {
        let mut r = decimal(diff / 60);
        r.append(" mins ago");
        r
    } else if diff < 86400 {
        let mut r = decimal(diff / 3600);
        r.append(" hours ago");
        r
    } else {
        let mut r = decimal(diff / 86400);
        r.append(" days ago");
        r
    }
}

/// How long ago `timestamp` was, in words, by the clock of the system.
pub fn format_time_ago(timestamp: u64) -> (r: String)
    ensures
        exists|now: u64| r@ == time_ago_text(now, timestamp),
{
    let now = now_secs();
    time_ago_at(now, timestamp)
}

/// Whether the text holds white space only, or nothing at all.
pub fn is_blank(s: &str) -> (b: bool)
    ensures
        b == is_blank_text(s@),
{
    let n = s.unicode_len();
    let mut i: usize = 0;
    while i < n
        invariant
            0 <= i <= n,
            n == s@.len(),
            forall|k: int| 0 <= k < i ==> is_space(#[trigger] s@[k]),
        decreases n - i,
    {
        if !is_whitespace(s.get_char(i)) {
            return false;
        }
        i += 1;
    }
    true
}

/// The configured name, or `unknown` where none is configured or the
/// configured one is said to be blank.
pub fn name_or_unknown(configured: Option<String>, blank: bool) -> (r: String)
    ensures
        r@ == match configured {
            Some(n) => if blank {
                "unknown"@
            } else {
                n@
            },
            None => "unknown"@,
        },
{
    match configured {
        Some(name) => {
            if blank {
                String::from_str("unknown")
            } else {
                name
            }
        },
        None => String::from_str("unknown"),
    }
}

/// The name under which a person's checkpoints are shown.
pub fn user_name_or_unknown(configured: Option<String>) -> (r: String)
    ensures
        r@ == shown_name(
            match configured {
                Some(n) => Some(n@),
                None => None,
            },
        ),
{
    let blank = match &configured {
        Some(name) => is_blank(name.as_str()),
        None => true,
    };
    name_or_unknown(configured, blank)
}

/// How a checkpoint's author is shown.
pub fn tool_model_label(author: &Author, default_user_name: &str) -> (r: String)
    ensures
        r@ == tool_model_text(author@, default_user_name@),
{
    match author {
        Author::Agent(id) => {
            let mut r = capitalize(id.tool.as_str());
            r.append(" ");
            r.append(id.model.as_str());
            r
        },
        Author::Human(_) => String::from_str(default_user_name),
    }
}

/// What is shown of the checkpoints of the log at the time `now`, newest first.
pub fn checkpoint_infos(log: &WorkingLog, default_user_name: &str, now: u64) -> (infos: Vec<
    CheckpointInfo,
>)
    ensures
        info_views(infos@) == infos_of(log@.checkpoints, default_user_name@, now),
{
    let mut infos: Vec<CheckpointInfo> = Vec::new();
    let n = log.len();
    let mut i: usize = 0;
    let ghost cps = log@.checkpoints;
    while i < n
        invariant
            0 <= i <= n,
            n == cps.len(),
            cps == log@.checkpoints,
            infos.len() == i,
            forall|k: int|
                0 <= k < i ==> (#[trigger] info_views(infos@)[k]) == info_of(
                    cps[n - 1 - k],
                    default_user_name@,
                    now,
                ),
        decreases n - i,
    {
        let cp = log.get(n - 1 - i);
        let ghost before = info_views(infos@);
        let info = CheckpointInfo {
            time_ago: time_ago_at(now, cp.timestamp),
            additions: cp.line_stats.additions,
            deletions: cp.line_stats.deletions,
            tool_model: tool_model_label(&cp.author, default_user_name),
            is_human: cp.author.is_human(),
        };
        infos.push(info);
        proof {
            let after = info_views(infos@);
            assert forall|k: int| 0 <= k < i + 1 implies (#[trigger] after[k]) == info_of(
                cps[n - 1 - k],
                default_user_name@,
                now,
            ) by {
                if k < i {
                    assert(after[k] == before[k]);
                }
            }
        }
        i += 1;
    }
    proof {
        assert(info_views(infos@) =~= infos_of(cps, default_user_name@, now));
    }
    infos
}

/// A count with its sign before it, or a bare zero.
pub fn signed_count(sign: &str, n: u32) -> (r: String)
    ensures
        r@ == signed_text(sign@, n),
{
    if n > 0 {
        let mut r = String::from_str(sign);
        let digits = decimal(n as u64);
        r.append(digits.as_str());
        r
    } else {
        String::from_str("0")
    }
}

/// A line of the list of checkpoints as it is printed.
pub fn format_row(info: &CheckpointInfo) -> (r: String)
    ensures
        r@ == row_line(info@),
{
    let add = signed_count("+", info.additions);
    let del = signed_count("-", info.deletions);
    let mut line = pad_right(info.time_ago.as_str(), 14);
    line.append(" ");
    let add_col = pad_left(add.as_str(), 5);
    line.append(add_col.as_str());
    line.append("  ");
    let del_col = pad_left(del.as_str(), 5);
    line.append(del_col.as_str());
    line.append("  ");
    line.append(info.tool_model.as_str());
    if info.is_human {
        let mut r = String::from_str("\x1b[90m");
        r.append(line.as_str());
        r.append("\x1b[0m");
        r
    } else {
        line
    }
}

/// The files that the checkpoints of the log touch, each once, in the order
/// in which the log first names them.
pub fn touched_paths(log: &WorkingLog) -> (out: Vec<String>)
    ensures
        path_views(out@) == touched(log@.checkpoints),
{
    let mut out: Vec<String> = Vec::new();
    let mut k: usize = 0;
    let ghost cps = log@.checkpoints;
    assert(path_views(out@) =~= touched(cps.take(0)));
    while k < log.len()
        invariant
            0 <= k <= cps.len(),
            cps == log@.checkpoints,
            path_views(out@) == touched(cps.take(k as int)),
        decreases cps.len() - k,
    {
        let cp = log.get(k);
        let ghost start = path_views(out@);
        let ghost ep = entry_paths(cps[k as int].entries);
        let mut m: usize = 0;
        assert(ep.take(0) =~= Seq::<Seq<char>>::empty());
        while m < cp.entries.len()
            invariant
                0 <= m <= cp.entries.len(),
                cp@ == cps[k as int],
                ep == entry_paths(cps[k as int].entries),
                path_views(out@) == joined(start, ep.take(m as int)),
            decreases cp.entries.len() - m,
        {
            let e = &cp.entries[m];
            proof {
                assert(e@ == cps[k as int].entries[m as int]);
                assert(ep.take(m + 1).drop_last() =~= ep.take(m as int));
                assert(ep.take(m + 1).last() == e@.path);
            }
            if !is_selected(Some(&out), &e.file_path) {
                let ghost before = path_views(out@);
                out.push(e.file_path.clone());
                assert(path_views(out@) =~= before.push(e@.path));
            }
            m += 1;
        }
        proof {
            assert(ep.take(m as int) =~= ep);
            assert(cps.take(k + 1).drop_last() =~= cps.take(k as int));
            assert(cps.take(k + 1).last() == cps[k as int]);
            lemma_joined_concat(Seq::empty(), all_paths(cps.take(k as int)), ep);
        }
        k += 1;
    }
    proof {
        assert(cps.take(k as int) =~= cps);
    }
    out
}

/// The commit that the checkpoints stand on, in short: its first seven characters.
pub open spec fn short_commit(head_sha: Seq<char>) -> Seq<char> {
    first_chars(head_sha, 7)
}

/// What is said where no checkpoint stands on the last commit.
pub fn no_checkpoints_notice(head_sha: &str) -> (r: String)
    ensures
        r@ == "No checkpoints recorded since last commit ("@ + short_commit(head_sha@) + ")"@,
{
    let mut r = String::from_str("No checkpoints recorded since last commit (");
    let short = leading(head_sha, 7);
    r.append(short.as_str());
    r.append(")");
    r
}

/// What the status command has to show for a log: its figures and its list
/// of checkpoints, with the attribution taken over the files that the log
/// touches; nothing where the log is empty.
pub fn status_report(
    log: &WorkingLog,
    targets: &TargetSet,
    default_user_name: &str,
    now: u64,
) -> (r:
    Result<Option<StatusReport>, AttributionError>)
    requires
        targets.wf(),
    ensures
        is_status_of(r, log@.checkpoints, targets@, default_user_name@, now),
{
    if log.is_empty() {
        return Ok(None);
    }
    let checkpoints = checkpoint_infos(log, default_user_name, now);
    let totals = gross_totals(log);
    let paths = touched_paths(log);
    match attribute(log, targets, Some(&paths)) {
        Ok(alog) => {
            let stats = stats_from_authorship_log(Some(&alog), totals.0, totals.1);
            let report = StatusReport { stats, checkpoints };
            assert(is_authorship_of(Ok(alog), log@.checkpoints, targets@, Some(touched(log@.checkpoints))));
            Ok(Some(report))
        },
        Err(e) => Err(e),
    }
}

} // verus!
