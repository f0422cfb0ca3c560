//! The figures of a report: what the checkpoints reported in all (gross),
//! and what survives in the working tree of each author's lines (net).

use vstd::prelude::*;
use crate::checkpoint::{Author, AuthorView, CheckpointView};
use crate::authorship::{AuthorshipLog, FileAuthorshipView, OwnedRangeView, range_views};
use crate::working_log::WorkingLog;
use crate::seen::{joined, each_once, lemma_joined_concat};

verus! {

/// Which owners a count takes in.
pub enum Pick<'a> {
    /// Every person.
    Humans,
    /// Every agent.
    Agents,
    /// One author.
    Owner(&'a Author),
}

/// Which owners a count takes in, as a value.
pub enum PickView {
    Humans,
    Agents,
    Owner(AuthorView),
}

impl PickView {
    /// Whether the count takes the author in.
    pub open spec fn takes(self, a: AuthorView) -> bool {
        match self {
            PickView::Humans => a.is_human(),
            PickView::Agents => !a.is_human(),
            PickView::Owner(o) => a == o,
        }
    }
}

impl<'a> View for Pick<'a> {
    type V = PickView;

    open spec fn view(&self) -> PickView {
        match *self {
            Pick::Humans => PickView::Humans,
            Pick::Agents => PickView::Agents,
            Pick::Owner(a) => PickView::Owner(a@),
        }
    }
}

impl<'a> Pick<'a> {
    /// Whether the count takes the author in.
    pub fn takes(&self, a: &Author) -> (b: bool)
        ensures
            b == self@.takes(a@),
    {
        match self {
            Pick::Humans => a.is_human(),
            Pick::Agents => !a.is_human(),
            Pick::Owner(o) => a.same_as(o),
        }
    }
}

/// A count as a `u64`: the count itself, or `u64::MAX` where it is larger.
pub open spec fn capped(n: nat) -> u64 {
    if n <= u64::MAX {
        n as u64
    } else {
        u64::MAX
    }
}

/// The lines of the ranges whose owner the pick takes in.
pub open spec fn lines_kept(rs: Seq<OwnedRangeView>, pick: PickView) -> nat
    decreases rs.len(),
{
    if rs.len() == 0 {
        0
    } else {
        lines_kept(rs.drop_last(), pick) + if pick.takes(rs.last().owner) {
            rs.last().range.count()
        } else {
            0
        }
    }
}

/// The surviving lines in an authorship log whose owner the pick takes in.
pub open spec fn net_lines(files: Seq<FileAuthorshipView>, pick: PickView) -> nat
    decreases files.len(),
{
    if files.len() == 0 {
        0
    } else {
        net_lines(files.drop_last(), pick) + lines_kept(files.last().ranges, pick)
    }
}

/// The surviving lines of one author.
pub open spec fn net_of(files: Seq<FileAuthorshipView>, a: AuthorView) -> nat {
    net_lines(files, PickView::Owner(a))
}

/// The additions that the checkpoints of a log reported, over all of them.
pub open spec fn gross_additions(log: Seq<CheckpointView>) -> nat
    decreases log.len(),
{
    if log.len() == 0 {
        0
    } else {
        gross_additions(log.drop_last()) + log.last().line_stats.additions as nat
    }
}

/// The deletions that the checkpoints of a log reported, over all of them.
pub open spec fn gross_deletions(log: Seq<CheckpointView>) -> nat
    decreases log.len(),
{
    if log.len() == 0 {
        0
    } else {
        gross_deletions(log.drop_last()) + log.last().line_stats.deletions as nat
    }
}

/// The additions that the checkpoints reported whose author the pick takes in.
pub open spec fn gross_picked(log: Seq<CheckpointView>, pick: PickView) -> nat
    decreases log.len(),
{
    if log.len() == 0 {
        0
    } else {
        gross_picked(log.drop_last(), pick) + if pick.takes(log.last().author) {
            log.last().line_stats.additions as nat
        } else {
            0
        }
    }
}

/// The additions that the checkpoints of one author reported.
pub open spec fn gross_additions_of(log: Seq<CheckpointView>, a: AuthorView) -> nat {
    gross_picked(log, PickView::Owner(a))
}

/// The owners of a list of ranges, range by range.
pub open spec fn range_owners(rs: Seq<OwnedRangeView>) -> Seq<AuthorView> {
    Seq::new(rs.len(), |i: int| rs[i].owner)
}

/// The owners of all ranges of an authorship log, file by file and range by range.
pub open spec fn all_owners(files: Seq<FileAuthorshipView>) -> Seq<AuthorView>
    decreases files.len(),
{
    if files.len() == 0 {
        Seq::empty()
    } else {
        all_owners(files.drop_last()) + range_owners(files.last().ranges)
    }
}

/// The owners that an authorship log names, each once, in the order in which
/// they first come.
pub open spec fn owners_in(files: Seq<FileAuthorshipView>) -> Seq<AuthorView> {
    each_once(all_owners(files))
}

/// What survives of one owner's lines.
#[derive(Debug, PartialEq, Eq)]
pub struct OwnerNet {
    pub owner: Author,
    pub net_additions: u64,
}

/// The figures of a report. Gross figures are what the checkpoints reported,
/// whatever became of the lines; net figures count the lines that stand in
/// the working tree now. A count that does not fit is given as `u64::MAX`.
#[derive(Debug, PartialEq, Eq)]
pub struct Stats {
    pub gross_additions: u64,
    pub gross_deletions: u64,
    pub human_net: u64,
    pub ai_net: u64,
    pub by_owner: Vec<OwnerNet>,
}

/// The figures as a value.
pub struct StatsView {
    pub gross_additions: u64,
    pub gross_deletions: u64,
    pub human_net: u64,
    pub ai_net: u64,
    pub by_owner: Seq<(AuthorView, u64)>,
}

/// The per-owner figures of a list as values.
pub open spec fn owner_net_views(v: Seq<OwnerNet>) -> Seq<(AuthorView, u64)> {
    Seq::new(v.len(), |i: int| (v[i].owner@, v[i].net_additions))
}

impl View for Stats {
    type V = StatsView;

    open spec fn view(&self) -> StatsView {
        StatsView {
            gross_additions: self.gross_additions,
            gross_deletions: self.gross_deletions,
            human_net: self.human_net,
            ai_net: self.ai_net,
            by_owner: owner_net_views(self.by_owner@),
        }
    }
}

/// The figures for an authorship log and the gross totals of its checkpoints.
pub open spec fn stats_of(
    files: Seq<FileAuthorshipView>,
    gross_additions: u64,
    gross_deletions: u64,
) -> StatsView {
    StatsView {
        gross_additions,
        gross_deletions,
        human_net: capped(net_lines(files, PickView::Humans)),
        ai_net: capped(net_lines(files, PickView::Agents)),
        by_owner: Seq::new(
            owners_in(files).len(),
            |i: int| (owners_in(files)[i], capped(net_of(files, owners_in(files)[i]))),
        ),
    }
}

/// The surviving lines in the log whose owner the pick takes in.
pub fn count_net(alog: &AuthorshipLog, pick: &Pick) -> (n: u64)
    ensures
        n == capped(net_lines(alog@, pick@)),
{
    let mut n: u64 = 0;
    let mut i: usize = 0;
    while i < alog.files.len()
        invariant
            0 <= i <= alog.files.len(),
            n == capped(net_lines(alog@.take(i as int), pick@)),
        decreases alog.files.len() - i,
    {
        let rs = &alog.files[i].ranges;
        let ghost before = net_lines(alog@.take(i as int), pick@);
        let ghost rv = range_views(rs@);
        let mut j: usize = 0;
        while j < rs.len()
            invariant
                0 <= j <= rs.len(),
                rv == range_views(rs@),
                n == capped(before + lines_kept(rv.take(j as int), pick@)),
            decreases rs.len() - j,
        {
            proof {
                assert(rv.take(j + 1).drop_last() =~= rv.take(j as int));
                assert(rv.take(j + 1).last() == rs@[j as int]@);
            }
            if pick.takes(&rs[j].owner) {
                n = n.saturating_add(rs[j].range.len() as u64);
            }
            j += 1;
        }
        proof {
            assert(rv.take(j as int) =~= rv);
            assert(alog@.take(i + 1).drop_last() =~= alog@.take(i as int));
            assert(alog@.take(i + 1).last().ranges == rv);
        }
        i += 1;
    }
    proof {
        assert(alog@.take(i as int) =~= alog@);
    }
    n
}

/// The authors of a list as values.
pub open spec fn seen_views(v: Seq<Author>) -> Seq<AuthorView> {
    Seq::new(v.len(), |i: int| v[i]@)
}

/// Whether the list holds the author.
pub fn holds_author(seen: &Vec<Author>, a: &Author) -> (b: bool)
    ensures
        b == seen_views(seen@).contains(a@),
{
    let mut i: usize = 0;
    while i < seen.len()
        invariant
            0 <= i <= seen.len(),
            forall|k: int| 0 <= k < i ==> seen_views(seen@)[k] != a@,
        decreases seen.len() - i,
    {
        if seen[i].same_as(a) {
            assert(seen_views(seen@)[i as int] == a@);
            return true;
        }
        i += 1;
    }
    false
}

/// The owners that the log names, each once, in the order in which they first come.
pub fn owners(alog: &AuthorshipLog) -> (out: Vec<Author>)
    ensures
        seen_views(out@) == owners_in(alog@),
{
    let mut out: Vec<Author> = Vec::new();
    let mut i: usize = 0;
    assert(seen_views(out@) =~= owners_in(alog@.take(0)));
    while i < alog.files.len()
        invariant
            0 <= i <= alog.files.len(),
            seen_views(out@) == owners_in(alog@.take(i as int)),
        decreases alog.files.len() - i,
    {
        let rs = &alog.files[i].ranges;
        let ghost start = seen_views(out@);
        let ghost ro = range_owners(range_views(rs@));
        let mut j: usize = 0;
        assert(ro.take(0) =~= Seq::<AuthorView>::empty());
        while j < rs.len()
            invariant
                0 <= j <= rs.len(),
                ro == range_owners(range_views(rs@)),
                seen_views(out@) == joined(start, ro.take(j as int)),
            decreases rs.len() - j,
        {
            proof {
                assert(ro.take(j + 1).drop_last() =~= ro.take(j as int));
                assert(ro.take(j + 1).last() == rs@[j as int].owner@);
            }
            if !holds_author(&out, &rs[j].owner) {
                let ghost before = seen_views(out@);
                out.push(rs[j].owner.clone());
                assert(seen_views(out@) =~= before.push(rs@[j as int].owner@));
            }
            j += 1;
        }
        proof {
            assert(ro.take(j as int) =~= ro);
            assert(alog@.take(i + 1).drop_last() =~= alog@.take(i as int));
            assert(alog@.take(i + 1).last().ranges == range_views(rs@));
            lemma_joined_concat(Seq::empty(), all_owners(alog@.take(i as int)), ro);
        }
        i += 1;
    }
    proof {
        assert(alog@.take(i as int) =~= alog@);
    }
    out
}

/// The figures for an authorship log, with the gross totals that the
/// checkpoints reported. Without a log every net figure is zero.
pub fn stats_from_authorship_log(
    alog: Option<&AuthorshipLog>,
    total_additions: u64,
    total_deletions: u64,
) -> (stats: Stats)
    ensures
        stats@ == stats_of(
            match alog {
                Some(l) => l@,
                None => Seq::empty(),
            },
            total_additions,
            total_deletions,
        ),
{
    match alog {
        None => {
            let stats = Stats {
                gross_additions: total_additions,
                gross_deletions: total_deletions,
                human_net: 0,
                ai_net: 0,
                by_owner: Vec::new(),
            };
            assert(stats@.by_owner =~= stats_of(Seq::empty(), total_additions, total_deletions).by_owner);
            stats
        },
        Some(l) => {
            let names = owners(l);
            let mut by_owner: Vec<OwnerNet> = Vec::new();
            let mut i: usize = 0;
            while i < names.len()
                invariant
                    0 <= i <= names.len(),
                    seen_views(names@) == owners_in(l@),
                    by_owner.len() == i,
                    forall|k: int|
                        0 <= k < i ==> (#[trigger] owner_net_views(by_owner@)[k]) == (
                            owners_in(l@)[k],
                            capped(net_of(l@, owners_in(l@)[k])),
                        ),
                decreases names.len() - i,
            {
                assert(seen_views(names@)[i as int] == names@[i as int]@);
                let n = count_net(l, &Pick::Owner(&names[i]));
                let ghost before = owner_net_views(by_owner@);
                let owner = names[i].clone();
                by_owner.push(OwnerNet { owner, net_additions: n });
                proof {
                    let now = owner_net_views(by_owner@);
                    assert(now[i as int] == (owners_in(l@)[i as int], n));
                    assert forall|k: int| 0 <= k < i + 1 implies (#[trigger] now[k]) == (
                        owners_in(l@)[k],
                        capped(net_of(l@, owners_in(l@)[k])),
                    ) by {
                        if k < i {
                            assert(now[k] == before[k]);
                        }
                    }
                }
                i += 1;
            }
            let stats = Stats {
                gross_additions: total_additions,
                gross_deletions: total_deletions,
                human_net: count_net(l, &Pick::Humans),
                ai_net: count_net(l, &Pick::Agents),
                by_owner,
            };
            assert(stats@.by_owner =~= stats_of(l@, total_additions, total_deletions).by_owner);
            stats
        },
    }
}

/// The additions and the deletions that the checkpoints of the log reported,
/// over all of them.
pub fn gross_totals(log: &WorkingLog) -> (totals: (u64, u64))
    ensures
        totals.0 == capped(gross_additions(log@.checkpoints)),
        totals.1 == capped(gross_deletions(log@.checkpoints)),
{
    let mut additions: u64 = 0;
    let mut deletions: u64 = 0;
    let mut k: usize = 0;
    let ghost cps = log@.checkpoints;
    while k < log.len()
        invariant
            0 <= k <= cps.len(),
            cps == log@.checkpoints,
            additions == capped(gross_additions(cps.take(k as int))),
            deletions == capped(gross_deletions(cps.take(k as int))),
        decreases cps.len() - k,
    {
        proof {
            assert(cps.take(k + 1).drop_last() =~= cps.take(k as int));
            assert(cps.take(k + 1).last() == cps[k as int]);
        }
        let cp = log.get(k);
        additions = additions.saturating_add(cp.line_stats.additions as u64);
        deletions = deletions.saturating_add(cp.line_stats.deletions as u64);
        k += 1;
    }
    proof {
        assert(cps.take(k as int) =~= cps);
    }
    (additions, deletions)
}

/// The additions that the checkpoints of one author reported.
pub fn gross_additions_by(log: &WorkingLog, author: &Author) -> (n: u64)
    ensures
        n == capped(gross_additions_of(log@.checkpoints, author@)),
{
    let mut n: u64 = 0;
    let mut k: usize = 0;
    let ghost cps = log@.checkpoints;
    while k < log.len()
        invariant
            0 <= k <= cps.len(),
            cps == log@.checkpoints,
            n == capped(gross_picked(cps.take(k as int), PickView::Owner(author@))),
        decreases cps.len() - k,
    {
        proof {
            assert(cps.take(k + 1).drop_last() =~= cps.take(k as int));
            assert(cps.take(k + 1).last() == cps[k as int]);
        }
        let cp = log.get(k);
        if cp.author.same_as(author) {
            n = n.saturating_add(cp.line_stats.additions as u64);
        }
        k += 1;
    }
    proof {
        assert(cps.take(k as int) =~= cps);
    }
    n
}

} // verus!
