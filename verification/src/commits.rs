//! Aggregation: from the raw feed to the stored timeline.

use crate::arrangement::{
    key_values, lemma_stable_order, position_values, stable_order, stable_positions,
};
use crate::author_counts::{lemma_counts_bounded, AuthorCounts, Tally};
use crate::contributors::{ids, records, Contributor, Record, Week};
use crate::error::MalformedInputError;
use crate::timeline::{
    add_record, add_week, add_weeks, aggregate, aggregate_first, count_at, fits, has_count,
    lemma_add_weeks_grows, lemma_aggregate_grows, running_total, sorted_weeks, tally_at,
    week_starts, weeks_countable, well_formed, with_bounds, Timeline,
};
use crate::totals::{
    consistent, counts_ascend, excluded_absent, last_counts_are_totals, lemma_aggregate_counts,
};
use std::collections::HashMap;
use vstd::prelude::*;

verus! {

/// The commits of one week alone, by author.
#[derive(Clone, Debug)]
pub struct WeeklyCommits {
    pub authors: AuthorCounts,
}

/// The commits through one week, by author.
#[derive(Clone, Debug)]
pub struct SumWeeklyCommits {
    pub authors: AuthorCounts,
}

/// The stored timeline. The bounds are those of the contributor that was
/// taken in last.
#[derive(Clone, Debug)]
pub struct Commits {
    pub first_week: u32,
    pub last_week: u32,
    pub total_weeks: u32,
    pub weekly_commits: HashMap<u32, WeeklyCommits>,
    pub sum_commits: HashMap<u32, SumWeeklyCommits>,
}

/// The tallies of stored weekly commits.
pub open spec fn weekly_tallies(stored: Map<u32, WeeklyCommits>) -> Map<u32, Tally> {
    Map::new(|week: u32| stored.contains_key(week), |week: u32| stored[week].authors@)
}

/// The tallies of stored cumulative commits.
pub open spec fn cumulative_tallies(stored: Map<u32, SumWeeklyCommits>) -> Map<u32, Tally> {
    Map::new(|week: u32| stored.contains_key(week), |week: u32| stored[week].authors@)
}

impl View for Commits {
    type V = Timeline;

    open spec fn view(&self) -> Timeline {
        Timeline {
            first_week: self.first_week,
            last_week: self.last_week,
            total_weeks: self.total_weeks as nat,
            weekly: weekly_tallies(self.weekly_commits@),
            cumulative: cumulative_tallies(self.sum_commits@),
        }
    }
}

impl Commits {
    /// The timeline of no contributor.
    pub fn new() -> (commits: Commits)
        ensures
            commits@ == Timeline::empty(),
    {
        let commits = Commits {
            first_week: 0,
            last_week: 0,
            total_weeks: 0,
            weekly_commits: HashMap::new(),
            sum_commits: HashMap::new(),
        };
        assert(commits@.weekly =~= Map::empty());
        assert(commits@.cumulative =~= Map::empty());
        commits
    }
}

/// Whether `author` is among the excluded.
fn is_excluded(blacklist: &Vec<String>, author: &String) -> (excluded: bool)
    ensures
        excluded == ids(blacklist@).to_set().contains(author@),
{
    let mut i: usize = 0;
    while i < blacklist.len()
        invariant
            i <= blacklist.len(),
            forall|j: int| 0 <= j < i ==> ids(blacklist@)[j] != author@,
        decreases blacklist.len() - i,
    {
        if blacklist[i] == *author {
            assert(ids(blacklist@)[i as int] == author@);
            return true;
        }
        i = i + 1;
    }
    false
}

/// The weeks in ascending order of their start; weeks with the same start
/// keep their order.
fn sort_weeks(weeks: &Vec<Week>) -> (sorted: Vec<Week>)
    ensures
        sorted@ == sorted_weeks(weeks@),
{
    let mut keys: Vec<i64> = Vec::new();
    let mut i: usize = 0;
    while i < weeks.len()
        invariant
            i <= weeks.len(),
            keys.len() == i,
            forall|j: int| 0 <= j < i ==> keys[j] == weeks[j].w,
        decreases weeks.len() - i,
    {
        keys.push(weeks[i].w as i64);
        i = i + 1;
    }
    assert(key_values(keys@) =~= week_starts(weeks@));
    let order = stable_positions(&keys);
    let ghost places = stable_order(week_starts(weeks@));
    proof {
        lemma_stable_order(week_starts(weeks@));
    }
    let mut sorted: Vec<Week> = Vec::new();
    let mut k: usize = 0;
    while k < order.len()
        invariant
            k <= order.len(),
            order.len() == weeks.len(),
            sorted.len() == k,
            position_values(order@) == places,
            forall|j: int| 0 <= j < order.len() ==> 0 <= #[trigger] places[j] < weeks.len(),
            forall|j: int| 0 <= j < k ==> sorted[j] == weeks[places[j]],
        decreases order.len() - k,
    {
        assert(position_values(order@)[k as int] == order[k as int]);
        sorted.push(weeks[order[k]]);
        k = k + 1;
    }
    assert(sorted@ =~= sorted_weeks(weeks@));
    sorted
}

/// Aggregates the feed into a timeline, passing over the excluded authors.
///
/// The feed is refused as a whole where it is not well formed.
pub fn get_commits_per_week(
    contributors: Vec<Contributor>,
    author_blacklist: Vec<String>,
) -> (result: Result<Commits, MalformedInputError>)
    ensures
        result is Ok <==> well_formed(records(contributors@), ids(author_blacklist@).to_set()),
        result matches Ok(commits) ==> commits@ == aggregate(
            records(contributors@),
            ids(author_blacklist@).to_set(),
        ),
        result matches Ok(commits) ==> {
            &&& consistent(commits@)
            &&& excluded_absent(ids(author_blacklist@).to_set(), commits@)
            &&& counts_ascend(records(contributors@), ids(author_blacklist@).to_set(), commits@)
            &&& last_counts_are_totals(
                records(contributors@),
                ids(author_blacklist@).to_set(),
                commits@,
            )
        },
{
    broadcast use vstd::std_specs::hash::group_hash_axioms;

    let ghost feed = records(contributors@);
    let ghost excluded = ids(author_blacklist@).to_set();
    let mut commits = Commits::new();
    let mut k: usize = 0;
    while k < contributors.len()
        invariant
            k <= contributors.len(),
            feed == records(contributors@),
            excluded == ids(author_blacklist@).to_set(),
            commits@ == aggregate_first(feed, excluded, k as nat),
            forall|j: int|
                0 <= j < k && !excluded.contains(#[trigger] feed[j].author) ==> 0
                    < feed[j].weeks.len() <= u32::MAX,
        decreases contributors.len() - k,
    {
        let contributor = &contributors[k];
        let author: &String = &contributor.author.login;
        assert(feed[k as int] == contributor@);
        if !is_excluded(&author_blacklist, author) {
            if contributor.weeks.len() == 0 || contributor.weeks.len() > u32::MAX as usize {
                assert(!excluded.contains(feed[k as int].author));
                assert(!weeks_countable(feed, excluded));
                return Err(MalformedInputError);
            }
            let weeks = sort_weeks(&contributor.weeks);
            proof {
                lemma_stable_order(week_starts(contributor.weeks@));
            }
            let ghost before = commits@;
            commits.first_week = weeks[0].w;
            commits.last_week = weeks[weeks.len() - 1].w;
            commits.total_weeks = weeks.len() as u32;
            let ghost start = with_bounds(before, weeks@);
            assert(commits@ == start);
            let mut i: usize = 0;
            while i < weeks.len()
                invariant
                    i <= weeks.len(),
                    k < contributors.len(),
                    feed == records(contributors@),
                    excluded == ids(author_blacklist@).to_set(),
                    feed[k as int].author == author@,
                    weeks@ == sorted_weeks(feed[k as int].weeks),
                    !excluded.contains(feed[k as int].author),
                    start == with_bounds(aggregate_first(feed, excluded, k as nat), weeks@),
                    commits@ == add_weeks(start, author@, weeks@, i as nat),
                decreases weeks.len() - i,
            {
                let week: Week = weeks[i];
                let ghost now = commits@;
                let ghost next = add_week(now, author@, weeks@, i as int);
                let ghost running_count = running_total(now, author@, weeks@, i as int);
                assert(add_weeks(start, author@, weeks@, (i + 1) as nat) == next);

                let mut weekly = match commits.weekly_commits.remove(&week.w) {
                    Some(found) => found,
                    None => WeeklyCommits { authors: AuthorCounts::new() },
                };
                assert(weekly.authors@ == tally_at(now.weekly, week.w));
                weekly.authors.record(author, week.c);
                commits.weekly_commits.insert(week.w, weekly);
                assert(commits@.weekly =~= next.weekly);

                let running: Option<u32> = if i == 0 {
                    Some(week.c)
                } else {
                    let previous_week: u32 = weeks[i - 1].w;
                    assert(has_count(now.cumulative, previous_week, author@));
                    let previous: u32 = *commits.sum_commits.get(
                        &previous_week,
                    ).unwrap().authors.get(author.as_str()).unwrap();
                    week.c.checked_add(previous)
                };
                assert(match running {
                    Some(total) => total == running_count,
                    None => running_count > u32::MAX,
                });
                let mut sum = match commits.sum_commits.remove(&week.w) {
                    Some(found) => found,
                    None => SumWeeklyCommits { authors: AuthorCounts::new() },
                };
                assert(sum.authors@ == tally_at(now.cumulative, week.w));
                let stored = match running {
                    Some(total) => sum.authors.accumulate(author, total),
                    None => false,
                };
                if !stored {
                    proof {
                        assert(has_count(next.cumulative, week.w, author@));
                        assert(count_at(next.cumulative, week.w, author@) > u32::MAX);
                        lemma_refused(feed, excluded, k as nat, i as nat, week.w);
                    }
                    return Err(MalformedInputError);
                }
                commits.sum_commits.insert(week.w, sum);
                assert(commits@.cumulative =~= next.cumulative);
                i = i + 1;
            }
        }
        k = k + 1;
    }
    proof {
        lemma_aggregate_counts(feed, excluded);
        assert(weeks_countable(feed, excluded));
        assert(fits(commits@)) by {
            assert forall|week: u32, author: Seq<char>| #[trigger]
                has_count(commits@.cumulative, week, author) implies count_at(
                commits@.cumulative,
                week,
                author,
            ) <= u32::MAX by {
                lemma_counts_bounded(commits.sum_commits@[week].authors);
            }
        }
    }
    Ok(commits)
}

/// A cumulative count that is too large while a contributor's weeks are
/// entered is still too large in the timeline of the whole feed.
proof fn lemma_refused(
    feed: Seq<Record>,
    excluded: Set<Seq<char>>,
    k: nat,
    i: nat,
    week: u32,
)
    requires
        k < feed.len(),
        !excluded.contains(feed[k as int].author),
        i < sorted_weeks(feed[k as int].weeks).len(),
        ({
            let weeks = sorted_weeks(feed[k as int].weeks);
            let start = with_bounds(aggregate_first(feed, excluded, k), weeks);
            let next = add_weeks(start, feed[k as int].author, weeks, i + 1);
            has_count(next.cumulative, week, feed[k as int].author) && count_at(
                next.cumulative,
                week,
                feed[k as int].author,
            ) > u32::MAX
        }),
    ensures
        !fits(aggregate(feed, excluded)),
{
    let author = feed[k as int].author;
    let weeks = sorted_weeks(feed[k as int].weeks);
    let start = with_bounds(aggregate_first(feed, excluded, k), weeks);
    let next = add_weeks(start, author, weeks, i + 1);
    lemma_add_weeks_grows(start, author, weeks, i + 1, weeks.len());
    assert(aggregate_first(feed, excluded, k + 1) == add_record(
        aggregate_first(feed, excluded, k),
        feed[k as int],
    ));
    lemma_aggregate_grows(feed, excluded, k + 1, feed.len());
    let done = aggregate_first(feed, excluded, k + 1);
    assert(has_count(done.cumulative, week, author));
    assert(has_count(aggregate(feed, excluded).cumulative, week, author));
}

} // verus!
