//! The timeline as a mathematical value, and what aggregation makes of a feed.
//!
//! Contributors are taken in the order given. One that is excluded is passed
//! over. Of any other, the weeks are put in ascending order, the bounds of the
//! timeline are set to that contributor's first week, last week and number of
//! weeks, and each week is entered in turn: the week's own count replaces the
//! author's count of that week, and the author's running total is added to the
//! author's cumulative count of that week.

use crate::arrangement::{arranged, stable_order};
use crate::author_counts::Tally;
use crate::contributors::{Record, Week};
use vstd::prelude::*;

verus! {

/// A timeline: its bounds, and for each week the counts of that week alone and
/// the cumulative counts through that week.
#[verifier::ext_equal]
pub struct Timeline {
    pub first_week: u32,
    pub last_week: u32,
    pub total_weeks: nat,
    pub weekly: Map<u32, Tally>,
    pub cumulative: Map<u32, Tally>,
}

impl Timeline {
    /// The timeline of no contributor.
    pub open spec fn empty() -> Timeline {
        Timeline {
            first_week: 0,
            last_week: 0,
            total_weeks: 0,
            weekly: Map::empty(),
            cumulative: Map::empty(),
        }
    }
}

/// The tally of `week`, empty where the week has none yet.
pub open spec fn tally_at(tallies: Map<u32, Tally>, week: u32) -> Tally {
    if tallies.contains_key(week) {
        tallies[week]
    } else {
        Tally::empty()
    }
}

/// Whether `author` has a count in `week`.
pub open spec fn has_count(tallies: Map<u32, Tally>, week: u32, author: Seq<char>) -> bool {
    tallies.contains_key(week) && tallies[week].count.contains_key(author)
}

/// The count of `author` in `week`.
pub open spec fn count_at(tallies: Map<u32, Tally>, week: u32, author: Seq<char>) -> nat {
    tallies[week].count[author]
}

/// The week starts of `weeks`, as sort keys.
pub open spec fn week_starts(weeks: Seq<Week>) -> Seq<int> {
    weeks.map_values(|week: Week| week.w as int)
}

/// The weeks by ascending week start; weeks with the same start keep their order.
pub open spec fn sorted_weeks(weeks: Seq<Week>) -> Seq<Week> {
    arranged(weeks, stable_order(week_starts(weeks)))
}

/// The running total of `author` at week `i` of `weeks`: the week's own count,
/// and from the second week on the author's cumulative count of the week before.
pub open spec fn running_total(t: Timeline, author: Seq<char>, weeks: Seq<Week>, i: int) -> nat {
    if i == 0 {
        weeks[0].c as nat
    } else {
        weeks[i].c as nat + count_at(t.cumulative, weeks[i - 1].w, author)
    }
}

/// The timeline after week `i` of `weeks` is entered for `author`.
pub open spec fn add_week(t: Timeline, author: Seq<char>, weeks: Seq<Week>, i: int) -> Timeline {
    let week = weeks[i];
    Timeline {
        weekly: t.weekly.insert(week.w, tally_at(t.weekly, week.w).record(author, week.c as nat)),
        cumulative: t.cumulative.insert(
            week.w,
            tally_at(t.cumulative, week.w).accumulate(author, running_total(t, author, weeks, i)),
        ),
        ..t
    }
}

/// The timeline after the first `n` of `weeks` are entered for `author`.
pub open spec fn add_weeks(t: Timeline, author: Seq<char>, weeks: Seq<Week>, n: nat) -> Timeline
    decreases n,
{
    if n == 0 {
        t
    } else {
        add_week(add_weeks(t, author, weeks, (n - 1) as nat), author, weeks, n - 1)
    }
}

/// The timeline with its bounds set to those of `weeks`, which are in
/// ascending order.
pub open spec fn with_bounds(t: Timeline, weeks: Seq<Week>) -> Timeline {
    Timeline {
        first_week: weeks.first().w,
        last_week: weeks.last().w,
        total_weeks: weeks.len(),
        ..t
    }
}

/// The timeline after one contributor is taken in.
pub open spec fn add_record(t: Timeline, record: Record) -> Timeline {
    let weeks = sorted_weeks(record.weeks);
    add_weeks(with_bounds(t, weeks), record.author, weeks, weeks.len())
}

/// The timeline after the first `n` contributors; excluded authors are passed over.
pub open spec fn aggregate_first(
    records: Seq<Record>,
    blacklist: Set<Seq<char>>,
    n: nat,
) -> Timeline
    decreases n,
{
    if n == 0 {
        Timeline::empty()
    } else {
        let before = aggregate_first(records, blacklist, (n - 1) as nat);
        let record = records[n - 1];
        if blacklist.contains(record.author) {
            before
        } else {
            add_record(before, record)
        }
    }
}

/// The timeline of a feed.
pub open spec fn aggregate(records: Seq<Record>, blacklist: Set<Seq<char>>) -> Timeline {
    aggregate_first(records, blacklist, records.len())
}

/// Every cumulative count fits a `u32`.
pub open spec fn fits(t: Timeline) -> bool {
    forall|week: u32, author: Seq<char>| #[trigger]
        has_count(t.cumulative, week, author) ==> count_at(t.cumulative, week, author)
            <= u32::MAX
}

/// Every contributor that is not excluded has at least one week, and no more
/// weeks than a `u32` counts.
pub open spec fn weeks_countable(records: Seq<Record>, blacklist: Set<Seq<char>>) -> bool {
    forall|k: int|
        0 <= k < records.len() && !blacklist.contains(#[trigger] records[k].author) ==> 0
            < records[k].weeks.len() <= u32::MAX
}

/// A feed that aggregation accepts: its weeks are countable and no cumulative
/// count outgrows a `u32`.
pub open spec fn well_formed(records: Seq<Record>, blacklist: Set<Seq<char>>) -> bool {
    weeks_countable(records, blacklist) && fits(aggregate(records, blacklist))
}

/// Every count of `a` is in `b` too, and is no smaller there.
pub open spec fn grows(a: Map<u32, Tally>, b: Map<u32, Tally>) -> bool {
    forall|week: u32, author: Seq<char>| #[trigger]
        has_count(a, week, author) ==> has_count(b, week, author) && count_at(a, week, author)
            <= count_at(b, week, author)
}

/// Entering a week takes no cumulative count away and lowers none.
pub proof fn lemma_add_week_grows(t: Timeline, author: Seq<char>, weeks: Seq<Week>, i: int)
    ensures
        grows(t.cumulative, add_week(t, author, weeks, i).cumulative),
{
}

/// Entering more weeks takes no cumulative count away and lowers none.
pub proof fn lemma_add_weeks_grows(
    t: Timeline,
    author: Seq<char>,
    weeks: Seq<Week>,
    i: nat,
    n: nat,
)
    requires
        i <= n,
    ensures
        grows(
            add_weeks(t, author, weeks, i).cumulative,
            add_weeks(t, author, weeks, n).cumulative,
        ),
    decreases n,
{
    if i < n {
        lemma_add_weeks_grows(t, author, weeks, i, (n - 1) as nat);
        lemma_add_week_grows(add_weeks(t, author, weeks, (n - 1) as nat), author, weeks, n - 1);
    }
}

/// Taking in more contributors takes no cumulative count away and lowers none.
pub proof fn lemma_aggregate_grows(
    records: Seq<Record>,
    blacklist: Set<Seq<char>>,
    k: nat,
    n: nat,
)
    requires
        k <= n,
    ensures
        grows(
            aggregate_first(records, blacklist, k).cumulative,
            aggregate_first(records, blacklist, n).cumulative,
        ),
    decreases n,
{
    if k < n {
        lemma_aggregate_grows(records, blacklist, k, (n - 1) as nat);
        let before = aggregate_first(records, blacklist, (n - 1) as nat);
        let record = records[n - 1];
        if !blacklist.contains(record.author) {
            let weeks = sorted_weeks(record.weeks);
            lemma_add_weeks_grows(with_bounds(before, weeks), record.author, weeks, 0, weeks.len());
        }
    }
}

} // verus!
