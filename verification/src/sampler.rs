//! Sampling: from a tick of the animation to a week and its leaderboard.
//!
//! The weeks of the timeline are taken in ascending order. A tick stands for
//! the week at `tick * weeks_per_tick`; a tick that points past the last week
//! stands for the last week. The leaderboard of a week lists its authors by
//! descending cumulative count, authors with equal counts in the order in
//! which they entered the tally.

use crate::arrangement::{
    arranged, key_values, lemma_stable_order, position_values, stable_order, stable_positions,
};
use crate::author_counts::{pairs, Tally};
use crate::commits::{Commits, SumWeeklyCommits};
use crate::error::SampleError;
use crate::timeline::Timeline;
use vstd::prelude::*;
use vstd::relations::{sorted_by, total_ordering};
use vstd::seq_lib::lemma_sorted_unique;
use vstd::std_specs::hash::spec_keys_iter;
use vstd::std_specs::iter::IteratorSpec;

verus! {

/// The number of weeks that one tick spans: `total_weeks / total_ticks`,
/// rounded up.
pub open spec fn weeks_per_tick_of(total_weeks: nat, total_ticks: nat) -> nat {
    if total_weeks % total_ticks == 0 {
        total_weeks / total_ticks
    } else {
        total_weeks / total_ticks + 1
    }
}

/// Ascending order of week starts.
pub open spec fn week_leq() -> spec_fn(u32, u32) -> bool {
    |a: u32, b: u32| a <= b
}

/// The weeks of the timeline that have cumulative counts, in ascending order.
pub open spec fn week_order(t: Timeline) -> Seq<u32> {
    t.cumulative.dom().to_sorted_seq(week_leq())
}

/// The place in `week_order` that a tick stands for, where there are
/// `weeks` > 0 weeks to choose from.
pub open spec fn sampled_index(total_weeks: nat, tick: nat, total_ticks: nat, weeks: nat) -> int {
    let index = tick * weeks_per_tick_of(total_weeks, total_ticks);
    if index >= weeks {
        weeks - 1
    } else {
        index as int
    }
}

/// The week that a tick stands for.
pub open spec fn sampled_week(t: Timeline, tick: nat, total_ticks: nat) -> u32 {
    week_order(t)[sampled_index(t.total_weeks, tick, total_ticks, week_order(t).len())]
}

/// Sort keys that put larger counts first.
pub open spec fn descending(entries: Seq<(Seq<char>, nat)>) -> Seq<int> {
    entries.map_values(|entry: (Seq<char>, nat)| -(entry.1 as int))
}

/// The authors of a tally by descending count; authors with equal counts in
/// the order in which they entered the tally.
pub open spec fn ranking(tally: Tally) -> Seq<(Seq<char>, nat)> {
    arranged(tally.entries(), stable_order(descending(tally.entries())))
}

/// A sampled frame as plain values.
pub open spec fn frame(sample: (u32, Vec<(String, u32)>)) -> (u32, Seq<(Seq<char>, nat)>) {
    (sample.0, pairs(sample.1@))
}

/// What sampling answers: no tick to divide by is a configuration error, a
/// timeline without a week has nothing to show, and otherwise the answer is
/// the sampled week with its leaderboard.
pub open spec fn sampled(t: Timeline, tick: nat, total_ticks: nat) -> Result<
    (u32, Seq<(Seq<char>, nat)>),
    SampleError,
> {
    if total_ticks == 0 {
        Err(SampleError::Configuration)
    } else if week_order(t).len() == 0 {
        Err(SampleError::EmptyTimeline)
    } else {
        let week = sampled_week(t, tick, total_ticks);
        Ok((week, ranking(t.cumulative[week])))
    }
}

/// The number of weeks that one tick spans.
pub fn weeks_per_tick(total_weeks: u32, total_ticks: u32) -> (weeks: u32)
    requires
        total_ticks > 0,
    ensures
        weeks == weeks_per_tick_of(total_weeks as nat, total_ticks as nat),
{
    let whole: u32 = total_weeks / total_ticks;
    if total_weeks % total_ticks == 0 {
        whole
    } else {
        assert(whole < u32::MAX) by (nonlinear_arith)
            requires
                whole == total_weeks / total_ticks,
                total_weeks % total_ticks != 0,
                total_ticks > 0,
                total_weeks <= u32::MAX,
        {
            if total_ticks == 1 {
                assert(total_weeks % 1 == 0);
            }
        }
        whole + 1
    }
}

/// A finite set listed by `to_seq` has each member once.
proof fn lemma_to_seq_distinct(s: Set<u32>)
    requires
        s.finite(),
    ensures
        s.to_seq().no_duplicates(),
        s.to_seq().to_set() == s,
    decreases s.len(),
{
    broadcast use vstd::set::group_set_axioms;

    s.lemma_to_seq_to_set_id();
    if s.len() != 0 {
        let x = s.choose();
        let rest = s.remove(x);
        lemma_to_seq_distinct(rest);
        rest.lemma_to_seq_to_set_id();
        let head = Seq::<u32>::empty().push(x);
        assert(s.to_seq() == head + rest.to_seq());
        assert(!rest.to_seq().contains(x)) by {
            if rest.to_seq().contains(x) {
                assert(rest.to_seq().to_set().contains(x));
            }
        }
        assert forall|i: int, j: int|
            0 <= i < s.to_seq().len() && 0 <= j < s.to_seq().len() && i != j implies s.to_seq()[i]
            != s.to_seq()[j] by {
            if i > 0 {
                assert(rest.to_seq().contains(rest.to_seq()[i - 1]));
            }
            if j > 0 {
                assert(rest.to_seq().contains(rest.to_seq()[j - 1]));
            }
        }
    }
}

/// Two lists without repeats that hold the same members hold each as often.
proof fn lemma_distinct_same_members(x: Seq<u32>, y: Seq<u32>)
    requires
        x.no_duplicates(),
        y.no_duplicates(),
        x.to_set() == y.to_set(),
    ensures
        x.to_multiset() == y.to_multiset(),
{
    broadcast use vstd::seq_lib::group_to_multiset_ensures;
    broadcast use vstd::multiset::group_multiset_axioms;

    x.lemma_multiset_has_no_duplicates();
    y.lemma_multiset_has_no_duplicates();
    assert forall|v: u32| x.to_multiset().count(v) == y.to_multiset().count(v) by {
        assert(x.contains(v) == x.to_set().contains(v));
        assert(y.contains(v) == y.to_set().contains(v));
        assert(x.to_multiset().contains(v) == x.contains(v));
        assert(y.to_multiset().contains(v) == y.contains(v));
    }
    assert(x.to_multiset() =~= y.to_multiset());
}

/// Ascending order of week starts is a total order.
pub proof fn lemma_week_leq_total()
    ensures
        total_ordering(week_leq()),
{
    let r = week_leq();
    assert forall|x: u32, y: u32| #[trigger] r(x, y) || #[trigger] r(y, x) by {}
    assert forall|x: u32| #[trigger] r(x, x) by {}
    assert forall|x: u32, y: u32| #[trigger] r(x, y) && #[trigger] r(y, x) implies x == y by {}
    assert forall|x: u32, y: u32, z: u32| #[trigger] r(x, y) && #[trigger] r(y, z) implies r(
        x,
        z,
    ) by {}
}

/// The weeks of a timeline in ascending order are the one list that holds
/// each week once and ascends.
pub proof fn lemma_week_order_unique(t: Timeline, weeks: Seq<u32>)
    requires
        t.cumulative.dom().finite(),
        weeks.no_duplicates(),
        weeks.to_set() == t.cumulative.dom(),
        sorted_by(weeks, week_leq()),
    ensures
        weeks == week_order(t),
{
    let dom = t.cumulative.dom();
    lemma_week_leq_total();
    lemma_to_seq_distinct(dom);
    lemma_distinct_same_members(weeks, dom.to_seq());
    dom.to_seq().lemma_sort_by_ensures(week_leq());
    lemma_sorted_unique(weeks, week_order(t), week_leq());
}

/// The weeks of a timeline in ascending order hold each week of the timeline
/// once, and ascend strictly.
pub proof fn lemma_week_order(t: Timeline)
    requires
        t.cumulative.dom().finite(),
    ensures
        week_order(t).len() == t.cumulative.dom().len(),
        forall|i: int|
            0 <= i < week_order(t).len() ==> t.cumulative.contains_key(#[trigger] week_order(t)[i]),
        forall|week: u32| t.cumulative.contains_key(week) ==> week_order(t).contains(week),
        forall|i: int, j: int|
            0 <= i < j < week_order(t).len() ==> #[trigger] week_order(t)[i]
                < #[trigger] week_order(t)[j],
{
    broadcast use vstd::seq_lib::group_to_multiset_ensures;
    broadcast use vstd::multiset::group_multiset_axioms;

    let dom = t.cumulative.dom();
    let listed = dom.to_seq();
    let order = week_order(t);
    lemma_week_leq_total();
    lemma_to_seq_distinct(dom);
    listed.lemma_sort_by_ensures(week_leq());
    listed.lemma_multiset_has_no_duplicates();
    order.lemma_multiset_has_no_duplicates_conv();
    listed.unique_seq_to_set();
    vstd::seq_lib::to_multiset_len(listed);
    vstd::seq_lib::to_multiset_len(order);
    assert forall|i: int| 0 <= i < order.len() implies t.cumulative.contains_key(
        #[trigger] order[i],
    ) by {
        assert(order.to_multiset().contains(order[i]));
        assert(listed.contains(order[i]));
        assert(listed.to_set().contains(order[i]));
    }
    assert forall|week: u32| t.cumulative.contains_key(week) implies order.contains(week) by {
        assert(listed.to_set().contains(week));
        assert(listed.contains(week));
        assert(listed.to_multiset().contains(week));
    }
    assert forall|i: int, j: int| 0 <= i < j < order.len() implies #[trigger] order[i]
        < #[trigger] order[j] by {
        assert(week_leq()(order[i], order[j]));
    }
}

/// The weeks of the stored timeline that have cumulative counts, ascending.
pub fn weeks_in_order(commits: &Commits) -> (weeks: Vec<u32>)
    ensures
        weeks@ == week_order(commits@),
{
    broadcast use vstd::std_specs::hash::group_hash_axioms;

    let mut found: Vec<u32> = Vec::new();
    let mut keys: Vec<i64> = Vec::new();
    for week in it: commits.sum_commits.keys()
        invariant
            found.len() == it.index(),
            keys.len() == it.index(),
            forall|j: int| 0 <= j < it.index() ==> found[j] == *it.seq()[j],
            forall|j: int| 0 <= j < it.index() ==> keys[j] == found[j],
    {
        found.push(*week);
        keys.push(*week as i64);
    }
    let order = stable_positions(&keys);
    proof {
        lemma_stable_order(key_values(keys@));
    }
    let mut weeks: Vec<u32> = Vec::new();
    let mut k: usize = 0;
    while k < order.len()
        invariant
            k <= order.len(),
            order.len() == found.len(),
            weeks.len() == k,
            position_values(order@) == stable_order(key_values(keys@)),
            forall|j: int|
                0 <= j < order.len() ==> 0 <= #[trigger] stable_order(key_values(keys@))[j]
                    < found.len(),
            forall|j: int| 0 <= j < k ==> weeks[j] == found[stable_order(key_values(keys@))[j]],
        decreases order.len() - k,
    {
        assert(position_values(order@)[k as int] == order[k as int]);
        weeks.push(found[order[k]]);
        k = k + 1;
    }
    proof {
        let o = stable_order(key_values(keys@));
        assert(weeks@ =~= arranged(found@, o));
        assert(found@.no_duplicates());
        let listed = spec_keys_iter(&commits.sum_commits).remaining();
        assert(found@ =~= listed.unref());
        assert(commits@.cumulative.dom() =~= commits.sum_commits@.dom());
        assert(found@.to_set() =~= commits@.cumulative.dom());
        assert forall|i: int, j: int| 0 <= i < j < weeks.len() implies #[trigger] weeks[i]
            < #[trigger] weeks[j] by {
            assert(key_values(keys@)[o[i]] == found[o[i]]);
            assert(key_values(keys@)[o[j]] == found[o[j]]);
            assert(o[i] != o[j]);
        }
        assert(weeks@.to_set() =~= found@.to_set()) by {
            assert forall|w: u32| weeks@.contains(w) implies found@.contains(w) by {
                let i = choose|i: int| 0 <= i < weeks.len() && weeks[i] == w;
                assert(found[o[i]] == w);
            }
            assert forall|w: u32| found@.contains(w) implies weeks@.contains(w) by {
                let p = choose|p: int| 0 <= p < found.len() && found[p] == w;
                assert(o.contains(p));
                let i = choose|i: int| 0 <= i < o.len() && o[i] == p;
                assert(weeks[i] == w);
            }
        }
        assert(sorted_by(weeks@, week_leq()));
        lemma_week_order_unique(commits@, weeks@);
    }
    weeks
}

/// The week that a tick stands for, with its cumulative counts.
pub fn get_week_on_tick(commits: &Commits, tick_count: u32, total_ticks: u32) -> (result: Result<
    (&SumWeeklyCommits, u32),
    SampleError,
>)
    ensures
        match result {
            Ok((sum, week)) => {
                &&& total_ticks > 0
                &&& week_order(commits@).len() > 0
                &&& week == sampled_week(commits@, tick_count as nat, total_ticks as nat)
                &&& commits@.cumulative.contains_key(week)
                &&& sum.authors@ == commits@.cumulative[week]
            },
            Err(SampleError::Configuration) => total_ticks == 0,
            Err(SampleError::EmptyTimeline) => total_ticks > 0 && week_order(commits@).len() == 0,
        },
{
    broadcast use vstd::std_specs::hash::group_hash_axioms;

    if total_ticks == 0 {
        return Err(SampleError::Configuration);
    }
    let weeks = weeks_in_order(commits);
    if weeks.len() == 0 {
        return Err(SampleError::EmptyTimeline);
    }
    let span: u64 = weeks_per_tick(commits.total_weeks, total_ticks) as u64;
    assert(tick_count * span <= u64::MAX) by (nonlinear_arith)
        requires
            tick_count <= u32::MAX,
            span <= u32::MAX,
    ;
    let index: u64 = tick_count as u64 * span;
    let at: usize = if index >= weeks.len() as u64 {
        weeks.len() - 1
    } else {
        index as usize
    };
    let week: u32 = weeks[at];
    proof {
        assert(commits@.cumulative.dom() =~= commits.sum_commits@.dom());
        lemma_week_order(commits@);
        assert(commits@.cumulative.contains_key(week_order(commits@)[at as int]));
    }
    let sum = commits.sum_commits.get(&week).unwrap();
    Ok((sum, week))
}

/// The authors of a week by descending cumulative count; authors with equal
/// counts in the order in which they entered the tally.
pub fn get_sorted_authors(sum_weekly_commits: &SumWeeklyCommits) -> (ranked: Vec<(String, u32)>)
    ensures
        pairs(ranked@) == ranking(sum_weekly_commits.authors@),
        forall|i: int, j: int| 0 <= i < j < ranked.len() ==> ranked[i].1 >= ranked[j].1,
{
    let entries = sum_weekly_commits.authors.entries();
    let mut keys: Vec<i64> = Vec::new();
    let mut i: usize = 0;
    while i < entries.len()
        invariant
            i <= entries.len(),
            keys.len() == i,
            forall|j: int| 0 <= j < i ==> keys[j] == -(entries[j].1 as int),
        decreases entries.len() - i,
    {
        keys.push(-(entries[i].1 as i64));
        i = i + 1;
    }
    let ghost listed = sum_weekly_commits.authors@.entries();
    assert(listed.len() == entries.len()) by {
        assert(pairs(entries@).len() == entries.len());
    }
    assert(key_values(keys@) =~= descending(listed)) by {
        assert forall|j: int| 0 <= j < keys.len() implies key_values(keys@)[j] == descending(
            listed,
        )[j] by {
            assert(pairs(entries@)[j] == listed[j]);
        }
    }
    let order = stable_positions(&keys);
    let ghost o = stable_order(descending(listed));
    proof {
        lemma_stable_order(descending(listed));
    }
    let mut ranked: Vec<(String, u32)> = Vec::new();
    let mut k: usize = 0;
    while k < order.len()
        invariant
            k <= order.len(),
            order.len() == entries.len(),
            ranked.len() == k,
            position_values(order@) == o,
            forall|j: int| 0 <= j < order.len() ==> 0 <= #[trigger] o[j] < entries.len(),
            forall|j: int|
                0 <= j < k ==> (#[trigger] ranked[j]).0@ == entries[o[j]].0@ && ranked[j].1
                    == entries[o[j]].1,
        decreases order.len() - k,
    {
        assert(position_values(order@)[k as int] == order[k as int]);
        let name: String = entries[order[k]].0.clone();
        let commits: u32 = entries[order[k]].1;
        ranked.push((name, commits));
        k = k + 1;
    }
    proof {
        assert(pairs(ranked@) =~= ranking(sum_weekly_commits.authors@)) by {
            assert forall|j: int| 0 <= j < ranked.len() implies pairs(ranked@)[j] == ranking(
                sum_weekly_commits.authors@,
            )[j] by {
                assert(pairs(entries@)[o[j]] == listed[o[j]]);
            }
        }
        assert forall|i: int, j: int| 0 <= i < j < ranked.len() implies ranked[i].1
            >= ranked[j].1 by {
            assert(descending(listed)[o[i]] <= descending(listed)[o[j]]);
            assert(pairs(entries@)[o[i]] == listed[o[i]]);
            assert(pairs(entries@)[o[j]] == listed[o[j]]);
        }
    }
    ranked
}

/// The outcome of sampling as plain values.
pub open spec fn outcome(result: Result<(u32, Vec<(String, u32)>), SampleError>) -> Result<
    (u32, Seq<(Seq<char>, nat)>),
    SampleError,
> {
    match result {
        Ok(sample) => Ok(frame(sample)),
        Err(error) => Err(error),
    }
}

/// The week that a tick stands for and the leaderboard of that week.
///
/// The answer depends on the timeline, the tick and the number of ticks
/// alone. The leaderboard descends by cumulative count.
pub fn sample(timeline: &Commits, tick: u32, total_ticks: u32) -> (result: Result<
    (u32, Vec<(String, u32)>),
    SampleError,
>)
    ensures
        outcome(result) == sampled(timeline@, tick as nat, total_ticks as nat),
        result matches Ok(found) ==> forall|i: int, j: int|
            0 <= i < j < found.1.len() ==> found.1[i].1 >= found.1[j].1,
{
    match get_week_on_tick(timeline, tick, total_ticks) {
        Ok((sum, week)) => Ok((week, get_sorted_authors(sum))),
        Err(error) => Err(error),
    }
}

/// A leaderboard holds every author of the tally with its count, once; it
/// descends by count; and authors with equal counts stand in the order in
/// which they entered the tally.
pub proof fn lemma_ranking_descends(tally: Tally)
    ensures
        ranking(tally).len() == tally.order.len(),
        ranking(tally).to_multiset() == tally.entries().to_multiset(),
        forall|i: int, j: int|
            0 <= i < j < ranking(tally).len() ==> (#[trigger] ranking(tally)[i]).1
                >= (#[trigger] ranking(tally)[j]).1,
        forall|i: int, j: int|
            0 <= i < j < ranking(tally).len() && (#[trigger] ranking(tally)[i]).1
                == (#[trigger] ranking(tally)[j]).1 ==> stable_order(
                descending(tally.entries()),
            )[i] < stable_order(descending(tally.entries()))[j],
{
    let listed = tally.entries();
    lemma_stable_order(descending(listed));
    crate::arrangement::lemma_arranged_permutes(listed, descending(listed));
}

/// Sampling has one answer: two outcomes for the same timeline, tick and
/// number of ticks are the same outcome.
pub proof fn lemma_sampling_is_a_function(
    t: Timeline,
    tick: nat,
    total_ticks: nat,
    first: Result<(u32, Vec<(String, u32)>), SampleError>,
    second: Result<(u32, Vec<(String, u32)>), SampleError>,
)
    requires
        outcome(first) == sampled(t, tick, total_ticks),
        outcome(second) == sampled(t, tick, total_ticks),
    ensures
        outcome(first) == outcome(second),
        first is Ok ==> second is Ok && first->Ok_0.0 == second->Ok_0.0 && pairs(first->Ok_0.1@)
            == pairs(second->Ok_0.1@),
        first matches Err(error) ==> second == Err::<(u32, Vec<(String, u32)>), SampleError>(
            error,
        ),
{
}

/// Once the last tick reaches the last week, every later tick shows what the
/// last tick shows.
pub proof fn lemma_holds_after_last_tick(t: Timeline, tick: nat, total_ticks: nat)
    requires
        total_ticks > 0,
        tick >= total_ticks,
        weeks_per_tick_of(t.total_weeks, total_ticks) == 0 || week_order(t).len() <= total_ticks
            * weeks_per_tick_of(t.total_weeks, total_ticks) + 1,
    ensures
        sampled(t, tick, total_ticks) == sampled(t, total_ticks, total_ticks),
{
    let span = weeks_per_tick_of(t.total_weeks, total_ticks);
    assert(tick * span >= total_ticks * span) by (nonlinear_arith)
        requires
            tick >= total_ticks,
            span >= 0,
    ;
    if span == 0 {
        assert(tick * span == 0 && total_ticks * span == 0) by (nonlinear_arith)
            requires
                span == 0,
        ;
    }
}

/// Where the timeline counts all the weeks that it holds, every tick past
/// the last shows what the last tick shows.
pub proof fn lemma_counted_weeks_hold(t: Timeline, tick: nat, total_ticks: nat)
    requires
        total_ticks > 0,
        tick >= total_ticks,
        week_order(t).len() <= t.total_weeks,
    ensures
        sampled(t, tick, total_ticks) == sampled(t, total_ticks, total_ticks),
{
    lemma_ticks_span_total_weeks(t.total_weeks, total_ticks);
    lemma_holds_after_last_tick(t, tick, total_ticks);
}

/// The ticks of a race span at least the weeks that the timeline counts: the
/// last tick points at or past `total_weeks`.
pub proof fn lemma_ticks_span_total_weeks(total_weeks: nat, total_ticks: nat)
    requires
        total_ticks > 0,
    ensures
        total_ticks * weeks_per_tick_of(total_weeks, total_ticks) >= total_weeks,
        total_ticks * weeks_per_tick_of(total_weeks, total_ticks) < total_weeks + total_ticks,
{
    let whole = total_weeks / total_ticks;
    let rest = total_weeks % total_ticks;
    assert(total_weeks == total_ticks * whole + rest) by {
        vstd::arithmetic::div_mod::lemma_fundamental_div_mod(
            total_weeks as int,
            total_ticks as int,
        );
    }
    assert(total_ticks * (whole + 1) == total_ticks * whole + total_ticks) by (nonlinear_arith);
}

} // verus!
