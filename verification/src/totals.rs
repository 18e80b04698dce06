//! What holds of the counts in an aggregated timeline.

use crate::arrangement::{lemma_arranged_permutes, lemma_stable_order, stable_order};
use crate::author_counts::{lemma_accumulate_wf, lemma_record_wf, Tally};
use crate::contributors::{Record, Week};
use crate::timeline::{
    add_record, add_week, add_weeks, aggregate, aggregate_first, count_at, has_count,
    running_total, sorted_weeks, tally_at, week_starts, with_bounds, Timeline,
};
use vstd::prelude::*;

verus! {

/// Adds the commits of one week to a sum.
pub open spec fn plus_commits() -> spec_fn(nat, Week) -> nat {
    |sum: nat, week: Week| sum + week.c as nat
}

/// The commits of all `weeks` together.
pub open spec fn total_commits(weeks: Seq<Week>) -> nat {
    weeks.fold_left(0nat, plus_commits())
}

/// `author` has the same counts in `a` and in `b`.
pub open spec fn same_counts(a: Map<u32, Tally>, b: Map<u32, Tally>, author: Seq<char>) -> bool {
    forall|week: u32|
        has_count(a, week, author) == #[trigger] has_count(b, week, author) && (has_count(
            b,
            week,
            author,
        ) ==> count_at(a, week, author) == count_at(b, week, author))
}

/// `author` is the author of one of the first `n` contributors.
pub open spec fn among(records: Seq<Record>, n: nat, author: Seq<char>) -> bool {
    exists|j: int| 0 <= j < n && (#[trigger] records[j]).author == author
}

/// `author` has no count in any week.
pub open spec fn no_counts(tallies: Map<u32, Tally>, author: Seq<char>) -> bool {
    forall|week: u32| !#[trigger] has_count(tallies, week, author)
}

/// The two maps of a timeline agree: they cover the same weeks, finitely
/// many, and in each week list the same authors in the same order, each
/// author once and with a count.
pub open spec fn consistent(t: Timeline) -> bool {
    &&& t.weekly.dom().finite()
    &&& t.weekly.dom() == t.cumulative.dom()
    &&& forall|week: u32| #[trigger]
        t.weekly.contains_key(week) ==> {
            &&& t.weekly[week].wf()
            &&& t.cumulative[week].wf()
            &&& t.weekly[week].order == t.cumulative[week].order
        }
}

/// Entering a week for one author leaves the counts of every other author.
pub proof fn lemma_add_week_keeps_others(
    t: Timeline,
    author: Seq<char>,
    weeks: Seq<Week>,
    i: int,
    other: Seq<char>,
)
    requires
        other != author,
    ensures
        same_counts(t.weekly, add_week(t, author, weeks, i).weekly, other),
        same_counts(t.cumulative, add_week(t, author, weeks, i).cumulative, other),
{
}

/// Entering weeks for one author leaves the counts of every other author.
pub proof fn lemma_add_weeks_keeps_others(
    t: Timeline,
    author: Seq<char>,
    weeks: Seq<Week>,
    n: nat,
    other: Seq<char>,
)
    requires
        other != author,
    ensures
        same_counts(t.weekly, add_weeks(t, author, weeks, n).weekly, other),
        same_counts(t.cumulative, add_weeks(t, author, weeks, n).cumulative, other),
    decreases n,
{
    if n > 0 {
        let before = add_weeks(t, author, weeks, (n - 1) as nat);
        lemma_add_weeks_keeps_others(t, author, weeks, (n - 1) as nat, other);
        lemma_add_week_keeps_others(before, author, weeks, n - 1, other);
    }
}

/// Entering weeks for one author gives a count to no other author.
pub proof fn lemma_add_weeks_counts_author(
    t: Timeline,
    author: Seq<char>,
    weeks: Seq<Week>,
    n: nat,
)
    ensures
        forall|week: u32, other: Seq<char>| #[trigger]
            has_count(add_weeks(t, author, weeks, n).weekly, week, other) ==> other == author
                || has_count(t.weekly, week, other),
        forall|week: u32, other: Seq<char>| #[trigger]
            has_count(add_weeks(t, author, weeks, n).cumulative, week, other) ==> other == author
                || has_count(t.cumulative, week, other),
    decreases n,
{
    if n > 0 {
        let before = add_weeks(t, author, weeks, (n - 1) as nat);
        let after = add_weeks(t, author, weeks, n);
        lemma_add_weeks_counts_author(t, author, weeks, (n - 1) as nat);
        assert(after == add_week(before, author, weeks, n - 1));
        assert forall|week: u32, other: Seq<char>| #[trigger]
            has_count(after.weekly, week, other) implies other == author || has_count(
            t.weekly,
            week,
            other,
        ) by {
            if other != author {
                assert(has_count(before.weekly, week, other));
            }
        }
        assert forall|week: u32, other: Seq<char>| #[trigger]
            has_count(after.cumulative, week, other) implies other == author || has_count(
            t.cumulative,
            week,
            other,
        ) by {
            if other != author {
                assert(has_count(before.cumulative, week, other));
            }
        }
    }
}

/// Whoever has a count in the timeline of the first `n` contributors is not
/// excluded and is the author of one of them.
pub proof fn lemma_counted_authors(records: Seq<Record>, blacklist: Set<Seq<char>>, n: nat)
    requires
        n <= records.len(),
    ensures
        forall|week: u32, author: Seq<char>| #[trigger]
            has_count(aggregate_first(records, blacklist, n).weekly, week, author)
                ==> !blacklist.contains(author) && among(records, n, author),
        forall|week: u32, author: Seq<char>| #[trigger]
            has_count(aggregate_first(records, blacklist, n).cumulative, week, author)
                ==> !blacklist.contains(author) && among(records, n, author),
    decreases n,
{
    if n > 0 {
        let before = aggregate_first(records, blacklist, (n - 1) as nat);
        let after = aggregate_first(records, blacklist, n);
        let record = records[n - 1];
        lemma_counted_authors(records, blacklist, (n - 1) as nat);
        let weeks = sorted_weeks(record.weeks);
        if !blacklist.contains(record.author) {
            lemma_add_weeks_counts_author(
                with_bounds(before, weeks),
                record.author,
                weeks,
                weeks.len(),
            );
        }
        assert forall|week: u32, author: Seq<char>| #[trigger]
            has_count(after.weekly, week, author) implies !blacklist.contains(author) && among(
            records,
            n,
            author,
        ) by {
            if has_count(before.weekly, week, author) {
                let j = choose|j: int|
                    0 <= j < n - 1 && (#[trigger] records[j]).author == author;
                assert(records[j].author == author);
            } else {
                assert(records[n - 1].author == author);
            }
        }
        assert forall|week: u32, author: Seq<char>| #[trigger]
            has_count(after.cumulative, week, author) implies !blacklist.contains(author)
            && among(records, n, author) by {
            if has_count(before.cumulative, week, author) {
                let j = choose|j: int|
                    0 <= j < n - 1 && (#[trigger] records[j]).author == author;
                assert(records[j].author == author);
            } else {
                assert(records[n - 1].author == author);
            }
        }
    }
}

/// Entering a week keeps the two maps of a timeline in agreement.
pub proof fn lemma_add_week_consistent(t: Timeline, author: Seq<char>, weeks: Seq<Week>, i: int)
    requires
        consistent(t),
    ensures
        consistent(add_week(t, author, weeks, i)),
{
    let week = weeks[i].w;
    let next = add_week(t, author, weeks, i);
    let weekly = tally_at(t.weekly, week);
    let cumulative = tally_at(t.cumulative, week);
    assert(t.weekly.contains_key(week) == t.cumulative.contains_key(week));
    assert(weekly.wf() && cumulative.wf() && weekly.order == cumulative.order) by {
        if t.weekly.contains_key(week) {
        }
    }
    assert(weekly.count.contains_key(author) == cumulative.count.contains_key(author)) by {
        assert(weekly.order.contains(author) == cumulative.order.contains(author));
    }
    lemma_record_wf(weekly, author, weeks[i].c as nat);
    lemma_accumulate_wf(cumulative, author, running_total(t, author, weeks, i));
    assert(next.weekly.dom() =~= t.weekly.dom().insert(week));
    assert(next.cumulative.dom() =~= t.cumulative.dom().insert(week));
    assert forall|w: u32| #[trigger] next.weekly.contains_key(w) implies next.weekly[w].wf()
        && next.cumulative[w].wf() && next.weekly[w].order == next.cumulative[w].order by {
        if w != week {
            assert(t.weekly.contains_key(w));
        }
    }
}

/// Entering weeks keeps the two maps of a timeline in agreement.
pub proof fn lemma_add_weeks_consistent(t: Timeline, author: Seq<char>, weeks: Seq<Week>, n: nat)
    requires
        consistent(t),
    ensures
        consistent(add_weeks(t, author, weeks, n)),
    decreases n,
{
    if n > 0 {
        lemma_add_weeks_consistent(t, author, weeks, (n - 1) as nat);
        let before = add_weeks(t, author, weeks, (n - 1) as nat);
        lemma_add_week_consistent(before, author, weeks, n - 1);
    }
}

/// In the timeline of a feed, every week with weekly counts has cumulative
/// counts and the other way round, and both list the same authors, each once.
pub proof fn lemma_aggregate_consistent(records: Seq<Record>, blacklist: Set<Seq<char>>, n: nat)
    ensures
        consistent(aggregate_first(records, blacklist, n)),
    decreases n,
{
    if n > 0 {
        let before = aggregate_first(records, blacklist, (n - 1) as nat);
        let record = records[n - 1];
        lemma_aggregate_consistent(records, blacklist, (n - 1) as nat);
        if !blacklist.contains(record.author) {
            let weeks = sorted_weeks(record.weeks);
            assert(consistent(with_bounds(before, weeks)));
            lemma_add_weeks_consistent(
                with_bounds(before, weeks),
                record.author,
                weeks,
                weeks.len(),
            );
        }
    } else {
        assert(Timeline::empty().weekly.dom() =~= Set::empty());
    }
}

/// An excluded author appears nowhere in the timeline: it has no weekly
/// count, no cumulative count, and no place in the order of any week.
pub proof fn lemma_excluded_authors_absent(
    records: Seq<Record>,
    blacklist: Set<Seq<char>>,
    author: Seq<char>,
    week: u32,
)
    requires
        blacklist.contains(author),
    ensures
        !has_count(aggregate(records, blacklist).weekly, week, author),
        !has_count(aggregate(records, blacklist).cumulative, week, author),
        aggregate(records, blacklist).weekly.contains_key(week) ==> !aggregate(
            records,
            blacklist,
        ).weekly[week].order.contains(author),
        aggregate(records, blacklist).cumulative.contains_key(week) ==> !aggregate(
            records,
            blacklist,
        ).cumulative[week].order.contains(author),
{
    let t = aggregate(records, blacklist);
    lemma_counted_authors(records, blacklist, records.len());
    lemma_aggregate_consistent(records, blacklist, records.len());
    assert(t == aggregate_first(records, blacklist, records.len()));
    if has_count(t.weekly, week, author) {
        assert(!blacklist.contains(author));
    }
    if has_count(t.cumulative, week, author) {
        assert(!blacklist.contains(author));
    }
    if t.cumulative.contains_key(week) {
        assert(t.weekly.contains_key(week));
    }
}

/// The week starts do not descend.
pub open spec fn ascending(weeks: Seq<Week>) -> bool {
    forall|x: int, y: int|
        0 <= x <= y < weeks.len() ==> (#[trigger] weeks[x]).w <= (#[trigger] weeks[y]).w
}

/// The week starts ascend, none twice.
pub open spec fn strictly_ascending(weeks: Seq<Week>) -> bool {
    forall|x: int, y: int|
        0 <= x < y < weeks.len() ==> (#[trigger] weeks[x]).w < (#[trigger] weeks[y]).w
}

/// Sorted weeks are as many as given, ascend, and ascend strictly where no
/// week start was given twice.
pub proof fn lemma_sorted_weeks_ascend(weeks: Seq<Week>)
    ensures
        sorted_weeks(weeks).len() == weeks.len(),
        sorted_weeks(weeks).to_multiset() == weeks.to_multiset(),
        ascending(sorted_weeks(weeks)),
        week_starts(weeks).no_duplicates() ==> strictly_ascending(sorted_weeks(weeks)),
{
    let keys = week_starts(weeks);
    let o = stable_order(keys);
    let sorted = sorted_weeks(weeks);
    lemma_stable_order(keys);
    lemma_arranged_permutes(weeks, keys);
    assert forall|x: int, y: int| 0 <= x <= y < sorted.len() implies (#[trigger] sorted[x]).w <= (
    #[trigger] sorted[y]).w by {
        assert(keys[o[x]] == weeks[o[x]].w);
        assert(keys[o[y]] == weeks[o[y]].w);
        if x < y {
            assert(keys[o[x]] <= keys[o[y]]);
        }
    }
    if keys.no_duplicates() {
        assert forall|x: int, y: int| 0 <= x < y < sorted.len() implies (#[trigger] sorted[x]).w < (
        #[trigger] sorted[y]).w by {
            assert(keys[o[x]] == weeks[o[x]].w);
            assert(keys[o[y]] == weeks[o[y]].w);
            assert(keys[o[x]] <= keys[o[y]]);
            assert(o[x] != o[y]);
        }
    }
}

/// What the cumulative counts of an author are once the first `n` of its
/// ascending weeks are entered into a timeline that had no count for it.
pub proof fn lemma_entered_weeks(t: Timeline, author: Seq<char>, weeks: Seq<Week>, n: nat)
    requires
        no_counts(t.cumulative, author),
        ascending(weeks),
        n <= weeks.len(),
    ensures
        forall|x: int|
            0 <= x < n ==> has_count(
                add_weeks(t, author, weeks, n).cumulative,
                (#[trigger] weeks[x]).w,
                author,
            ),
        forall|x: int, y: int|
            0 <= x <= y < n ==> count_at(
                add_weeks(t, author, weeks, n).cumulative,
                (#[trigger] weeks[x]).w,
                author,
            ) <= count_at(
                add_weeks(t, author, weeks, n).cumulative,
                (#[trigger] weeks[y]).w,
                author,
            ),
        forall|week: u32| #[trigger]
            has_count(add_weeks(t, author, weeks, n).cumulative, week, author) ==> exists|x: int|
                0 <= x < n && (#[trigger] weeks[x]).w == week,
        strictly_ascending(weeks) ==> forall|x: int|
            0 <= x < n ==> count_at(
                add_weeks(t, author, weeks, n).cumulative,
                (#[trigger] weeks[x]).w,
                author,
            ) == total_commits(weeks.take(x + 1)),
    decreases n,
{
    if n > 0 {
        let i = (n - 1) as int;
        let before = add_weeks(t, author, weeks, i as nat);
        let after = add_weeks(t, author, weeks, n);
        let week = weeks[i].w;
        let running = running_total(before, author, weeks, i);
        let cell = tally_at(before.cumulative, week);
        let raised = cell.raised(author, running);
        lemma_entered_weeks(t, author, weeks, i as nat);
        assert(after == add_week(before, author, weeks, i));
        assert(has_count(after.cumulative, week, author));
        assert(count_at(after.cumulative, week, author) == raised);
        assert(raised >= running);
        assert(has_count(before.cumulative, week, author) ==> raised >= count_at(
            before.cumulative,
            week,
            author,
        ));
        assert forall|w: u32| w != week implies has_count(after.cumulative, w, author)
            == has_count(before.cumulative, w, author) && count_at(after.cumulative, w, author)
            == count_at(before.cumulative, w, author) by {}
        if i > 0 {
            assert(weeks[i - 1].w <= weeks[i].w);
            assert(running >= count_at(before.cumulative, weeks[i - 1].w, author));
        }
        assert forall|x: int| 0 <= x < n implies has_count(
            after.cumulative,
            (#[trigger] weeks[x]).w,
            author,
        ) by {
            if x < i && weeks[x].w != week {
                assert(has_count(before.cumulative, weeks[x].w, author));
            }
        }
        assert forall|x: int, y: int| 0 <= x <= y < n implies count_at(
            after.cumulative,
            (#[trigger] weeks[x]).w,
            author,
        ) <= count_at(after.cumulative, (#[trigger] weeks[y]).w, author) by {
            let wx = weeks[x].w;
            let wy = weeks[y].w;
            assert(wx <= wy);
            assert(wy <= weeks[i].w);
            if y < i {
                assert(count_at(before.cumulative, wx, author) <= count_at(
                    before.cumulative,
                    wy,
                    author,
                ));
                if wy == week {
                    assert(has_count(before.cumulative, wy, author));
                }
            } else if x < i {
                if wx != week {
                    assert(count_at(before.cumulative, wx, author) <= count_at(
                        before.cumulative,
                        weeks[i - 1].w,
                        author,
                    ));
                }
            }
        }
        assert forall|w: u32| #[trigger]
            has_count(after.cumulative, w, author) implies exists|x: int|
            0 <= x < n && (#[trigger] weeks[x]).w == w by {
            if w == week {
                assert(weeks[i].w == w);
            } else {
                assert(has_count(before.cumulative, w, author));
                let x = choose|x: int| 0 <= x < i && (#[trigger] weeks[x]).w == w;
                assert(weeks[x].w == w);
            }
        }
        if strictly_ascending(weeks) {
            assert(!has_count(before.cumulative, week, author)) by {
                if has_count(before.cumulative, week, author) {
                    let x = choose|x: int| 0 <= x < i && (#[trigger] weeks[x]).w == week;
                    assert(weeks[x].w < weeks[i].w);
                }
            }
            assert(raised == running);
            assert(weeks.take(i + 1).drop_last() =~= weeks.take(i));
            assert(weeks.take(i + 1).last() == weeks[i]);
            assert(total_commits(weeks.take(i + 1)) == total_commits(weeks.take(i)) + weeks[i].c);
            if i > 0 {
                assert(count_at(before.cumulative, weeks[i - 1].w, author) == total_commits(
                    weeks.take(i),
                ));
            } else {
                assert(weeks.take(0) =~= Seq::<Week>::empty());
                assert(total_commits(weeks.take(0)) == 0);
            }
            assert forall|x: int| 0 <= x < n implies count_at(
                after.cumulative,
                (#[trigger] weeks[x]).w,
                author,
            ) == total_commits(weeks.take(x + 1)) by {
                if x < i {
                    assert(weeks[x].w < weeks[i].w);
                }
            }
        }
    }
}

/// Contributors of other authors, taken in later, leave an author's counts.
pub proof fn lemma_later_records_keep_counts(
    records: Seq<Record>,
    blacklist: Set<Seq<char>>,
    k: nat,
    n: nat,
    author: Seq<char>,
)
    requires
        k <= n <= records.len(),
        forall|m: int| k <= m < n ==> (#[trigger] records[m]).author != author,
    ensures
        same_counts(
            aggregate_first(records, blacklist, k).weekly,
            aggregate_first(records, blacklist, n).weekly,
            author,
        ),
        same_counts(
            aggregate_first(records, blacklist, k).cumulative,
            aggregate_first(records, blacklist, n).cumulative,
            author,
        ),
    decreases n,
{
    if k < n {
        let first = aggregate_first(records, blacklist, k);
        let before = aggregate_first(records, blacklist, (n - 1) as nat);
        let after = aggregate_first(records, blacklist, n);
        let record = records[n - 1];
        lemma_later_records_keep_counts(records, blacklist, k, (n - 1) as nat, author);
        if !blacklist.contains(record.author) {
            let weeks = sorted_weeks(record.weeks);
            lemma_add_weeks_keeps_others(
                with_bounds(before, weeks),
                record.author,
                weeks,
                weeks.len(),
                author,
            );
        }
        assert forall|week: u32|
            has_count(first.weekly, week, author) == #[trigger] has_count(
                after.weekly,
                week,
                author,
            ) && (has_count(after.weekly, week, author) ==> count_at(first.weekly, week, author)
                == count_at(after.weekly, week, author)) by {
            assert(has_count(first.weekly, week, author) == has_count(
                before.weekly,
                week,
                author,
            ));
        }
        assert forall|week: u32|
            has_count(first.cumulative, week, author) == #[trigger] has_count(
                after.cumulative,
                week,
                author,
            ) && (has_count(after.cumulative, week, author) ==> count_at(
                first.cumulative,
                week,
                author,
            ) == count_at(after.cumulative, week, author)) by {
            assert(has_count(first.cumulative, week, author) == has_count(
                before.cumulative,
                week,
                author,
            ));
        }
    }
}

/// The author of contributor `k` is the author of no other contributor.
pub open spec fn sole_record(records: Seq<Record>, k: int) -> bool {
    forall|m: int|
        0 <= m < records.len() && m != k ==> (#[trigger] records[m]).author != records[k].author
}

/// The cumulative counts of an author in the timeline of the whole feed are
/// those that stand once the author's own contributor is taken in.
proof fn lemma_own_record_decides(records: Seq<Record>, blacklist: Set<Seq<char>>, k: int)
    requires
        0 <= k < records.len(),
        !blacklist.contains(records[k].author),
        sole_record(records, k),
    ensures
        no_counts(aggregate_first(records, blacklist, k as nat).cumulative, records[k].author),
        same_counts(
            add_weeks(
                aggregate_first(records, blacklist, k as nat),
                records[k].author,
                sorted_weeks(records[k].weeks),
                records[k].weeks.len(),
            ).cumulative,
            aggregate(records, blacklist).cumulative,
            records[k].author,
        ),
{
    let author = records[k].author;
    let before = aggregate_first(records, blacklist, k as nat);
    let weeks = sorted_weeks(records[k].weeks);
    lemma_sorted_weeks_ascend(records[k].weeks);
    lemma_counted_authors(records, blacklist, k as nat);
    assert forall|week: u32| !#[trigger] has_count(before.cumulative, week, author) by {
        if has_count(before.cumulative, week, author) {
            let j = choose|j: int| 0 <= j < k && (#[trigger] records[j]).author == author;
            assert(records[j].author != records[k].author);
        }
    }
    assert(aggregate_first(records, blacklist, (k + 1) as nat) == add_record(before, records[k]));
    assert(add_weeks(with_bounds(before, weeks), author, weeks, weeks.len()).cumulative
        == add_weeks(before, author, weeks, weeks.len()).cumulative) by {
        lemma_bounds_apart(before, with_bounds(before, weeks), author, weeks, weeks.len());
    }
    lemma_later_records_keep_counts(
        records,
        blacklist,
        (k + 1) as nat,
        records.len(),
        author,
    );
}

/// The bounds of a timeline have no part in what entering weeks does to its
/// counts.
proof fn lemma_bounds_apart(a: Timeline, b: Timeline, author: Seq<char>, weeks: Seq<Week>, n: nat)
    requires
        a.weekly == b.weekly,
        a.cumulative == b.cumulative,
    ensures
        add_weeks(a, author, weeks, n).weekly == add_weeks(b, author, weeks, n).weekly,
        add_weeks(a, author, weeks, n).cumulative == add_weeks(b, author, weeks, n).cumulative,
    decreases n,
{
    if n > 0 {
        lemma_bounds_apart(a, b, author, weeks, (n - 1) as nat);
    }
}

/// Along the ascending weeks of a contributor whose author has no other
/// contributor, the author's cumulative counts never fall.
pub proof fn lemma_cumulative_counts_ascend(
    records: Seq<Record>,
    blacklist: Set<Seq<char>>,
    k: int,
    i: int,
    j: int,
)
    requires
        0 <= k < records.len(),
        !blacklist.contains(records[k].author),
        sole_record(records, k),
        0 <= i <= j < records[k].weeks.len(),
    ensures
        has_count(
            aggregate(records, blacklist).cumulative,
            sorted_weeks(records[k].weeks)[i].w,
            records[k].author,
        ),
        has_count(
            aggregate(records, blacklist).cumulative,
            sorted_weeks(records[k].weeks)[j].w,
            records[k].author,
        ),
        count_at(
            aggregate(records, blacklist).cumulative,
            sorted_weeks(records[k].weeks)[i].w,
            records[k].author,
        ) <= count_at(
            aggregate(records, blacklist).cumulative,
            sorted_weeks(records[k].weeks)[j].w,
            records[k].author,
        ),
{
    let author = records[k].author;
    let before = aggregate_first(records, blacklist, k as nat);
    let weeks = sorted_weeks(records[k].weeks);
    lemma_sorted_weeks_ascend(records[k].weeks);
    lemma_own_record_decides(records, blacklist, k);
    lemma_entered_weeks(before, author, weeks, weeks.len());
    let own = add_weeks(before, author, weeks, weeks.len());
    assert(has_count(own.cumulative, weeks[i].w, author));
    assert(has_count(own.cumulative, weeks[j].w, author));
    assert(count_at(own.cumulative, weeks[i].w, author) <= count_at(
        own.cumulative,
        weeks[j].w,
        author,
    ));
    assert(has_count(aggregate(records, blacklist).cumulative, weeks[i].w, author));
    assert(has_count(aggregate(records, blacklist).cumulative, weeks[j].w, author));
}

/// Adding up commits is the same in any order.
pub proof fn lemma_total_commits_permutes(a: Seq<Week>, b: Seq<Week>)
    requires
        a.to_multiset() == b.to_multiset(),
    ensures
        total_commits(a) == total_commits(b),
{
    let f = plus_commits();
    assert forall|x: Week, y: Week, v: nat| #[trigger] f(f(v, x), y) == f(f(v, y), x) by {}
    vstd::seq_lib::lemma_fold_left_permutation(a, b, f, 0nat);
}

/// Where a contributor's author has no other contributor and no week start
/// comes twice, the author's cumulative count at its last week is the sum of
/// all its weekly counts.
pub proof fn lemma_last_cumulative_count_is_total(
    records: Seq<Record>,
    blacklist: Set<Seq<char>>,
    k: int,
)
    requires
        0 <= k < records.len(),
        !blacklist.contains(records[k].author),
        sole_record(records, k),
        records[k].weeks.len() > 0,
        week_starts(records[k].weeks).no_duplicates(),
    ensures
        has_count(
            aggregate(records, blacklist).cumulative,
            sorted_weeks(records[k].weeks).last().w,
            records[k].author,
        ),
        count_at(
            aggregate(records, blacklist).cumulative,
            sorted_weeks(records[k].weeks).last().w,
            records[k].author,
        ) == total_commits(records[k].weeks),
        forall|i: int|
            0 <= i < records[k].weeks.len() ==> (#[trigger] records[k].weeks[i]).w
                <= sorted_weeks(records[k].weeks).last().w,
{
    broadcast use vstd::seq_lib::group_to_multiset_ensures;

    let author = records[k].author;
    let before = aggregate_first(records, blacklist, k as nat);
    let weeks = sorted_weeks(records[k].weeks);
    let last = weeks.len() - 1;
    lemma_sorted_weeks_ascend(records[k].weeks);
    lemma_own_record_decides(records, blacklist, k);
    lemma_entered_weeks(before, author, weeks, weeks.len());
    let own = add_weeks(before, author, weeks, weeks.len());
    assert(has_count(own.cumulative, weeks[last].w, author));
    assert(count_at(own.cumulative, weeks[last].w, author) == total_commits(weeks.take(last + 1)));
    assert(weeks.take(last + 1) =~= weeks);
    lemma_total_commits_permutes(weeks, records[k].weeks);
    assert(has_count(aggregate(records, blacklist).cumulative, weeks[last].w, author));
    assert forall|i: int| 0 <= i < records[k].weeks.len() implies (
    #[trigger] records[k].weeks[i]).w <= weeks.last().w by {
        let given = records[k].weeks[i];
        assert(records[k].weeks.to_multiset().contains(given));
        assert(weeks.contains(given));
        let x = choose|x: int| 0 <= x < weeks.len() && weeks[x] == given;
        assert(weeks[x].w <= weeks[last].w);
    }
}

/// Where a contributor's author has no other contributor and no week start
/// comes twice, the author's cumulative count of its first week is that
/// week's count, and of every later week the cumulative count of the week
/// before plus the week's own count.
pub proof fn lemma_cumulative_count_steps(
    records: Seq<Record>,
    blacklist: Set<Seq<char>>,
    k: int,
    i: int,
)
    requires
        0 <= k < records.len(),
        !blacklist.contains(records[k].author),
        sole_record(records, k),
        week_starts(records[k].weeks).no_duplicates(),
        0 <= i < records[k].weeks.len(),
    ensures
        count_at(
            aggregate(records, blacklist).cumulative,
            sorted_weeks(records[k].weeks)[i].w,
            records[k].author,
        ) == sorted_weeks(records[k].weeks)[i].c + if i == 0 {
            0
        } else {
            count_at(
                aggregate(records, blacklist).cumulative,
                sorted_weeks(records[k].weeks)[i - 1].w,
                records[k].author,
            )
        },
{
    let author = records[k].author;
    let before = aggregate_first(records, blacklist, k as nat);
    let weeks = sorted_weeks(records[k].weeks);
    lemma_sorted_weeks_ascend(records[k].weeks);
    lemma_own_record_decides(records, blacklist, k);
    lemma_entered_weeks(before, author, weeks, weeks.len());
    let own = add_weeks(before, author, weeks, weeks.len());
    assert(has_count(own.cumulative, weeks[i].w, author));
    assert(count_at(own.cumulative, weeks[i].w, author) == total_commits(weeks.take(i + 1)));
    assert(weeks.take(i + 1).drop_last() =~= weeks.take(i));
    assert(weeks.take(i + 1).last() == weeks[i]);
    assert(total_commits(weeks.take(i + 1)) == total_commits(weeks.take(i)) + weeks[i].c);
    assert(has_count(aggregate(records, blacklist).cumulative, weeks[i].w, author));
    if i == 0 {
        assert(weeks.take(0) =~= Seq::<Week>::empty());
        assert(total_commits(weeks.take(0)) == 0);
    } else {
        assert(has_count(own.cumulative, weeks[i - 1].w, author));
        assert(count_at(own.cumulative, weeks[i - 1].w, author) == total_commits(weeks.take(i)));
        assert(has_count(aggregate(records, blacklist).cumulative, weeks[i - 1].w, author));
    }
}

/// No excluded author has a weekly or a cumulative count in any week.
pub open spec fn excluded_absent(blacklist: Set<Seq<char>>, t: Timeline) -> bool {
    &&& forall|week: u32, author: Seq<char>|
        blacklist.contains(author) ==> !#[trigger] has_count(t.weekly, week, author)
    &&& forall|week: u32, author: Seq<char>|
        blacklist.contains(author) ==> !#[trigger] has_count(t.cumulative, week, author)
}

/// Along the ascending weeks of every contributor whose author is not
/// excluded and has no other contributor, the author's cumulative counts
/// never fall.
pub open spec fn counts_ascend(
    records: Seq<Record>,
    blacklist: Set<Seq<char>>,
    t: Timeline,
) -> bool {
    forall|k: int, i: int, j: int|
        #![trigger sorted_weeks(records[k].weeks)[i], sorted_weeks(records[k].weeks)[j]]
        0 <= k < records.len() && !blacklist.contains(records[k].author) && sole_record(records, k)
            && 0 <= i <= j < records[k].weeks.len() ==> count_at(
            t.cumulative,
            sorted_weeks(records[k].weeks)[i].w,
            records[k].author,
        ) <= count_at(t.cumulative, sorted_weeks(records[k].weeks)[j].w, records[k].author)
}

/// For every contributor whose author is not excluded and has no other
/// contributor, and whose weeks start at different times, the author's
/// cumulative count at its last week is the sum of its weekly counts.
pub open spec fn last_counts_are_totals(
    records: Seq<Record>,
    blacklist: Set<Seq<char>>,
    t: Timeline,
) -> bool {
    forall|k: int|
        0 <= k < records.len() && !blacklist.contains((#[trigger] records[k]).author)
            && sole_record(records, k) && records[k].weeks.len() > 0 && week_starts(
            records[k].weeks,
        ).no_duplicates() ==> count_at(
            t.cumulative,
            sorted_weeks(records[k].weeks).last().w,
            records[k].author,
        ) == total_commits(records[k].weeks)
}

/// What holds of the counts in the timeline of every feed.
pub proof fn lemma_aggregate_counts(records: Seq<Record>, blacklist: Set<Seq<char>>)
    ensures
        consistent(aggregate(records, blacklist)),
        excluded_absent(blacklist, aggregate(records, blacklist)),
        counts_ascend(records, blacklist, aggregate(records, blacklist)),
        last_counts_are_totals(records, blacklist, aggregate(records, blacklist)),
{
    let t = aggregate(records, blacklist);
    lemma_aggregate_consistent(records, blacklist, records.len());
    assert forall|week: u32, author: Seq<char>|
        blacklist.contains(author) implies !#[trigger] has_count(t.weekly, week, author) by {
        lemma_excluded_authors_absent(records, blacklist, author, week);
    }
    assert forall|week: u32, author: Seq<char>|
        blacklist.contains(author) implies !#[trigger] has_count(t.cumulative, week, author) by {
        lemma_excluded_authors_absent(records, blacklist, author, week);
    }
    assert forall|k: int, i: int, j: int|
        #![trigger sorted_weeks(records[k].weeks)[i], sorted_weeks(records[k].weeks)[j]]
        0 <= k < records.len() && !blacklist.contains(records[k].author) && sole_record(records, k)
            && 0 <= i <= j < records[k].weeks.len() implies count_at(
        t.cumulative,
        sorted_weeks(records[k].weeks)[i].w,
        records[k].author,
    ) <= count_at(t.cumulative, sorted_weeks(records[k].weeks)[j].w, records[k].author) by {
        lemma_cumulative_counts_ascend(records, blacklist, k, i, j);
    }
    assert forall|k: int|
        0 <= k < records.len() && !blacklist.contains((#[trigger] records[k]).author)
            && sole_record(records, k) && records[k].weeks.len() > 0 && week_starts(
            records[k].weeks,
        ).no_duplicates() implies count_at(
        t.cumulative,
        sorted_weeks(records[k].weeks).last().w,
        records[k].author,
    ) == total_commits(records[k].weeks) by {
        lemma_last_cumulative_count_is_total(records, blacklist, k);
    }
}

} // verus!
