//! Commit counts by author, in the order in which the authors were first seen.

use vstd::prelude::*;

verus! {

/// A count for each author, and the order in which the authors came.
#[verifier::ext_equal]
pub struct Tally {
    pub order: Seq<Seq<char>>,
    pub count: Map<Seq<char>, nat>,
}

impl Tally {
    /// No author at all.
    pub open spec fn empty() -> Tally {
        Tally { order: Seq::empty(), count: Map::empty() }
    }

    /// Every author with a count is listed once, and no other is listed.
    pub open spec fn wf(self) -> bool {
        &&& self.order.no_duplicates()
        &&& forall|a: Seq<char>| self.order.contains(a) <==> self.count.contains_key(a)
    }

    /// The order after `author` was seen: a new author goes to the end.
    pub open spec fn order_with(self, author: Seq<char>) -> Seq<Seq<char>> {
        if self.count.contains_key(author) {
            self.order
        } else {
            self.order.push(author)
        }
    }

    /// Sets the count of `author`, whatever it was.
    pub open spec fn record(self, author: Seq<char>, commits: nat) -> Tally {
        Tally { order: self.order_with(author), count: self.count.insert(author, commits) }
    }

    /// The count of `author` once `commits` are added to it; an author without
    /// a count starts at zero.
    pub open spec fn raised(self, author: Seq<char>, commits: nat) -> nat {
        if self.count.contains_key(author) {
            self.count[author] + commits
        } else {
            commits
        }
    }

    /// Adds `commits` to the count of `author`.
    pub open spec fn accumulate(self, author: Seq<char>, commits: nat) -> Tally {
        Tally {
            order: self.order_with(author),
            count: self.count.insert(author, self.raised(author, commits)),
        }
    }

    /// The authors with their counts, in the order in which they came.
    pub open spec fn entries(self) -> Seq<(Seq<char>, nat)> {
        Seq::new(self.order.len(), |i: int| (self.order[i], self.count[self.order[i]]))
    }
}

/// Setting a count keeps a tally well formed.
pub proof fn lemma_record_wf(t: Tally, author: Seq<char>, commits: nat)
    requires
        t.wf(),
    ensures
        t.record(author, commits).wf(),
{
    lemma_order_with_wf(t, author);
}

/// Adding to a count keeps a tally well formed.
pub proof fn lemma_accumulate_wf(t: Tally, author: Seq<char>, commits: nat)
    requires
        t.wf(),
    ensures
        t.accumulate(author, commits).wf(),
{
    lemma_order_with_wf(t, author);
}

proof fn lemma_order_with_wf(t: Tally, author: Seq<char>)
    requires
        t.wf(),
    ensures
        t.order_with(author).no_duplicates(),
        forall|a: Seq<char>|
            t.order_with(author).contains(a) <==> (a == author || t.count.contains_key(a)),
{
    let o = t.order_with(author);
    if t.count.contains_key(author) {
        assert(t.order.contains(author));
    } else {
        assert(!t.order.contains(author));
        assert forall|a: Seq<char>| o.contains(a) <==> (a == author || t.count.contains_key(
            a,
        )) by {
            if o.contains(a) {
                let i = choose|i: int| 0 <= i < o.len() && o[i] == a;
                if i < t.order.len() {
                    assert(t.order[i] == a);
                    assert(t.order.contains(a));
                }
            }
            if a == author {
                assert(o[o.len() - 1] == a);
            }
            if t.count.contains_key(a) {
                assert(t.order.contains(a));
                let i = choose|i: int| 0 <= i < t.order.len() && t.order[i] == a;
                assert(o[i] == a);
            }
        }
    }
}

/// The author ids of stored entries, in their order.
pub open spec fn entry_names(entries: Seq<(String, u32)>) -> Seq<Seq<char>> {
    Seq::new(entries.len(), |i: int| entries[i].0@)
}

/// The tally that stored entries stand for.
pub open spec fn tally_of(entries: Seq<(String, u32)>) -> Tally {
    Tally {
        order: entry_names(entries),
        count: Map::new(
            |a: Seq<char>| entry_names(entries).contains(a),
            |a: Seq<char>| entries[entry_names(entries).index_of(a)].1 as nat,
        ),
    }
}

/// Author ids with counts, as plain values.
pub open spec fn pairs(entries: Seq<(String, u32)>) -> Seq<(Seq<char>, nat)> {
    Seq::new(entries.len(), |i: int| (entries[i].0@, entries[i].1 as nat))
}

proof fn lemma_tally_of(entries: Seq<(String, u32)>)
    requires
        entry_names(entries).no_duplicates(),
    ensures
        tally_of(entries).wf(),
        tally_of(entries).entries() == pairs(entries),
        forall|i: int|
            0 <= i < entries.len() ==> #[trigger] tally_of(entries).count[entries[i].0@]
                == entries[i].1 as nat,
{
    let names = entry_names(entries);
    let t = tally_of(entries);
    assert forall|i: int| 0 <= i < entries.len() implies #[trigger] t.count[entries[i].0@]
        == entries[i].1 as nat by {
        assert(names[i] == entries[i].0@);
        assert(names.contains(entries[i].0@));
        let j = names.index_of(entries[i].0@);
        assert(names[j] == names[i]);
    }
    assert(t.entries() =~= pairs(entries));
}

/// Commit counts by author. Authors are kept in the order in which they were
/// first given a count, and each author is held once.
#[derive(Debug)]
pub struct AuthorCounts {
    entries: Vec<(String, u32)>,
}

impl View for AuthorCounts {
    type V = Tally;

    closed spec fn view(&self) -> Tally {
        tally_of(self.entries@)
    }
}

impl AuthorCounts {
    #[verifier::type_invariant]
    spec fn distinct(self) -> bool {
        entry_names(self.entries@).no_duplicates()
    }

    /// Counts for no author.
    pub fn new() -> (counts: AuthorCounts)
        ensures
            counts@ == Tally::empty(),
    {
        let counts = AuthorCounts { entries: Vec::new() };
        assert(counts@.order =~= Seq::empty());
        assert(counts@.count =~= Map::empty());
        counts
    }

    /// The number of authors that have a count.
    pub fn len(&self) -> (n: usize)
        ensures
            n == self@.order.len(),
    {
        self.entries.len()
    }

    /// Whether no author has a count.
    pub fn is_empty(&self) -> (empty: bool)
        ensures
            empty == (self@.order.len() == 0),
    {
        self.entries.len() == 0
    }

    /// Where `author` is held, if it has a count.
    fn position(&self, author: &String) -> (found: Option<usize>)
        ensures
            match found {
                Some(i) => i < self.entries.len() && self.entries[i as int].0@ == author@,
                None => !entry_names(self.entries@).contains(author@),
            },
    {
        let mut i: usize = 0;
        while i < self.entries.len()
            invariant
                i <= self.entries.len(),
                forall|j: int| 0 <= j < i ==> entry_names(self.entries@)[j] != author@,
            decreases self.entries.len() - i,
        {
            if self.entries[i].0 == *author {
                return Some(i);
            }
            i = i + 1;
        }
        None
    }

    /// The count of `author`, if it has one.
    pub fn get(&self, author: &str) -> (found: Option<&u32>)
        ensures
            match found {
                Some(commits) => self@.count.contains_key(author@) && self@.count[author@]
                    == *commits,
                None => !self@.count.contains_key(author@),
            },
    {
        proof {
            use_type_invariant(self);
            lemma_tally_of(self.entries@);
        }
        let key: String = author.to_owned();
        match self.position(&key) {
            Some(i) => {
                assert(entry_names(self.entries@)[i as int] == author@);
                Some(&self.entries[i].1)
            },
            None => None,
        }
    }

    /// Sets the count of `author` to `commits`, whatever it was before.
    pub fn record(&mut self, author: &String, commits: u32)
        ensures
            final(self)@ == old(self)@.record(author@, commits as nat),
    {
        proof {
            use_type_invariant(&*self);
            lemma_tally_of(self.entries@);
        }
        let found = self.position(author);
        let mut entries: Vec<(String, u32)> = Vec::new();
        std::mem::swap(&mut entries, &mut self.entries);
        let ghost before = entries@;
        match found {
            Some(i) => {
                entries[i].1 = commits;
                proof {
                    assert(entries@ =~= before.update(i as int, (before[i as int].0, commits)));
                    assert(entry_names(before)[i as int] == author@);
                    lemma_stored_update(before, i as int, commits);
                }
            },
            None => {
                let name: String = author.clone();
                entries.push((name, commits));
                proof {
                    lemma_stored_push(before, name, commits);
                }
            },
        }
        self.entries = entries;
    }

    /// Adds `commits` to the count of `author`; an author without a count
    /// gets `commits`. Where the sum is more than a count can hold, nothing
    /// is changed and the answer is `false`.
    pub fn accumulate(&mut self, author: &String, commits: u32) -> (stored: bool)
        ensures
            stored == (old(self)@.raised(author@, commits as nat) <= u32::MAX),
            stored ==> final(self)@ == old(self)@.accumulate(author@, commits as nat),
            !stored ==> final(self)@ == old(self)@,
    {
        proof {
            use_type_invariant(&*self);
            lemma_tally_of(self.entries@);
        }
        let found = self.position(author);
        match found {
            Some(i) => {
                assert(entry_names(self.entries@)[i as int] == author@);
                match self.entries[i].1.checked_add(commits) {
                    Some(total) => {
                        let mut entries: Vec<(String, u32)> = Vec::new();
                        std::mem::swap(&mut entries, &mut self.entries);
                        let ghost before = entries@;
                        entries[i].1 = total;
                        proof {
                            assert(entries@ =~= before.update(
                                i as int,
                                (before[i as int].0, total),
                            ));
                            lemma_stored_update(before, i as int, total);
                        }
                        self.entries = entries;
                        true
                    },
                    None => false,
                }
            },
            None => {
                let mut entries: Vec<(String, u32)> = Vec::new();
                std::mem::swap(&mut entries, &mut self.entries);
                let ghost before = entries@;
                let name: String = author.clone();
                entries.push((name, commits));
                proof {
                    lemma_stored_push(before, name, commits);
                }
                self.entries = entries;
                true
            },
        }
    }

    /// The authors with their counts, in the order in which they came.
    pub fn entries(&self) -> (list: Vec<(String, u32)>)
        ensures
            pairs(list@) == self@.entries(),
    {
        proof {
            use_type_invariant(self);
            lemma_tally_of(self.entries@);
        }
        let mut list: Vec<(String, u32)> = Vec::new();
        let mut i: usize = 0;
        while i < self.entries.len()
            invariant
                i <= self.entries.len(),
                list.len() == i,
                forall|j: int|
                    0 <= j < i ==> (#[trigger] list@[j]).0@ == self.entries@[j].0@ && list@[j].1
                        == self.entries@[j].1,
            decreases self.entries.len() - i,
        {
            let name: String = self.entries[i].0.clone();
            let commits: u32 = self.entries[i].1;
            list.push((name, commits));
            i = i + 1;
        }
        assert(pairs(list@) =~= pairs(self.entries@));
        list
    }
}

impl Clone for AuthorCounts {
    fn clone(&self) -> (copy: AuthorCounts)
        ensures
            copy@ == self@,
    {
        proof {
            use_type_invariant(self);
            lemma_tally_of(self.entries@);
        }
        let entries = self.entries();
        proof {
            lemma_same_pairs(entries@, self.entries@);
        }
        AuthorCounts { entries }
    }
}

/// No count in the view of stored counts is more than a `u32` holds.
pub proof fn lemma_counts_bounded(counts: AuthorCounts)
    ensures
        forall|a: Seq<char>| #[trigger]
            counts@.count.contains_key(a) ==> counts@.count[a] <= u32::MAX,
{
}

/// Entries with the same authors and counts stand for the same tally.
proof fn lemma_same_pairs(x: Seq<(String, u32)>, y: Seq<(String, u32)>)
    requires
        pairs(x) == pairs(y),
        entry_names(y).no_duplicates(),
    ensures
        entry_names(x) == entry_names(y),
        tally_of(x) == tally_of(y),
{
    assert(pairs(x).len() == x.len() && pairs(y).len() == y.len());
    assert forall|i: int| 0 <= i < x.len() implies x[i].0@ == y[i].0@ && x[i].1 == y[i].1 by {
        assert(pairs(x)[i] == (x[i].0@, x[i].1 as nat));
        assert(pairs(y)[i] == (y[i].0@, y[i].1 as nat));
    }
    assert(entry_names(x) =~= entry_names(y));
    lemma_tally_of(x);
    lemma_tally_of(y);
    assert(tally_of(x).count =~= tally_of(y).count) by {
        assert forall|a: Seq<char>| entry_names(x).contains(a) implies tally_of(x).count[a]
            == tally_of(y).count[a] by {
            let j = choose|j: int| 0 <= j < x.len() && entry_names(x)[j] == a;
            assert(tally_of(x).count[x[j].0@] == x[j].1 as nat);
            assert(tally_of(y).count[y[j].0@] == y[j].1 as nat);
        }
    }
}

/// What overwriting the count of a stored author does to the tally.
proof fn lemma_stored_update(before: Seq<(String, u32)>, i: int, commits: u32)
    requires
        entry_names(before).no_duplicates(),
        0 <= i < before.len(),
    ensures
        entry_names(before.update(i, (before[i].0, commits))).no_duplicates(),
        tally_of(before.update(i, (before[i].0, commits))).order == tally_of(before).order,
        tally_of(before.update(i, (before[i].0, commits))).count == tally_of(
            before,
        ).count.insert(before[i].0@, commits as nat),
{
    let after = before.update(i, (before[i].0, commits));
    let names = entry_names(before);
    let author = before[i].0@;
    assert(entry_names(after) =~= names);
    assert(names[i] == author);
    lemma_tally_of(before);
    lemma_tally_of(after);
    assert forall|a: Seq<char>| names.contains(a) implies #[trigger] tally_of(after).count[a]
        == tally_of(before).count.insert(author, commits as nat)[a] by {
        let j = choose|j: int| 0 <= j < names.len() && names[j] == a;
        assert(tally_of(after).count[after[j].0@] == after[j].1 as nat);
        assert(tally_of(before).count[before[j].0@] == before[j].1 as nat);
        assert(entry_names(after)[j] == a);
    }
    assert(tally_of(after).count =~= tally_of(before).count.insert(author, commits as nat));
}

/// What a new entry at the end does to the tally.
proof fn lemma_stored_push(before: Seq<(String, u32)>, name: String, commits: u32)
    requires
        entry_names(before).no_duplicates(),
        !entry_names(before).contains(name@),
    ensures
        entry_names(before.push((name, commits))).no_duplicates(),
        tally_of(before.push((name, commits))).order == tally_of(before).order.push(name@),
        tally_of(before.push((name, commits))).count == tally_of(before).count.insert(
            name@,
            commits as nat,
        ),
{
    let after = before.push((name, commits));
    let names = entry_names(before);
    let author = name@;
    assert(entry_names(after) =~= names.push(author));
    lemma_tally_of(before);
    lemma_order_with_wf(tally_of(before), author);
    lemma_tally_of(after);
    assert forall|a: Seq<char>| entry_names(after).contains(a) implies #[trigger] tally_of(
        after,
    ).count[a] == tally_of(before).count.insert(author, commits as nat)[a] by {
        let j = choose|j: int| 0 <= j < after.len() && entry_names(after)[j] == a;
        assert(tally_of(after).count[after[j].0@] == after[j].1 as nat);
        if j < before.len() {
            assert(names[j] == a);
            assert(tally_of(before).count[before[j].0@] == before[j].1 as nat);
        }
    }
    assert forall|a: Seq<char>|
        tally_of(after).count.contains_key(a) <==> tally_of(before).count.insert(
            author,
            commits as nat,
        ).contains_key(a) by {
        if names.contains(a) {
            let j = choose|j: int| 0 <= j < names.len() && names[j] == a;
            assert(entry_names(after)[j] == a);
        }
        if a == author {
            assert(entry_names(after)[before.len() as int] == a);
        }
        if entry_names(after).contains(a) {
            let j = choose|j: int| 0 <= j < after.len() && entry_names(after)[j] == a;
            if j < before.len() {
                assert(names[j] == a);
            }
        }
    }
    assert(tally_of(after).count =~= tally_of(before).count.insert(author, commits as nat));
}

} // verus!
