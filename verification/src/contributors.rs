//! The raw feed: one record per contributor, one entry per week.

use vstd::prelude::*;

verus! {

/// One week of one contributor: the week's start as a unix timestamp, and the
/// lines added, lines deleted and commits made in that week alone.
#[derive(Clone, Copy, Debug, PartialEq, Eq)]
pub struct Week {
    pub w: u32,
    pub a: u32,
    pub d: u32,
    pub c: u32,
}

/// Who a contributor is.
#[derive(Clone, Debug)]
pub struct Author {
    pub login: String,
}

/// One contributor's weekly history, in the order the source gave it.
#[derive(Clone, Debug)]
pub struct Contributor {
    pub total: u32,
    pub author: Author,
    pub weeks: Vec<Week>,
}

/// What aggregation reads of a contributor: the author's id and the weeks.
pub struct Record {
    pub author: Seq<char>,
    pub weeks: Seq<Week>,
}

impl View for Contributor {
    type V = Record;

    open spec fn view(&self) -> Record {
        Record { author: self.author.login@, weeks: self.weeks@ }
    }
}

/// The records of a list of contributors, in the same order.
pub open spec fn records(contributors: Seq<Contributor>) -> Seq<Record> {
    contributors.map_values(|c: Contributor| c@)
}

/// The author ids that a list of strings holds.
pub open spec fn ids(names: Seq<String>) -> Seq<Seq<char>> {
    names.map_values(|s: String| s@)
}

} // verus!
