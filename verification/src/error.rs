//! What aggregation and sampling refuse.

use vstd::prelude::*;

verus! {

/// The feed cannot be aggregated: a contributor that is not excluded has no
/// week or more weeks than can be counted, or a cumulative count outgrows
/// a `u32`.
#[derive(Clone, Copy, Debug, PartialEq, Eq)]
pub struct MalformedInputError;

impl MalformedInputError {
    /// The text of the error.
    pub open spec fn text(self) -> Seq<char> {
        "malformed input: a contributor's week list is empty or inconsistent"@
    }

    /// The error as a message to show.
    pub fn message(&self) -> (message: String)
        ensures
            message@ == self.text(),
    {
        "malformed input: a contributor's week list is empty or inconsistent".to_owned()
    }
}

/// Why no frame could be sampled.
#[derive(Clone, Copy, Debug, PartialEq, Eq)]
pub enum SampleError {
    /// The race was given no tick at all.
    Configuration,
    /// The timeline holds no week.
    EmptyTimeline,
}

impl SampleError {
    /// The text of the error.
    pub open spec fn text(self) -> Seq<char> {
        match self {
            SampleError::Configuration => {
                "configuration: the number of ticks must be positive"@
            },
            SampleError::EmptyTimeline => "the timeline holds no week"@,
        }
    }

    /// The error as a message to show.
    pub fn message(&self) -> (message: String)
        ensures
            message@ == self.text(),
    {
        match self {
            SampleError::Configuration => {
                "configuration: the number of ticks must be positive".to_owned()
            },
            SampleError::EmptyTimeline => "the timeline holds no week".to_owned(),
        }
    }
}

} // verus!
