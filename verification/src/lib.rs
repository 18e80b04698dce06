//! Weekly commit history of a repository's contributors, turned into a
//! cumulative timeline and sampled frame by frame for an animated race.
//!
//! `commits` aggregates the raw feed of `contributors` into a timeline, whose
//! mathematical form is in `timeline` and whose properties are in `totals`.
//! `sampler` maps a tick of the animation to a week and its leaderboard.
//! `app` holds the state of the race between two frames.

pub mod app;
pub mod arrangement;
pub mod author_counts;
pub mod commits;
pub mod contributors;
pub mod date;
pub mod error;
pub mod palette;
pub mod sampler;
pub mod timeline;
pub mod totals;
