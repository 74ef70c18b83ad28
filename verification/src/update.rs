//! Update records as the review works on them: plain values that hold what
//! the matching, ordering and feedback rules read.

use vstd::prelude::*;

verus! {

/// Feedback value that is attached to an update, a bug or a test case.
#[derive(Clone, Copy, Debug, PartialEq, Eq, Structural)]
pub enum Karma {
    /// positive feedback
    Positive,
    /// neutral / informational feedback
    Neutral,
    /// negative feedback
    Negative,
}

/// A point in time, together with the text that stands for it in output.
#[derive(Debug)]
pub struct Timestamp {
    /// seconds since the start of 1970 (UTC); points in time are ordered by it
    pub seconds: i64,
    /// the date and time as the update server writes it
    pub text: String,
}

/// A comment on an update.
#[derive(Debug)]
pub struct Comment {
    /// name of the user who wrote the comment
    pub user: String,
    /// karma that was given with the comment
    pub karma: Karma,
    /// text of the comment
    pub text: String,
    /// date and time at which the comment was published
    pub timestamp: Timestamp,
}

/// A bug that is associated with an update.
#[derive(Debug)]
pub struct Bug {
    /// number of the bug in the bug tracker
    pub bug_id: u32,
    /// title of the bug
    pub title: Option<String>,
    /// address of the bug in the bug tracker
    pub url: String,
}

/// A test case that is associated with an update.
#[derive(Debug)]
pub struct TestCase {
    /// name of the test case
    pub name: String,
    /// address of the test case's description
    pub url: String,
}

/// An update that waits for feedback.
#[derive(Debug)]
pub struct Update {
    /// alias of the update (`FEDORA-2019-1A2BB23E`): its identity
    pub alias: String,
    /// title of the update
    pub title: String,
    /// notes that the submitter wrote for the update
    pub notes: String,
    /// the builds of the update, each as a name-version-release string
    pub builds: Vec<String>,
    /// type of the update, as the update server names it
    pub update_type: String,
    /// date and time at which the update was submitted
    pub date_submitted: Option<Timestamp>,
    /// date and time at which the update was pushed
    pub date_pushed: Option<Timestamp>,
    /// name of the user who submitted the update
    pub user: String,
    /// current total of the karma that was given
    pub karma: Option<i32>,
    /// karma at which the update is pushed to stable
    pub stable_karma: Option<i32>,
    /// karma at which the update is unpushed
    pub unstable_karma: Option<i32>,
    /// bugs that are associated with the update
    pub bugs: Vec<Bug>,
    /// test cases that are associated with the update
    pub test_cases: Option<Vec<TestCase>>,
    /// comments on the update, in the order in which the server lists them
    pub comments: Option<Vec<Comment>>,
}

/// The contents of the build strings of an update.
pub open spec fn build_texts(update: Update) -> Seq<Seq<char>> {
    crate::text::texts(update.builds@)
}

/// The updates that a list of references points to.
pub open spec fn updates_of(refs: Seq<&Update>) -> Seq<Update> {
    refs.map_values(|u: &Update| *u)
}

/// The aliases of a list of updates.
pub open spec fn aliases_of(updates: Seq<Update>) -> Seq<Seq<char>> {
    updates.map_values(|u: Update| u.alias@)
}

} // verus!
