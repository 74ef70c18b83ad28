//! What the tester is asked about an update, and what the answers add up
//! to.

use vstd::prelude::*;
use crate::numbers::{decimal, u64_to_string};
use crate::strings::{trim_bounds, trimmed};
use crate::text::{str_eq, texts, to_chars};
use crate::update::Karma;

verus! {

/// This struct represents the user's progress through the list of installed updates.
#[derive(Debug)]
pub struct Progress {
    update_number: usize,
    total_updates: usize,
    prev_commented: bool,
    karma_reset: bool,
    prev_ignored: bool,
}

impl Progress {
    /// The number of updates that came before this one.
    pub closed spec fn considered(self) -> nat {
        self.update_number as nat
    }

    /// The number of updates in the list.
    pub closed spec fn total(self) -> nat {
        self.total_updates as nat
    }

    /// Whether the user has commented on the update before.
    pub closed spec fn commented(self) -> bool {
        self.prev_commented
    }

    /// Whether the karma of the update was reset since.
    pub closed spec fn reset(self) -> bool {
        self.karma_reset
    }

    /// Whether the update was marked as ignored before.
    pub closed spec fn ignored(self) -> bool {
        self.prev_ignored
    }

    /// The progress at update `update_number` (counted from zero) of
    /// `total_updates`.
    pub fn new(
        update_number: usize,
        total_updates: usize,
        prev_commented: bool,
        karma_reset: bool,
        prev_ignored: bool,
    ) -> (progress: Progress)
        ensures
            progress.considered() == update_number,
            progress.total() == total_updates,
            progress.commented() == prev_commented,
            progress.reset() == karma_reset,
            progress.ignored() == prev_ignored,
    {
        Progress { update_number, total_updates, prev_commented, karma_reset, prev_ignored }
    }

    /// The number of updates that came before this one.
    pub fn updates_considered(&self) -> (n: usize)
        ensures
            n == self.considered(),
    {
        self.update_number
    }

    /// The number of updates in the list.
    pub fn total_updates(&self) -> (n: usize)
        ensures
            n == self.total(),
    {
        self.total_updates
    }

    /// The number of updates that come after this one. The update must be
    /// one of the list: fewer updates came before it than the list holds.
    pub fn updates_remaining(&self) -> (n: usize)
        requires
            self.considered() < self.total(),
        ensures
            n == self.total() - self.considered() - 1,
    {
        self.total_updates - self.update_number - 1
    }

    /// Whether the user has commented on the update before.
    pub fn previously_commented(&self) -> (b: bool)
        ensures
            b == self.commented(),
    {
        self.prev_commented
    }

    /// Whether the karma of the update was reset after the user's comment.
    pub fn karma_was_reset(&self) -> (b: bool)
        ensures
            b == self.reset(),
    {
        self.karma_reset
    }

    /// Whether the update was marked as ignored before.
    pub fn previously_ignored(&self) -> (b: bool)
        ensures
            b == self.ignored(),
    {
        self.prev_ignored
    }
}

/// What the tester chooses to do with an update.
#[derive(Clone, Copy, Debug, PartialEq, Eq, Structural)]
pub enum Action {
    /// go on to the next update
    Skip,
    /// never offer this update again
    Ignore,
    /// stop the review
    Abort,
    /// comment on the update
    Comment,
    /// never offer an update of this update's packages again
    Block,
}

/// This enum contains all feedback information for an update that's been parsed from CLI input.
#[derive(Debug)]
pub enum Feedback<'a> {
    /// Ignore this update now and in the future.
    Ignore,
    /// With this input, the current update is skipped.
    Skip,
    /// Cancel providing feedback for all remaining updates.
    Abort,
    /// Add this package to the list of permanently ignored packages
    Block,
    /// These values are used when submitting feedback.
    Values {
        /// comment text (can be multiple lines)
        comment: Option<String>,
        /// feedback karma
        karma: Karma,
        /// list of bug feedback items (if any)
        bug_feedback: Vec<(u32, Karma)>,
        /// list of testcase feedback items (if any)
        testcase_feedback: Vec<(&'a str, Karma)>,
    },
}

/// The contents of a `Feedback`.
pub enum FeedbackView {
    Ignore,
    Skip,
    Abort,
    Block,
    Values {
        comment: Option<Seq<char>>,
        karma: Karma,
        bug_feedback: Seq<(u32, Karma)>,
        testcase_feedback: Seq<(Seq<char>, Karma)>,
    },
}

/// The contents of an optional string.
pub open spec fn option_text(s: Option<String>) -> Option<Seq<char>> {
    match s {
        Some(s) => Some(s@),
        None => None,
    }
}

/// The contents of a list of test case feedback.
pub open spec fn testcase_texts(list: Seq<(&str, Karma)>) -> Seq<(Seq<char>, Karma)> {
    list.map_values(|item: (&str, Karma)| (item.0@, item.1))
}

impl<'a> View for Feedback<'a> {
    type V = FeedbackView;

    open spec fn view(&self) -> FeedbackView {
        match *self {
            Feedback::Ignore => FeedbackView::Ignore,
            Feedback::Skip => FeedbackView::Skip,
            Feedback::Abort => FeedbackView::Abort,
            Feedback::Block => FeedbackView::Block,
            Feedback::Values { comment, karma, bug_feedback, testcase_feedback } => {
                FeedbackView::Values {
                    comment: option_text(comment),
                    karma,
                    bug_feedback: bug_feedback@,
                    testcase_feedback: testcase_texts(testcase_feedback@),
                }
            },
        }
    }
}

/// The action that a key stands for: `s` skips, `i` ignores, `c` comments,
/// `a` aborts, `b` blocks; every other text skips.
pub open spec fn action_of(key: Seq<char>) -> Action {
    if key == "i"@ {
        Action::Ignore
    } else if key == "c"@ {
        Action::Comment
    } else if key == "a"@ {
        Action::Abort
    } else if key == "b"@ {
        Action::Block
    } else {
        Action::Skip
    }
}

/// What `str::to_lowercase` of the standard library makes of a text.
pub uninterp spec fn lowercase(s: Seq<char>) -> Seq<char>;

/// Calls `str::to_lowercase` of the standard library, which gives the text
/// with each character replaced by its lower case form. The result is the
/// text that `lowercase` names; nothing more is claimed of it.
#[verifier::external_body]
fn to_lowercase(s: &str) -> (res: String)
    ensures
        res@ == lowercase(s@),
{
    s.to_lowercase()
}

/// The action that a key in lower case stands for.
pub fn action_for_key(key: &str) -> (action: Action)
    ensures
        action == action_of(key@),
{
    if str_eq(key, "i") {
        Action::Ignore
    } else if str_eq(key, "c") {
        Action::Comment
    } else if str_eq(key, "a") {
        Action::Abort
    } else if str_eq(key, "b") {
        Action::Block
    } else {
        Action::Skip
    }
}

/// The action that the tester's answer stands for: that of the answer in
/// lower case.
pub fn parse_action(input: &str) -> (action: Action)
    ensures
        action == action_of(lowercase(input@)),
{
    let lowered = to_lowercase(input);
    action_for_key(lowered.as_str())
}

/// The comment that the text from the editor stands for: none where the
/// text holds nothing but white space, else the text as it was written.
pub open spec fn comment_of(output: Seq<char>) -> Option<Seq<char>> {
    if trimmed(output).len() == 0 {
        None
    } else {
        Some(output)
    }
}

/// The comment that the text from the editor stands for.
pub fn comment_from_editor_output(output: String) -> (comment: Option<String>)
    ensures
        option_text(comment) == comment_of(output@),
{
    let chars = to_chars(output.as_str());
    let (start, end) = trim_bounds(&chars);
    if start == end {
        None
    } else {
        Some(output)
    }
}

/// What is said of the progress before the question for an action: how
/// many updates came before and how many are left, that the user has
/// commented on this update before, and that it was ignored before.
pub open spec fn progress_lines(
    considered: nat,
    remaining: int,
    commented: bool,
    reset: bool,
    ignored: bool,
) -> Seq<Seq<char>> {
    let counts = seq![
        "Updates considered: "@ + decimal(considered as int) + ", Updates remaining: "@ + decimal(
            remaining,
        ),
    ];
    let comment = if commented {
        if reset {
            seq![
                "A comment for this update has already been submitted."@,
                "However, the update has since been edited, and karma has been reset."@,
            ]
        } else {
            seq![
                "A comment for this update has already been submitted."@,
                "Any feedback / karma that is provided now will overwrite previous values."@,
            ]
        }
    } else {
        Seq::empty()
    };
    let mark = if ignored {
        seq!["This update has been previously marked as ignored."@]
    } else {
        Seq::empty()
    };
    counts + comment + mark
}

/// The actions that the user can choose from.
pub open spec fn action_lines() -> Seq<Seq<char>> {
    seq![
        "Actions: [s] skip this update (default)"@,
        "       / [i] ignore this update permanently"@,
        "       / [c] comment with feedback (opens an external editor)"@,
        "       / [b] block (ignore all packages from this update permanently)"@,
        "       / [a] abort (exit program)"@,
    ]
}

impl Progress {
    /// What is said of the progress before the question for an action. The
    /// update must be one of the list: fewer updates came before it than the
    /// list holds.
    pub fn lines(&self) -> (lines: Vec<String>)
        requires
            self.considered() < self.total(),
        ensures
            texts(lines@) == progress_lines(
                self.considered(),
                self.total() - self.considered() - 1,
                self.commented(),
                self.reset(),
                self.ignored(),
            ),
    {
        let remaining = self.updates_remaining();
        let mut lines: Vec<String> = Vec::new();
        let counts = "Updates considered: ".to_owned().concat(
            u64_to_string(self.update_number as u64).as_str(),
        ).concat(", Updates remaining: ").concat(u64_to_string(remaining as u64).as_str());
        lines.push(counts);
        if self.prev_commented {
            if self.karma_reset {
                lines.push("A comment for this update has already been submitted.".to_owned());
                lines.push(
                    "However, the update has since been edited, and karma has been reset.".to_owned(),
                );
            } else {
                lines.push("A comment for this update has already been submitted.".to_owned());
                lines.push(
                    "Any feedback / karma that is provided now will overwrite previous values.".to_owned(),
                );
            }
        }
        if self.prev_ignored {
            lines.push("This update has been previously marked as ignored.".to_owned());
        }
        proof {
            assert(texts(lines@) =~= progress_lines(
                self.considered(),
                self.total() - self.considered() - 1,
                self.commented(),
                self.reset(),
                self.ignored(),
            ));
        }
        lines
    }
}

/// The actions that the user can choose from, line by line.
pub fn action_menu() -> (lines: Vec<String>)
    ensures
        texts(lines@) == action_lines(),
{
    let mut lines: Vec<String> = Vec::new();
    lines.push("Actions: [s] skip this update (default)".to_owned());
    lines.push("       / [i] ignore this update permanently".to_owned());
    lines.push("       / [c] comment with feedback (opens an external editor)".to_owned());
    lines.push("       / [b] block (ignore all packages from this update permanently)".to_owned());
    lines.push("       / [a] abort (exit program)".to_owned());
    proof {
        assert(texts(lines@) =~= action_lines());
    }
    lines
}

/// The editor in which comments are written: the one that `EDITOR` names,
/// else the one that `VISUAL` names, else `nano`.
pub open spec fn editor_for(editor: Option<String>, visual: Option<String>) -> Seq<char> {
    match editor {
        Some(editor) => editor@,
        None => match visual {
            Some(visual) => visual@,
            None => "nano"@,
        },
    }
}

/// The editor in which comments are written, given what the environment
/// variables `EDITOR` and `VISUAL` hold.
pub fn choose_editor(editor: Option<String>, visual: Option<String>) -> (res: String)
    ensures
        res@ == editor_for(editor, visual),
{
    match editor {
        Some(editor) => editor,
        None => match visual {
            Some(visual) => visual,
            None => "nano".to_owned(),
        },
    }
}

} // verus!
