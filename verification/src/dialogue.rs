//! The questions that the tester is asked about one update, one after
//! the other, and the feedback that the answers add up to.
//!
//! The questions themselves are put by the caller: a `Dialogue` says which
//! question is next, takes the answer, and says what follows.

use vstd::prelude::*;
use crate::input::{
    action_of, comment_from_editor_output, comment_of, lowercase, option_text, parse_action,
    testcase_texts, Action, Feedback, FeedbackView,
};
use crate::karma::{karma_of, str_to_karma};
use crate::update::{Karma, Update};

verus! {

/// A question to the tester.
#[derive(Clone, Copy, Debug, PartialEq, Eq, Structural)]
pub enum Prompt {
    /// what to do with the update
    Action,
    /// the text of the comment, written in an editor
    Comment,
    /// the karma for the update
    Karma,
    /// the karma for the bug at this position among the update's bugs
    Bug(usize),
    /// the karma for the test case at this position among the update's test cases
    TestCase(usize),
}

/// The state of the questioning about one update: the question that is
/// asked next, and what the answers so far have given.
#[derive(Debug)]
pub struct Dialogue<'a> {
    update: &'a Update,
    prompt: Prompt,
    comment: Option<String>,
    karma: Karma,
    bug_feedback: Vec<(u32, Karma)>,
    testcase_feedback: Vec<(&'a str, Karma)>,
}

/// What follows an answer: another question, or the feedback.
#[derive(Debug)]
pub enum Turn<'a> {
    /// the questioning goes on
    Ask(Dialogue<'a>),
    /// the questioning is over
    Done(Feedback<'a>),
}

/// The contents of a `Dialogue`.
pub struct DialogueView {
    pub update: Update,
    pub prompt: Prompt,
    pub comment: Option<Seq<char>>,
    pub karma: Karma,
    pub bug_feedback: Seq<(u32, Karma)>,
    pub testcase_feedback: Seq<(Seq<char>, Karma)>,
}

/// The contents of a `Turn`.
pub enum TurnView {
    Ask(DialogueView),
    Done(FeedbackView),
}

/// The number of test cases of an update.
pub open spec fn test_case_count(update: Update) -> nat {
    match update.test_cases {
        Some(cases) => cases.len() as nat,
        None => 0,
    }
}

/// The feedback that the answers add up to. Answers that say nothing (no
/// comment, neutral karma, no karma for a bug or a test case) are a skip.
pub open spec fn collected(d: DialogueView) -> FeedbackView {
    if d.comment is None && d.karma == Karma::Neutral && d.bug_feedback.len() == 0
        && d.testcase_feedback.len() == 0 {
        FeedbackView::Skip
    } else {
        FeedbackView::Values {
            comment: d.comment,
            karma: d.karma,
            bug_feedback: d.bug_feedback,
            testcase_feedback: d.testcase_feedback,
        }
    }
}

/// What follows when the test cases before position `i` are dealt with: the
/// question about test case `i`, or the feedback where there is no such
/// test case.
pub open spec fn from_test_case(d: DialogueView, i: int) -> TurnView {
    if 0 <= i < test_case_count(d.update) {
        TurnView::Ask(DialogueView { prompt: Prompt::TestCase(i as usize), ..d })
    } else {
        TurnView::Done(collected(d))
    }
}

/// What follows when the bugs before position `i` are dealt with: the
/// question about bug `i`, or where there is no such bug, what follows the
/// bugs.
pub open spec fn from_bug(d: DialogueView, i: int) -> TurnView {
    if 0 <= i < d.update.bugs.len() {
        TurnView::Ask(DialogueView { prompt: Prompt::Bug(i as usize), ..d })
    } else {
        from_test_case(d, 0)
    }
}

/// What follows the answer `input` to the question that `d` asks.
///
/// - To the question for an action: skip, ignore, block and abort end the
///   questioning at once; comment leads to the question for the text.
/// - The text leads to the question for karma.
/// - Without text and without a karma value the update is skipped. Else
///   karma that is no value counts as neutral, and the bugs and test cases
///   are asked about, one by one.
/// - An answer about a bug or a test case that is a karma value is added to
///   the feedback; any other answer passes it over.
pub open spec fn next_turn(d: DialogueView, input: Seq<char>) -> TurnView {
    match d.prompt {
        Prompt::Action => match action_of(lowercase(input)) {
            Action::Skip => TurnView::Done(FeedbackView::Skip),
            Action::Ignore => TurnView::Done(FeedbackView::Ignore),
            Action::Abort => TurnView::Done(FeedbackView::Abort),
            Action::Block => TurnView::Done(FeedbackView::Block),
            Action::Comment => TurnView::Ask(DialogueView { prompt: Prompt::Comment, ..d }),
        },
        Prompt::Comment => TurnView::Ask(
            DialogueView { prompt: Prompt::Karma, comment: comment_of(input), ..d },
        ),
        Prompt::Karma => match karma_of(input) {
            None => if d.comment is None {
                TurnView::Done(FeedbackView::Skip)
            } else {
                from_bug(DialogueView { karma: Karma::Neutral, ..d }, 0)
            },
            Some(karma) => from_bug(DialogueView { karma: karma, ..d }, 0),
        },
        Prompt::Bug(i) => match karma_of(input) {
            Some(karma) => from_bug(
                DialogueView {
                    bug_feedback: d.bug_feedback.push((d.update.bugs[i as int].bug_id, karma)),
                    ..d
                },
                i + 1,
            ),
            None => from_bug(d, i + 1),
        },
        Prompt::TestCase(i) => match karma_of(input) {
            Some(karma) => from_test_case(
                DialogueView {
                    testcase_feedback: d.testcase_feedback.push(
                        (d.update.test_cases->0[i as int].name@, karma),
                    ),
                    ..d
                },
                i + 1,
            ),
            None => from_test_case(d, i + 1),
        },
    }
}

/// The greatest number of questions that can still be asked, the one that
/// `d` asks included.
pub open spec fn questions_left(d: DialogueView) -> int {
    let bugs = d.update.bugs.len() as int;
    let cases = test_case_count(d.update) as int;
    match d.prompt {
        Prompt::Action => 3 + bugs + cases,
        Prompt::Comment => 2 + bugs + cases,
        Prompt::Karma => 1 + bugs + cases,
        Prompt::Bug(i) => bugs - i + cases,
        Prompt::TestCase(i) => cases - i,
    }
}

/// Whether the question of `d` is one about its update.
pub open spec fn prompt_in_range(d: DialogueView) -> bool {
    match d.prompt {
        Prompt::Bug(i) => i < d.update.bugs.len(),
        Prompt::TestCase(i) => i < test_case_count(d.update),
        _ => true,
    }
}

/// Each answer brings the questioning nearer to its end, and feedback with
/// values is never empty: it holds a comment, karma that is not neutral, or
/// karma for a bug or a test case.
pub proof fn lemma_next_turn(d: DialogueView, input: Seq<char>)
    requires
        prompt_in_range(d),
    ensures
        next_turn(d, input) matches TurnView::Ask(next) ==> prompt_in_range(next)
            && questions_left(next) < questions_left(d) && next.update == d.update,
        next_turn(d, input) matches TurnView::Done(
            FeedbackView::Values { comment, karma, bug_feedback, testcase_feedback },
        ) ==> comment is Some || karma != Karma::Neutral || bug_feedback.len() > 0
            || testcase_feedback.len() > 0,
{
}

impl<'a> View for Dialogue<'a> {
    type V = DialogueView;

    closed spec fn view(&self) -> DialogueView {
        DialogueView {
            update: *self.update,
            prompt: self.prompt,
            comment: option_text(self.comment),
            karma: self.karma,
            bug_feedback: self.bug_feedback@,
            testcase_feedback: testcase_texts(self.testcase_feedback@),
        }
    }
}

impl<'a> View for Turn<'a> {
    type V = TurnView;

    open spec fn view(&self) -> TurnView {
        match *self {
            Turn::Ask(dialogue) => TurnView::Ask(dialogue@),
            Turn::Done(feedback) => TurnView::Done(feedback@),
        }
    }
}

impl<'a> Dialogue<'a> {
    #[verifier::type_invariant]
    spec fn well_formed(self) -> bool {
        prompt_in_range(self@)
    }

    /// The start of the questioning about `update`: the question for an
    /// action is next, and nothing is collected yet.
    pub fn start(update: &'a Update) -> (dialogue: Dialogue<'a>)
        ensures
            dialogue@ == (DialogueView {
                update: *update,
                prompt: Prompt::Action,
                comment: None,
                karma: Karma::Neutral,
                bug_feedback: Seq::empty(),
                testcase_feedback: Seq::empty(),
            }),
    {
        let dialogue = Dialogue {
            update,
            prompt: Prompt::Action,
            comment: None,
            karma: Karma::Neutral,
            bug_feedback: Vec::new(),
            testcase_feedback: Vec::new(),
        };
        proof {
            assert(dialogue@.testcase_feedback =~= Seq::empty());
        }
        dialogue
    }

    /// The question that is asked next.
    pub fn prompt(&self) -> (prompt: Prompt)
        ensures
            prompt == self@.prompt,
            prompt_in_range(self@),
    {
        proof {
            use_type_invariant(self);
        }
        self.prompt
    }

    /// The update that the questions are about.
    pub fn update(&self) -> (update: &'a Update)
        ensures
            *update == self@.update,
    {
        self.update
    }

    /// The feedback that the answers add up to.
    fn finish(self) -> (feedback: Feedback<'a>)
        ensures
            feedback@ == collected(self@),
    {
        if self.comment.is_none() && self.karma == Karma::Neutral && self.bug_feedback.len() == 0
            && self.testcase_feedback.len() == 0 {
            Feedback::Skip
        } else {
            Feedback::Values {
                comment: self.comment,
                karma: self.karma,
                bug_feedback: self.bug_feedback,
                testcase_feedback: self.testcase_feedback,
            }
        }
    }

    /// Goes on with the test case at position `i`, or ends the questioning.
    fn go_to_test_case(self, i: usize) -> (turn: Turn<'a>)
        ensures
            turn@ == from_test_case(self@, i as int),
    {
        let count = match &self.update.test_cases {
            Some(cases) => cases.len(),
            None => 0,
        };
        if i < count {
            Turn::Ask(
                Dialogue {
                    update: self.update,
                    prompt: Prompt::TestCase(i),
                    comment: self.comment,
                    karma: self.karma,
                    bug_feedback: self.bug_feedback,
                    testcase_feedback: self.testcase_feedback,
                },
            )
        } else {
            Turn::Done(self.finish())
        }
    }

    /// Goes on with the bug at position `i`, or with what follows the bugs.
    fn go_to_bug(self, i: usize) -> (turn: Turn<'a>)
        ensures
            turn@ == from_bug(self@, i as int),
    {
        if i < self.update.bugs.len() {
            Turn::Ask(
                Dialogue {
                    update: self.update,
                    prompt: Prompt::Bug(i),
                    comment: self.comment,
                    karma: self.karma,
                    bug_feedback: self.bug_feedback,
                    testcase_feedback: self.testcase_feedback,
                },
            )
        } else {
            self.go_to_test_case(0)
        }
    }

    /// Breaks the questioning off: what was collected is dropped, and the
    /// update is skipped. This is what an interrupt while the comment is
    /// written comes to; the updates that follow are asked about as usual.
    pub fn cancel(self) -> (feedback: Feedback<'a>)
        ensures
            feedback@ == FeedbackView::Skip,
    {
        Feedback::Skip
    }

    /// Takes the answer to the question that is asked, and says what
    /// follows: the next question, or the feedback. The questioning ends
    /// after at most three questions and one for each bug and test case of
    /// the update.
    pub fn answer(self, input: String) -> (turn: Turn<'a>)
        ensures
            turn@ == next_turn(self@, input@),
            turn@ matches TurnView::Ask(next) ==> questions_left(next) < questions_left(self@),
    {
        proof {
            use_type_invariant(&self);
            lemma_next_turn(self@, input@);
        }
        match self.prompt {
            Prompt::Action => match parse_action(input.as_str()) {
                Action::Skip => Turn::Done(Feedback::Skip),
                Action::Ignore => Turn::Done(Feedback::Ignore),
                Action::Abort => Turn::Done(Feedback::Abort),
                Action::Block => Turn::Done(Feedback::Block),
                Action::Comment => Turn::Ask(
                    Dialogue {
                        update: self.update,
                        prompt: Prompt::Comment,
                        comment: self.comment,
                        karma: self.karma,
                        bug_feedback: self.bug_feedback,
                        testcase_feedback: self.testcase_feedback,
                    },
                ),
            },
            Prompt::Comment => Turn::Ask(
                Dialogue {
                    update: self.update,
                    prompt: Prompt::Karma,
                    comment: comment_from_editor_output(input),
                    karma: self.karma,
                    bug_feedback: self.bug_feedback,
                    testcase_feedback: self.testcase_feedback,
                },
            ),
            Prompt::Karma => {
                let karma = str_to_karma(input.as_str());
                if self.comment.is_none() && karma.is_none() {
                    Turn::Done(Feedback::Skip)
                } else {
                    let karma = match karma {
                        Some(karma) => karma,
                        None => Karma::Neutral,
                    };
                    let next = Dialogue {
                        update: self.update,
                        prompt: Prompt::Karma,
                        comment: self.comment,
                        karma,
                        bug_feedback: self.bug_feedback,
                        testcase_feedback: self.testcase_feedback,
                    };
                    next.go_to_bug(0)
                }
            },
            Prompt::Bug(i) => {
                let mut bug_feedback = self.bug_feedback;
                if let Some(karma) = str_to_karma(input.as_str()) {
                    bug_feedback.push((self.update.bugs[i].bug_id, karma));
                }
                let next = Dialogue {
                    update: self.update,
                    prompt: Prompt::Karma,
                    comment: self.comment,
                    karma: self.karma,
                    bug_feedback,
                    testcase_feedback: self.testcase_feedback,
                };
                next.go_to_bug(i + 1)
            },
            Prompt::TestCase(i) => {
                let mut testcase_feedback = self.testcase_feedback;
                let ghost before = testcase_texts(testcase_feedback@);
                if let Some(karma) = str_to_karma(input.as_str()) {
                    match &self.update.test_cases {
                        Some(cases) => {
                            testcase_feedback.push((cases[i].name.as_str(), karma));
                            proof {
                                assert(testcase_texts(testcase_feedback@) =~= before.push(
                                    (cases[i as int].name@, karma),
                                ));
                            }
                        },
                        None => {},
                    }
                }
                let next = Dialogue {
                    update: self.update,
                    prompt: Prompt::Karma,
                    comment: self.comment,
                    karma: self.karma,
                    bug_feedback: self.bug_feedback,
                    testcase_feedback,
                };
                next.go_to_test_case(i + 1)
            },
        }
    }
}

} // verus!
