//! The review of a list of updates: what each piece of feedback does to the
//! ignore lists, which comments are to be submitted, and where the review
//! ends.

use vstd::prelude::*;
use crate::checks::{first_malformed, well_formed};
use crate::ignore::{package_names, packages_in_update, IgnoreLists, IgnoreState};
use crate::input::{option_text, testcase_texts, Feedback, FeedbackView, Progress};
use crate::parse::nevra_error;
use crate::review::{has_already_commented, passed_over, prior_feedback_of, skip_without_asking};
use crate::text::{contains_text, sorted_set};
use crate::update::{build_texts, updates_of, Karma, Update};

verus! {

/// A comment that is to be submitted for an update.
#[derive(Debug)]
pub struct NewComment<'a> {
    /// alias of the update that the comment is for
    pub alias: &'a str,
    /// karma for the update
    pub karma: Karma,
    /// text of the comment
    pub text: Option<String>,
    /// karma for bugs of the update, each with the number of its bug
    pub bug_feedback: Vec<(u32, Karma)>,
    /// karma for test cases of the update, each with the name of its test case
    pub testcase_feedback: Vec<(&'a str, Karma)>,
}

/// The contents of a `NewComment`.
pub struct NewCommentView {
    pub alias: Seq<char>,
    pub karma: Karma,
    pub text: Option<Seq<char>>,
    pub bug_feedback: Seq<(u32, Karma)>,
    pub testcase_feedback: Seq<(Seq<char>, Karma)>,
}

impl<'a> View for NewComment<'a> {
    type V = NewCommentView;

    open spec fn view(&self) -> NewCommentView {
        NewCommentView {
            alias: self.alias@,
            karma: self.karma,
            text: option_text(self.text),
            bug_feedback: self.bug_feedback@,
            testcase_feedback: testcase_texts(self.testcase_feedback@),
        }
    }
}

/// What is to be done after the feedback on one update was applied.
#[derive(Debug)]
pub enum Effect<'a> {
    /// go on with the next update
    Continue,
    /// end the review
    Stop,
    /// submit the comment, and go on with the next update whether or not
    /// that succeeds
    Submit(NewComment<'a>),
}

/// The contents of an `Effect`.
pub enum EffectView {
    Continue,
    Stop,
    Submit(NewCommentView),
}

impl<'a> View for Effect<'a> {
    type V = EffectView;

    open spec fn view(&self) -> EffectView {
        match *self {
            Effect::Continue => EffectView::Continue,
            Effect::Stop => EffectView::Stop,
            Effect::Submit(comment) => EffectView::Submit(comment@),
        }
    }
}

/// The message for the first of `builds` that is no name-version-release
/// string.
pub open spec fn malformed_message(builds: Seq<Seq<char>>) -> Seq<char> {
    nevra_error(builds[choose|k: int| first_malformed(builds, k)])
}

/// Only one build is the first that is no name-version-release string.
pub proof fn lemma_first_malformed_unique(builds: Seq<Seq<char>>, a: int, b: int)
    requires
        first_malformed(builds, a),
        first_malformed(builds, b),
    ensures
        a == b,
{
    if a < b {
        assert(builds.take(b)[a] == builds[a]);
    } else if b < a {
        assert(builds.take(a)[b] == builds[b]);
    }
}

/// What feedback on an update does: the ignore lists after it, and what is
/// to be done next; or the message of the error that ends the review.
///
/// - A skip changes nothing.
/// - Ignoring puts the update's alias among the ignored updates, which are
///   a sorted set afterwards: no alias is in it twice.
/// - Blocking puts the names of the packages of all builds of the update
///   among the ignored packages, which are a sorted set afterwards. It
///   fails where a build is no name-version-release string.
/// - Aborting changes nothing and ends the review.
/// - Values without a comment, with neutral karma and without karma for a
///   bug or a test case are a skip. Other values are to be submitted.
pub open spec fn step(ignored: IgnoreState, update: Update, feedback: FeedbackView) -> Result<
    (IgnoreState, EffectView),
    Seq<char>,
> {
    match feedback {
        FeedbackView::Skip => Ok((ignored, EffectView::Continue)),
        FeedbackView::Ignore => Ok(
            (
                IgnoreState {
                    updates: sorted_set(ignored.updates.push(update.alias@)),
                    packages: ignored.packages,
                },
                EffectView::Continue,
            ),
        ),
        FeedbackView::Block => if well_formed(build_texts(update)) {
            Ok(
                (
                    IgnoreState {
                        updates: ignored.updates,
                        packages: sorted_set(
                            ignored.packages + package_names(build_texts(update)),
                        ),
                    },
                    EffectView::Continue,
                ),
            )
        } else {
            Err(malformed_message(build_texts(update)))
        },
        FeedbackView::Abort => Ok((ignored, EffectView::Stop)),
        FeedbackView::Values { comment, karma, bug_feedback, testcase_feedback } => if comment
            is None && karma == Karma::Neutral && bug_feedback.len() == 0
            && testcase_feedback.len() == 0 {
            Ok((ignored, EffectView::Continue))
        } else {
            Ok(
                (
                    ignored,
                    EffectView::Submit(
                        NewCommentView {
                            alias: update.alias@,
                            karma,
                            text: comment,
                            bug_feedback,
                            testcase_feedback,
                        },
                    ),
                ),
            )
        },
    }
}

/// Applies the feedback on `update`: changes the ignore lists as the
/// feedback asks, and says what is to be done next. On an error the ignore
/// lists stay as they were.
pub fn apply_feedback<'a>(
    ignored: &mut IgnoreLists,
    update: &'a Update,
    feedback: Feedback<'a>,
) -> (res: Result<Effect<'a>, String>)
    ensures
        match step(old(ignored)@, *update, feedback@) {
            Ok((state, effect)) => res matches Ok(e) && e@ == effect && final(ignored)@ == state,
            Err(message) => res matches Err(msg) && msg@ == message && final(ignored)@ == old(
                ignored,
            )@,
        },
{
    match feedback {
        Feedback::Skip => Ok(Effect::Continue),
        Feedback::Ignore => {
            ignored.add_ignored_update(update.alias.as_str());
            Ok(Effect::Continue)
        },
        Feedback::Block => {
            match packages_in_update(update) {
                Ok(names) => {
                    ignored.add_ignored_packages(names);
                    Ok(Effect::Continue)
                },
                Err(msg) => {
                    proof {
                        let builds = build_texts(*update);
                        let k = choose|k: int|
                            first_malformed(builds, k) && msg@ == nevra_error(#[trigger] builds[k]);
                        let c = choose|c: int| first_malformed(builds, c);
                        lemma_first_malformed_unique(builds, k, c);
                        assert(!well_formed(builds)) by {
                            assert(builds.take(k + 1)[k] == builds[k]);
                        }
                    }
                    Err(msg)
                },
            }
        },
        Feedback::Abort => Ok(Effect::Stop),
        Feedback::Values { comment, karma, bug_feedback, testcase_feedback } => {
            if comment.is_none() && karma == Karma::Neutral && bug_feedback.len() == 0
                && testcase_feedback.len() == 0 {
                Ok(Effect::Continue)
            } else {
                Ok(
                    Effect::Submit(
                        NewComment {
                            alias: update.alias.as_str(),
                            karma,
                            text: comment,
                            bug_feedback,
                            testcase_feedback,
                        },
                    ),
                )
            }
        },
    }
}

/// What is said when feedback is applied; nothing for values, of which the
/// submission speaks for itself.
pub open spec fn announcement_for(feedback: FeedbackView) -> Option<Seq<char>> {
    match feedback {
        FeedbackView::Abort => Some("Aborting."@),
        FeedbackView::Ignore => Some("Ignoring."@),
        FeedbackView::Block => Some("Permanently ignoring all packages from this update."@),
        FeedbackView::Skip => Some("Skipping."@),
        FeedbackView::Values { .. } => None,
    }
}

/// What is said when feedback is applied.
pub fn announcement(feedback: &Feedback) -> (text: Option<&'static str>)
    ensures
        match text {
            Some(text) => announcement_for(feedback@) == Some(text@),
            None => announcement_for(feedback@) is None,
        },
{
    match feedback {
        Feedback::Abort => Some("Aborting."),
        Feedback::Ignore => Some("Ignoring."),
        Feedback::Block => Some("Permanently ignoring all packages from this update."),
        Feedback::Skip => Some("Skipping."),
        Feedback::Values { .. } => None,
    }
}

/// The progress at the update at position `number`: how many updates came
/// before and how many there are, what `user` has said of the update
/// before, and whether the update is among the ignored ones.
pub fn progress_at(
    updates: &Vec<&Update>,
    number: usize,
    user: &str,
    ignored: &IgnoreLists,
) -> (progress: Progress)
    requires
        number < updates.len(),
    ensures
        progress.considered() == number,
        progress.total() == updates.len(),
        progress.considered() < progress.total(),
        progress.commented() == prior_feedback_of(*updates[number as int], user@).0,
        progress.reset() == prior_feedback_of(*updates[number as int], user@).1,
        progress.ignored() == ignored.updates().contains(updates[number as int].alias@),
{
    let update = updates[number];
    let (prev_commented, karma_reset) = has_already_commented(update, user);
    let prev_ignored = contains_text(&ignored.ignored_updates, update.alias.as_str());
    Progress::new(number, updates.len(), prev_commented, karma_reset, prev_ignored)
}

/// How a review ended.
#[derive(Debug)]
pub enum ReviewEnd {
    /// every update was gone through
    Completed,
    /// the tester aborted
    Aborted,
    /// an error ended the review
    Failed(String),
}

/// The contents of a `ReviewEnd`.
pub enum ReviewEndView {
    Completed,
    Aborted,
    Failed(Seq<char>),
}

impl View for ReviewEnd {
    type V = ReviewEndView;

    open spec fn view(&self) -> ReviewEndView {
        match *self {
            ReviewEnd::Completed => ReviewEndView::Completed,
            ReviewEnd::Aborted => ReviewEndView::Aborted,
            ReviewEnd::Failed(msg) => ReviewEndView::Failed(msg@),
        }
    }
}

/// What a review came to.
#[derive(Debug)]
pub struct ReviewLog<'a> {
    /// the number of updates that the review went through, the one at which
    /// it ended included
    pub visited: usize,
    /// the comments that are to be submitted, in the order of their updates
    pub submissions: Vec<NewComment<'a>>,
    /// how the review ended
    pub end: ReviewEnd,
}

/// What a review comes to: the ignore lists after it, the comments that are
/// to be submitted, the number of updates it went through, and how it ended.
pub struct Outcome {
    pub ignored: IgnoreState,
    pub submissions: Seq<NewCommentView>,
    pub visited: nat,
    pub end: ReviewEndView,
}

/// The contents of a list of comments.
pub open spec fn comment_views(comments: Seq<NewComment>) -> Seq<NewCommentView> {
    comments.map_values(|c: NewComment| c@)
}

/// The contents of a list of feedback.
pub open spec fn feedback_views(script: Seq<Feedback>) -> Seq<FeedbackView> {
    script.map_values(|f: Feedback| f@)
}

/// The outcome `rest` of reviewing the updates after the first, as the
/// outcome of reviewing them all, where the first update gave `first` to
/// submit.
pub open spec fn after(first: Seq<NewCommentView>, rest: Outcome) -> Outcome {
    Outcome {
        ignored: rest.ignored,
        submissions: first + rest.submissions,
        visited: rest.visited + 1,
        end: rest.end,
    }
}

/// The answers that are left after the first one was given.
pub open spec fn answers_left(script: Seq<FeedbackView>) -> Seq<FeedbackView> {
    if script.len() > 0 {
        script.skip(1)
    } else {
        script
    }
}

/// The answer that is given next: the first of the script, or a skip where
/// the script has run out.
pub open spec fn next_answer(script: Seq<FeedbackView>) -> FeedbackView {
    if script.len() > 0 {
        script[0]
    } else {
        FeedbackView::Skip
    }
}

/// What the review of `updates` comes to, where the tester's feedback on
/// the updates that are presented is `script`, in order.
///
/// The updates are gone through in order. An update that is passed over
/// takes no feedback. Each other update takes the next feedback, which is
/// applied as `step` says. The review ends with the last update, with the
/// first abort, or with the first error.
pub open spec fn review_outcome(
    updates: Seq<Update>,
    user: Seq<char>,
    check_commented: bool,
    ignored: IgnoreState,
    script: Seq<FeedbackView>,
) -> Outcome
    decreases updates.len(),
{
    if updates.len() == 0 {
        Outcome { ignored, submissions: Seq::empty(), visited: 0, end: ReviewEndView::Completed }
    } else if passed_over(updates[0], user, check_commented) {
        after(
            Seq::empty(),
            review_outcome(updates.skip(1), user, check_commented, ignored, script),
        )
    } else {
        match step(ignored, updates[0], next_answer(script)) {
            Err(message) => Outcome {
                ignored,
                submissions: Seq::empty(),
                visited: 1,
                end: ReviewEndView::Failed(message),
            },
            Ok((state, EffectView::Stop)) => Outcome {
                ignored: state,
                submissions: Seq::empty(),
                visited: 1,
                end: ReviewEndView::Aborted,
            },
            Ok((state, EffectView::Continue)) => after(
                Seq::empty(),
                review_outcome(updates.skip(1), user, check_commented, state, answers_left(script)),
            ),
            Ok((state, EffectView::Submit(comment))) => after(
                seq![comment],
                review_outcome(updates.skip(1), user, check_commented, state, answers_left(script)),
            ),
        }
    }
}

/// A review goes through no more updates than there are, and through all of
/// them unless it is aborted or fails.
pub proof fn lemma_review_visits(
    updates: Seq<Update>,
    user: Seq<char>,
    check_commented: bool,
    ignored: IgnoreState,
    script: Seq<FeedbackView>,
)
    ensures
        review_outcome(updates, user, check_commented, ignored, script).visited <= updates.len(),
        review_outcome(updates, user, check_commented, ignored, script).end
            is Completed ==> review_outcome(
            updates,
            user,
            check_commented,
            ignored,
            script,
        ).visited == updates.len(),
        !(review_outcome(updates, user, check_commented, ignored, script).end
            is Completed) ==> review_outcome(
            updates,
            user,
            check_commented,
            ignored,
            script,
        ).visited >= 1,
    decreases updates.len(),
{
    if updates.len() > 0 {
        let rest = updates.skip(1);
        if passed_over(updates[0], user, check_commented) {
            lemma_review_visits(rest, user, check_commented, ignored, script);
        } else {
            match step(ignored, updates[0], next_answer(script)) {
                Ok((state, EffectView::Continue)) => {
                    lemma_review_visits(rest, user, check_commented, state, answers_left(script));
                },
                Ok((state, EffectView::Submit(_))) => {
                    lemma_review_visits(rest, user, check_commented, state, answers_left(script));
                },
                _ => {},
            }
        }
    }
}

/// What comes after the update at which a review was aborted, or at which
/// it failed, has no part in the review: with any other updates in their
/// place the ignore lists and the comments to submit are the same.
pub proof fn lemma_rest_untouched(
    updates: Seq<Update>,
    other: Seq<Update>,
    user: Seq<char>,
    check_commented: bool,
    ignored: IgnoreState,
    script: Seq<FeedbackView>,
)
    requires
        !(review_outcome(updates, user, check_commented, ignored, script).end is Completed),
        review_outcome(updates, user, check_commented, ignored, script).visited <= other.len(),
        other.take(
            review_outcome(updates, user, check_commented, ignored, script).visited as int,
        ) == updates.take(
            review_outcome(updates, user, check_commented, ignored, script).visited as int,
        ),
    ensures
        review_outcome(other, user, check_commented, ignored, script) == review_outcome(
            updates,
            user,
            check_commented,
            ignored,
            script,
        ),
    decreases updates.len(),
{
    let outcome = review_outcome(updates, user, check_commented, ignored, script);
    let k = outcome.visited as int;
    lemma_review_visits(updates, user, check_commented, ignored, script);
    assert(updates.len() > 0);
    assert(other.take(k)[0] == updates.take(k)[0]);
    assert(other[0] == updates[0]);
    let rest = updates.skip(1);
    let other_rest = other.skip(1);
    if passed_over(updates[0], user, check_commented) {
        let inner = review_outcome(rest, user, check_commented, ignored, script);
        assert(other_rest.take(k - 1) =~= other.take(k).skip(1));
        assert(rest.take(k - 1) =~= updates.take(k).skip(1));
        lemma_rest_untouched(rest, other_rest, user, check_commented, ignored, script);
    } else {
        match step(ignored, updates[0], next_answer(script)) {
            Ok((state, EffectView::Continue)) => {
                assert(other_rest.take(k - 1) =~= other.take(k).skip(1));
                assert(rest.take(k - 1) =~= updates.take(k).skip(1));
                lemma_rest_untouched(
                    rest,
                    other_rest,
                    user,
                    check_commented,
                    state,
                    answers_left(script),
                );
            },
            Ok((state, EffectView::Submit(_))) => {
                assert(other_rest.take(k - 1) =~= other.take(k).skip(1));
                assert(rest.take(k - 1) =~= updates.take(k).skip(1));
                lemma_rest_untouched(
                    rest,
                    other_rest,
                    user,
                    check_commented,
                    state,
                    answers_left(script),
                );
            },
            _ => {},
        }
    }
}

/// Every comment that a review gives to submit is for one of the updates
/// that the review went through.
pub proof fn lemma_submissions_are_visited(
    updates: Seq<Update>,
    user: Seq<char>,
    check_commented: bool,
    ignored: IgnoreState,
    script: Seq<FeedbackView>,
    s: int,
)
    requires
        0 <= s < review_outcome(updates, user, check_commented, ignored, script).submissions.len(),
    ensures
        exists|i: int|
            0 <= i < review_outcome(updates, user, check_commented, ignored, script).visited
                && i < updates.len() && (#[trigger] updates[i]).alias@ == review_outcome(
                updates,
                user,
                check_commented,
                ignored,
                script,
            ).submissions[s].alias,
    decreases updates.len(),
{
    let outcome = review_outcome(updates, user, check_commented, ignored, script);
    let rest = updates.skip(1);
    if passed_over(updates[0], user, check_commented) {
        let inner = review_outcome(rest, user, check_commented, ignored, script);
        assert(outcome.submissions =~= inner.submissions);
        lemma_submissions_are_visited(rest, user, check_commented, ignored, script, s);
        let i = choose|i: int|
            0 <= i < inner.visited && i < rest.len() && (#[trigger] rest[i]).alias@
                == inner.submissions[s].alias;
        assert(updates[i + 1] == rest[i]);
    } else {
        match step(ignored, updates[0], next_answer(script)) {
            Ok((state, EffectView::Continue)) => {
                let inner = review_outcome(rest, user, check_commented, state, answers_left(script));
                assert(outcome.submissions =~= inner.submissions);
                lemma_submissions_are_visited(
                    rest,
                    user,
                    check_commented,
                    state,
                    answers_left(script),
                    s,
                );
                let i = choose|i: int|
                    0 <= i < inner.visited && i < rest.len() && (#[trigger] rest[i]).alias@
                        == inner.submissions[s].alias;
                assert(updates[i + 1] == rest[i]);
            },
            Ok((state, EffectView::Submit(comment))) => {
                let inner = review_outcome(rest, user, check_commented, state, answers_left(script));
                if s == 0 {
                    assert(updates[0].alias@ == comment.alias);
                } else {
                    assert(outcome.submissions[s] == inner.submissions[s - 1]);
                    lemma_submissions_are_visited(
                        rest,
                        user,
                        check_commented,
                        state,
                        answers_left(script),
                        s - 1,
                    );
                    let i = choose|i: int|
                        0 <= i < inner.visited && i < rest.len() && (#[trigger] rest[i]).alias@
                            == inner.submissions[s - 1].alias;
                    assert(updates[i + 1] == rest[i]);
                }
            },
            _ => {},
        }
    }
}

/// The outcome `rest` of reviewing the updates from position `n` on, as the
/// outcome of reviewing them all, where the updates before gave `done` to
/// submit.
pub open spec fn after_all(done: Seq<NewCommentView>, n: nat, rest: Outcome) -> Outcome {
    Outcome {
        ignored: rest.ignored,
        submissions: done + rest.submissions,
        visited: n + rest.visited,
        end: rest.end,
    }
}

/// Goes through the updates with the tester's feedback at hand: `script`
/// holds the feedback on the updates that are presented, in order; where
/// it runs out, the remaining updates are skipped.
///
/// The ignore lists are changed as the feedback asks. The comments that the
/// feedback gives are collected for submission: whether a submission
/// succeeds has no part in the review.
pub fn review<'a>(
    updates: &Vec<&'a Update>,
    user: &str,
    check_commented: bool,
    ignored: &mut IgnoreLists,
    script: Vec<Feedback<'a>>,
) -> (log: ReviewLog<'a>)
    ensures
        (Outcome {
            ignored: final(ignored)@,
            submissions: comment_views(log.submissions@),
            visited: log.visited as nat,
            end: log.end@,
        }) == review_outcome(
            updates_of(updates@),
            user@,
            check_commented,
            old(ignored)@,
            feedback_views(script@),
        ),
{
    let ghost all = updates_of(updates@);
    let ghost goal = review_outcome(
        all,
        user@,
        check_commented,
        ignored@,
        feedback_views(script@),
    );
    let mut answers = script;
    let mut submissions: Vec<NewComment<'a>> = Vec::new();
    let mut i: usize = 0;
    proof {
        assert(all.skip(0) =~= all);
        assert(comment_views(submissions@) =~= Seq::empty());
        assert(goal.submissions =~= Seq::<NewCommentView>::empty() + goal.submissions);
    }
    while i < updates.len()
        invariant
            i <= updates.len(),
            all == updates_of(updates@),
            goal == review_outcome(
                all,
                user@,
                check_commented,
                old(ignored)@,
                feedback_views(script@),
            ),
            goal == after_all(
                comment_views(submissions@),
                i as nat,
                review_outcome(
                    all.skip(i as int),
                    user@,
                    check_commented,
                    ignored@,
                    feedback_views(answers@),
                ),
            ),
        decreases updates.len() - i,
    {
        let update = updates[i];
        let ghost done = comment_views(submissions@);
        let ghost left = feedback_views(answers@);
        let ghost state = ignored@;
        proof {
            assert(all.skip(i as int)[0] == *update);
            assert(all.skip(i as int).skip(1) =~= all.skip(i + 1));
        }
        if skip_without_asking(update, user, check_commented) {
            proof {
                let rest = review_outcome(all.skip(i + 1), user@, check_commented, state, left);
                assert(Seq::<NewCommentView>::empty() + rest.submissions =~= rest.submissions);
            }
            i += 1;
            continue ;
        }
        let feedback = if answers.len() > 0 {
            answers.remove(0)
        } else {
            Feedback::Skip
        };
        proof {
            assert(feedback@ == next_answer(left));
            assert(feedback_views(answers@) =~= answers_left(left));
        }
        match apply_feedback(ignored, update, feedback) {
            Err(msg) => {
                proof {
                    assert(done + Seq::<NewCommentView>::empty() =~= done);
                }
                return ReviewLog { visited: i + 1, submissions, end: ReviewEnd::Failed(msg) };
            },
            Ok(Effect::Stop) => {
                proof {
                    assert(done + Seq::<NewCommentView>::empty() =~= done);
                }
                return ReviewLog { visited: i + 1, submissions, end: ReviewEnd::Aborted };
            },
            Ok(Effect::Continue) => {
                proof {
                    let rest = review_outcome(
                        all.skip(i + 1),
                        user@,
                        check_commented,
                        ignored@,
                        feedback_views(answers@),
                    );
                    assert(Seq::<NewCommentView>::empty() + rest.submissions =~= rest.submissions);
                }
            },
            Ok(Effect::Submit(comment)) => {
                let ghost c = comment@;
                submissions.push(comment);
                proof {
                    let rest = review_outcome(
                        all.skip(i + 1),
                        user@,
                        check_commented,
                        ignored@,
                        feedback_views(answers@),
                    );
                    assert(comment_views(submissions@) =~= done.push(c));
                    assert(done + (seq![c] + rest.submissions) =~= done.push(c)
                        + rest.submissions);
                }
            },
        }
        i += 1;
    }
    proof {
        assert(all.skip(i as int) =~= Seq::<Update>::empty());
        assert(comment_views(submissions@) + Seq::<NewCommentView>::empty() =~= comment_views(
            submissions@,
        ));
    }
    ReviewLog { visited: i, submissions, end: ReviewEnd::Completed }
}

} // verus!
