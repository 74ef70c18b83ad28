//! The order in which updates are reviewed, and what the tester has said
//! about an update before.

use vstd::prelude::*;
use crate::ignore::has_alias;
use crate::text::{lemma_lex_less_total, lemma_lex_less_transitive, lex_less, str_eq, str_less, to_chars};
use crate::update::{aliases_of, updates_of, Comment, Karma, Update};

verus! {

/// Whether `a` was submitted strictly before `b`. An update without a
/// submission date counts as submitted before every update that has one.
pub open spec fn submitted_before(a: Update, b: Update) -> bool {
    match (a.date_submitted, b.date_submitted) {
        (None, Some(_)) => true,
        (Some(x), Some(y)) => x.seconds < y.seconds,
        _ => false,
    }
}

/// Whether `a` is reviewed strictly before `b`: it was submitted earlier,
/// or at the same time and its alias comes first.
pub open spec fn reviewed_before(a: Update, b: Update) -> bool {
    submitted_before(a, b) || (!submitted_before(b, a) && lex_less(a.alias@, b.alias@))
}

/// Whether no update before `updates[k]` has its alias.
pub open spec fn first_with_alias(updates: Seq<Update>, k: int) -> bool {
    forall|j: int| 0 <= j < k ==> (#[trigger] updates[j]).alias@ != updates[k].alias@
}

/// Whether `u` is one of the first `bound` updates, and the first of them
/// with its alias.
pub open spec fn first_occurrence(updates: Seq<Update>, bound: int, u: Update) -> bool {
    exists|k: int|
        0 <= k < bound && k < updates.len() && #[trigger] updates[k] == u && first_with_alias(
            updates,
            k,
        )
}

/// Whether `ordered` is in review order.
pub open spec fn in_review_order(ordered: Seq<Update>) -> bool {
    forall|i: int, j: int| 0 <= i < j < ordered.len() ==> reviewed_before(ordered[i], ordered[j])
}

/// Whether no two of `updates` have the same alias.
pub open spec fn distinct_aliases(updates: Seq<Update>) -> bool {
    forall|i: int, j: int|
        0 <= i < updates.len() && 0 <= j < updates.len() && i != j ==> (#[trigger] updates[i]).alias@
            != (#[trigger] updates[j]).alias@
}

/// Of two updates with different aliases exactly one is reviewed before the
/// other.
pub proof fn lemma_review_order_total(a: Update, b: Update)
    requires
        a.alias@ != b.alias@,
    ensures
        reviewed_before(a, b) <==> !reviewed_before(b, a),
{
    lemma_lex_less_total(a.alias@, b.alias@);
}

/// The review order is transitive.
pub proof fn lemma_review_order_transitive(a: Update, b: Update, c: Update)
    requires
        reviewed_before(a, b),
        reviewed_before(b, c),
    ensures
        reviewed_before(a, c),
{
    if !submitted_before(a, b) && !submitted_before(b, c) {
        lemma_lex_less_transitive(a.alias@, b.alias@, c.alias@);
    }
}

/// Whether `a` is reviewed before `b`.
pub fn comes_before(a: &Update, b: &Update) -> (res: bool)
    ensures
        res == reviewed_before(*a, *b),
{
    match (&a.date_submitted, &b.date_submitted) {
        (None, Some(_)) => true,
        (Some(_), None) => false,
        (None, None) => str_less(a.alias.as_str(), b.alias.as_str()),
        (Some(x), Some(y)) => {
            if x.seconds < y.seconds {
                true
            } else if y.seconds < x.seconds {
                false
            } else {
                str_less(a.alias.as_str(), b.alias.as_str())
            }
        },
    }
}

/// Puts the matched updates into review order: of the updates that share
/// an alias the first one stays, and the updates are ordered by their date
/// of submission, oldest first, those of one date by their alias.
pub fn deduplicate_and_sort<'a>(survivors: Vec<&'a Update>) -> (ordered: Vec<&'a Update>)
    ensures
        in_review_order(updates_of(ordered@)),
        distinct_aliases(updates_of(ordered@)),
        forall|i: int|
            0 <= i < ordered.len() ==> first_occurrence(
                updates_of(survivors@),
                survivors.len() as int,
                #[trigger] updates_of(ordered@)[i],
            ),
        forall|k: int|
            0 <= k < survivors.len() ==> aliases_of(updates_of(ordered@)).contains(
                (#[trigger] updates_of(survivors@)[k]).alias@,
            ),
{
    let ghost all = updates_of(survivors@);
    let mut ordered: Vec<&Update> = Vec::new();
    let mut k: usize = 0;
    while k < survivors.len()
        invariant
            k <= survivors.len(),
            all == updates_of(survivors@),
            in_review_order(updates_of(ordered@)),
            distinct_aliases(updates_of(ordered@)),
            forall|i: int|
                0 <= i < ordered.len() ==> first_occurrence(
                    all,
                    k as int,
                    #[trigger] updates_of(ordered@)[i],
                ),
            forall|j: int|
                0 <= j < k ==> aliases_of(updates_of(ordered@)).contains(
                    (#[trigger] all[j]).alias@,
                ),
        decreases survivors.len() - k,
    {
        let update = survivors[k];
        let ghost before = updates_of(ordered@);
        if !has_alias(&ordered, update.alias.as_str()) {
            let mut p: usize = 0;
            while p < ordered.len() && !comes_before(update, ordered[p])
                invariant
                    p <= ordered.len(),
                    before == updates_of(ordered@),
                    forall|q: int| 0 <= q < p ==> !reviewed_before(*update, #[trigger] before[q]),
                decreases ordered.len() - p,
            {
                p += 1;
            }
            ordered.insert(p, update);
            proof {
                let after = updates_of(ordered@);
                assert(after =~= before.insert(p as int, *update));
                assert forall|q: int| 0 <= q < before.len() implies (#[trigger] before[q]).alias@
                    != update.alias@ by {
                    assert(aliases_of(before)[q] == before[q].alias@);
                }
                assert(first_with_alias(all, k as int)) by {
                    assert forall|j: int| 0 <= j < k implies (#[trigger] all[j]).alias@
                        != all[k as int].alias@ by {
                        assert(aliases_of(before).contains(all[j].alias@));
                    }
                }
                assert forall|i: int, j: int| 0 <= i < j < after.len() implies reviewed_before(
                    after[i],
                    after[j],
                ) by {
                    if j < p {
                        assert(after[i] == before[i] && after[j] == before[j]);
                    } else if j == p {
                        assert(after[i] == before[i]);
                        lemma_review_order_total(before[i], *update);
                    } else if i == p {
                        assert(after[j] == before[j - 1]);
                        if j - 1 > p {
                            lemma_review_order_transitive(*update, before[p as int], before[j - 1]);
                        }
                    } else if i < p {
                        assert(after[i] == before[i] && after[j] == before[j - 1]);
                    } else {
                        assert(after[i] == before[i - 1] && after[j] == before[j - 1]);
                    }
                }
                assert forall|i: int, j: int|
                    0 <= i < after.len() && 0 <= j < after.len() && i != j implies (
                #[trigger] after[i]).alias@ != (#[trigger] after[j]).alias@ by {
                    let bi = if i < p { i } else { i - 1 };
                    let bj = if j < p { j } else { j - 1 };
                    if i != p && j != p {
                        assert(after[i] == before[bi] && after[j] == before[bj]);
                    } else if i == p {
                        assert(after[j] == before[bj]);
                    } else {
                        assert(after[i] == before[bi]);
                    }
                }
                assert forall|i: int| 0 <= i < after.len() implies first_occurrence(
                    all,
                    k + 1,
                    #[trigger] after[i],
                ) by {
                    if i == p {
                        assert(all[k as int] == *update);
                    } else {
                        let bi = if i < p { i } else { i - 1 };
                        assert(after[i] == before[bi]);
                        assert(first_occurrence(all, k as int, before[bi]));
                    }
                }
                assert forall|j: int| 0 <= j < k + 1 implies aliases_of(after).contains(
                    (#[trigger] all[j]).alias@,
                ) by {
                    if j < k {
                        assert(aliases_of(before).contains(all[j].alias@));
                        let q = choose|q: int|
                            0 <= q < before.len() && aliases_of(before)[q] == all[j].alias@;
                        let aq = if q < p { q } else { q + 1 };
                        assert(after[aq] == before[q]);
                        assert(aliases_of(after)[aq] == all[j].alias@);
                    } else {
                        assert(aliases_of(after)[p as int] == all[j].alias@);
                    }
                }
            }
        } else {
            proof {
                assert forall|i: int| 0 <= i < before.len() implies first_occurrence(
                    all,
                    k + 1,
                    #[trigger] before[i],
                ) by {
                    assert(first_occurrence(all, k as int, before[i]));
                }
            }
        }
        k += 1;
    }
    ordered
}


/// Whether `pattern` occurs in `text` as a run of characters.
pub open spec fn has_subtext(text: Seq<char>, pattern: Seq<char>) -> bool {
    exists|i: int|
        0 <= i && i + pattern.len() <= text.len() && #[trigger] text.subrange(
            i,
            i + pattern.len(),
        ) == pattern
}

/// Whether a comment is feedback of `user`: written by that user, with
/// karma that is not neutral.
pub open spec fn is_own_feedback(comment: Comment, user: Seq<char>) -> bool {
    comment.user@ == user && comment.karma != Karma::Neutral
}

/// Whether a comment is the update server's note that karma was reset.
pub open spec fn is_karma_reset(comment: Comment) -> bool {
    comment.user@ == "bodhi"@ && has_subtext(comment.text@, "Karma"@) && has_subtext(
        comment.text@,
        "reset"@,
    )
}

/// What the comments say of earlier feedback by `user`, as a pair: whether
/// the user has commented, and whether karma was reset since. The last
/// comment that is a reset or feedback of the user decides: after a reset
/// nothing counts as commented, after feedback nothing counts as reset.
pub open spec fn prior_feedback(comments: Seq<Comment>, user: Seq<char>) -> (bool, bool)
    decreases comments.len(),
{
    if comments.len() == 0 {
        (false, false)
    } else if is_karma_reset(comments.last()) {
        (false, true)
    } else if is_own_feedback(comments.last(), user) {
        (true, false)
    } else {
        prior_feedback(comments.drop_last(), user)
    }
}

/// What the comments of an update say of earlier feedback by `user`.
pub open spec fn prior_feedback_of(update: Update, user: Seq<char>) -> (bool, bool) {
    match update.comments {
        Some(comments) => prior_feedback(comments@, user),
        None => (false, false),
    }
}

/// Whether an update is passed over without a question: the user has
/// commented on it, karma was not reset since, and updates with comments
/// were not asked for.
pub open spec fn passed_over(update: Update, user: Seq<char>, check_commented: bool) -> bool {
    !check_commented && prior_feedback_of(update, user).0 && !prior_feedback_of(update, user).1
}

/// An update never counts as both commented on and reset.
pub proof fn lemma_prior_feedback_exclusive(comments: Seq<Comment>, user: Seq<char>)
    ensures
        !(prior_feedback(comments, user).0 && prior_feedback(comments, user).1),
    decreases comments.len(),
{
    if comments.len() > 0 {
        lemma_prior_feedback_exclusive(comments.drop_last(), user);
    }
}

/// Whether `pattern` stands in `text` at position `at`.
fn matches_at(text: &Vec<char>, pattern: &Vec<char>, at: usize) -> (res: bool)
    requires
        at + pattern.len() <= text.len(),
    ensures
        res == (text@.subrange(at as int, at + pattern.len()) == pattern@),
{
    let mut k: usize = 0;
    while k < pattern.len()
        invariant
            k <= pattern.len(),
            at + pattern.len() <= text.len(),
            forall|j: int| 0 <= j < k ==> text@[at + j] == pattern@[j],
        decreases pattern.len() - k,
    {
        if text[at + k] != pattern[k] {
            proof {
                assert(text@.subrange(at as int, at + pattern.len())[k as int] == text@[at + k]);
            }
            return false;
        }
        k += 1;
    }
    proof {
        assert(text@.subrange(at as int, at + pattern.len()) =~= pattern@);
    }
    true
}

/// Whether `pattern` occurs in `text`.
pub fn contains_subtext(text: &Vec<char>, pattern: &Vec<char>) -> (res: bool)
    ensures
        res == has_subtext(text@, pattern@),
{
    if pattern.len() > text.len() {
        return false;
    }
    let last = text.len() - pattern.len();
    let mut i: usize = 0;
    while i < last
        invariant
            i <= last,
            last == text.len() - pattern.len(),
            pattern.len() <= text.len(),
            forall|k: int| 0 <= k < i ==> #[trigger] text@.subrange(k, k + pattern.len()) != pattern@,
        decreases last - i,
    {
        if matches_at(text, pattern, i) {
            return true;
        }
        i += 1;
    }
    matches_at(text, pattern, last)
}

/// Whether a comment is the update server's note that karma was reset.
fn comment_is_reset(comment: &Comment) -> (res: bool)
    ensures
        res == is_karma_reset(*comment),
{
    if !str_eq(comment.user.as_str(), "bodhi") {
        return false;
    }
    let text = to_chars(comment.text.as_str());
    let karma = to_chars("Karma");
    let reset = to_chars("reset");
    contains_subtext(&text, &karma) && contains_subtext(&text, &reset)
}

/// Says whether `user` has commented on the update before, and whether
/// karma was reset since, going by the comments in the order in which the
/// update lists them.
pub fn has_already_commented(update: &Update, user: &str) -> (res: (bool, bool))
    ensures
        res == prior_feedback_of(*update, user@),
{
    if let Some(comments) = update.comments.as_ref() {
        let mut already_commented = false;
        let mut reset = false;
        let mut i: usize = 0;
        while i < comments.len()
            invariant
                i <= comments.len(),
                (already_commented, reset) == prior_feedback(comments@.take(i as int), user@),
            decreases comments.len() - i,
        {
            let comment = &comments[i];
            proof {
                assert(comments@.take(i + 1).drop_last() =~= comments@.take(i as int));
                assert(comments@.take(i + 1).last() == *comment);
            }
            // user has commented, so karma reset either never happened or happened before the comment
            if str_eq(comment.user.as_str(), user) && comment.karma != Karma::Neutral {
                already_commented = true;
                reset = false;
            }
            // bodhi has reset karma, so old comments can be disregarded
            if comment_is_reset(comment) {
                already_commented = false;
                reset = true;
            }
            i += 1;
        }
        proof {
            assert(comments@.take(i as int) =~= comments@);
        }
        (already_commented, reset)
    } else {
        (false, false)
    }
}

/// Whether an update is passed over without a question.
pub fn skip_without_asking(update: &Update, user: &str, check_commented: bool) -> (res: bool)
    ensures
        res == passed_over(*update, user@, check_commented),
{
    let (prev_commented, karma_reset) = has_already_commented(update, user);
    !check_commented && prev_commented && !karma_reset
}


/// The updates that `user` did not submit, in their order.
pub open spec fn by_others(updates: Seq<Update>, user: Seq<char>) -> Seq<Update>
    decreases updates.len(),
{
    if updates.len() == 0 {
        Seq::empty()
    } else if updates.last().user@ == user {
        by_others(updates.drop_last(), user)
    } else {
        by_others(updates.drop_last(), user).push(updates.last())
    }
}

/// Drops the updates that `user` submitted: nobody gives feedback on an
/// update of their own.
pub fn relevant_updates(updates: Vec<Update>, user: &str) -> (relevant: Vec<Update>)
    ensures
        relevant@ == by_others(updates@, user@),
{
    let mut relevant: Vec<Update> = Vec::new();
    let ghost all = updates@;
    for update in it: updates
        invariant
            it.seq() == all,
            relevant@ == by_others(all.take(it.index()), user@),
    {
        proof {
            assert(all.take(it.index() + 1).drop_last() =~= all.take(it.index()));
        }
        if !str_eq(update.user.as_str(), user) {
            relevant.push(update);
        }
    }
    proof {
        assert(all.take(all.len() as int) =~= all);
    }
    relevant
}

} // verus!
