use fedora_update_feedback::{
    action_for_key, action_menu, apply_feedback, comment_from_editor_output, has_already_commented,
    parse_action, review, skip_without_asking, str_to_karma, Action, Bug, Comment, Dialogue, Effect,
    Feedback, IgnoreLists, Karma, Progress, Prompt, ReviewEnd, TestCase, Timestamp, Turn, Update,
};

fn comment(user: &str, karma: Karma, text: &str) -> Comment {
    Comment {
        user: user.to_string(),
        karma,
        text: text.to_string(),
        timestamp: Timestamp { seconds: 0, text: String::from("1970-01-01 00:00:00") },
    }
}

fn update(alias: &str, builds: &[&str]) -> Update {
    Update {
        alias: alias.to_string(),
        title: String::new(),
        notes: String::new(),
        builds: builds.iter().map(|b| b.to_string()).collect(),
        update_type: String::from("bugfix"),
        date_submitted: None,
        date_pushed: None,
        user: String::from("packager"),
        karma: None,
        stable_karma: None,
        unstable_karma: None,
        bugs: Vec::new(),
        test_cases: None,
        comments: None,
    }
}

fn with_comments(comments: Vec<Comment>) -> Update {
    let mut u = update("FEDORA-2020-a", &["dnf-4.2.18-2.fc32"]);
    u.comments = Some(comments);
    u
}

fn with_bugs_and_cases(bugs: &[u32], cases: Option<&[&str]>) -> Update {
    let mut u = update("FEDORA-2020-a", &["dnf-4.2.18-2.fc32"]);
    u.bugs = bugs
        .iter()
        .map(|id| Bug { bug_id: *id, title: None, url: format!("https://bugs/{}", id) })
        .collect();
    u.test_cases = cases.map(|names| {
        names
            .iter()
            .map(|n| TestCase { name: n.to_string(), url: format!("https://wiki/{}", n) })
            .collect()
    });
    u
}

fn ask(turn: Turn) -> Dialogue {
    match turn {
        Turn::Ask(dialogue) => dialogue,
        Turn::Done(feedback) => panic!("the questioning ended with {:?}", feedback),
    }
}

fn done(turn: Turn) -> Feedback {
    match turn {
        Turn::Done(feedback) => feedback,
        Turn::Ask(dialogue) => panic!("the questioning goes on with {:?}", dialogue.prompt()),
    }
}

fn empty_lists() -> IgnoreLists {
    IgnoreLists { ignored_updates: Vec::new(), ignored_packages: Vec::new() }
}

const RESET: &str = "This update's Karma has been reset.";

#[test]
fn karma_values_are_read_as_the_server_writes_them() {
    assert_eq!(str_to_karma("+1"), Some(Karma::Positive));
    assert_eq!(str_to_karma("1"), Some(Karma::Positive));
    assert_eq!(str_to_karma("0"), Some(Karma::Neutral));
    assert_eq!(str_to_karma("±0"), Some(Karma::Neutral));
    assert_eq!(str_to_karma("-1"), Some(Karma::Negative));
    assert_eq!(str_to_karma(""), None);
    assert_eq!(str_to_karma("+2"), None);
    assert_eq!(str_to_karma(" 1"), None);
    assert_eq!(str_to_karma("yes"), None);
}

#[test]
fn a_key_stands_for_an_action() {
    assert_eq!(action_for_key("s"), Action::Skip);
    assert_eq!(action_for_key("i"), Action::Ignore);
    assert_eq!(action_for_key("c"), Action::Comment);
    assert_eq!(action_for_key("a"), Action::Abort);
    assert_eq!(action_for_key("b"), Action::Block);
    assert_eq!(action_for_key(""), Action::Skip);
    assert_eq!(action_for_key("x"), Action::Skip);
    assert_eq!(action_for_key("ii"), Action::Skip);
    assert_eq!(action_for_key("I"), Action::Skip);
}

#[test]
fn the_case_of_an_answer_does_not_count() {
    assert_eq!(parse_action("I"), Action::Ignore);
    assert_eq!(parse_action("C"), Action::Comment);
    assert_eq!(parse_action("A"), Action::Abort);
    assert_eq!(parse_action("B"), Action::Block);
    assert_eq!(parse_action("S"), Action::Skip);
    assert_eq!(parse_action("b"), Action::Block);
    assert_eq!(parse_action("no"), Action::Skip);
}

#[test]
fn text_of_white_space_is_no_comment() {
    assert_eq!(comment_from_editor_output(String::from("")), None);
    assert_eq!(comment_from_editor_output(String::from(" \n\t\n")), None);
    assert_eq!(
        comment_from_editor_output(String::from("\nworks for me\n")),
        Some(String::from("\nworks for me\n"))
    );
}

#[test]
fn without_comments_nothing_was_said() {
    assert_eq!(has_already_commented(&update("FEDORA-2020-a", &[]), "tester"), (false, false));
    assert_eq!(has_already_commented(&with_comments(Vec::new()), "tester"), (false, false));
}

#[test]
fn feedback_of_the_user_counts_as_commented() {
    let u = with_comments(vec![
        comment("other", Karma::Positive, "fine"),
        comment("tester", Karma::Negative, "broken"),
    ]);
    assert_eq!(has_already_commented(&u, "tester"), (true, false));
    assert_eq!(has_already_commented(&u, "other"), (true, false));
    assert_eq!(has_already_commented(&u, "nobody"), (false, false));
}

#[test]
fn a_neutral_comment_is_no_feedback() {
    let u = with_comments(vec![comment("tester", Karma::Neutral, "just a note")]);
    assert_eq!(has_already_commented(&u, "tester"), (false, false));
}

#[test]
fn the_last_of_reset_and_feedback_decides() {
    let reset_last = with_comments(vec![
        comment("tester", Karma::Positive, "fine"),
        comment("bodhi", Karma::Neutral, RESET),
    ]);
    assert_eq!(has_already_commented(&reset_last, "tester"), (false, true));
    let feedback_last = with_comments(vec![
        comment("bodhi", Karma::Neutral, RESET),
        comment("tester", Karma::Positive, "fine"),
        comment("other", Karma::Positive, "fine too"),
    ]);
    assert_eq!(has_already_commented(&feedback_last, "tester"), (true, false));
    assert_eq!(has_already_commented(&feedback_last, "third"), (false, true));
}

#[test]
fn a_reset_is_a_note_of_the_server_with_both_words() {
    let by_user = with_comments(vec![comment("someone", Karma::Neutral, RESET)]);
    assert_eq!(has_already_commented(&by_user, "tester"), (false, false));
    let one_word = with_comments(vec![comment("bodhi", Karma::Neutral, "Karma is fine")]);
    assert_eq!(has_already_commented(&one_word, "tester"), (false, false));
    let other_case = with_comments(vec![comment("bodhi", Karma::Neutral, "karma has been reset")]);
    assert_eq!(has_already_commented(&other_case, "tester"), (false, false));
    let reversed = with_comments(vec![comment("bodhi", Karma::Neutral, "reset of Karma")]);
    assert_eq!(has_already_commented(&reversed, "tester"), (false, true));
}

#[test]
fn feedback_by_the_server_itself_that_is_a_reset_counts_as_reset() {
    let u = with_comments(vec![comment("bodhi", Karma::Positive, RESET)]);
    assert_eq!(has_already_commented(&u, "bodhi"), (false, true));
}

#[test]
fn updates_with_feedback_are_passed_over() {
    let commented = with_comments(vec![comment("tester", Karma::Positive, "fine")]);
    assert!(skip_without_asking(&commented, "tester", false));
    assert!(!skip_without_asking(&commented, "tester", true));
    assert!(!skip_without_asking(&commented, "other", false));
    let reset = with_comments(vec![
        comment("tester", Karma::Positive, "fine"),
        comment("bodhi", Karma::Neutral, RESET),
    ]);
    assert!(!skip_without_asking(&reset, "tester", false));
}

#[test]
fn progress_in_words() {
    let progress = Progress::new(2, 5, false, false, false);
    assert_eq!(progress.updates_considered(), 2);
    assert_eq!(progress.updates_remaining(), 2);
    assert_eq!(progress.lines(), vec!["Updates considered: 2, Updates remaining: 2"]);
    let progress = Progress::new(0, 1, true, false, true);
    assert!(progress.previously_commented());
    assert!(!progress.karma_was_reset());
    assert!(progress.previously_ignored());
    assert_eq!(
        progress.lines(),
        vec![
            "Updates considered: 0, Updates remaining: 0",
            "A comment for this update has already been submitted.",
            "Any feedback / karma that is provided now will overwrite previous values.",
            "This update has been previously marked as ignored.",
        ]
    );
    let progress = Progress::new(11, 12, true, true, false);
    assert_eq!(
        progress.lines(),
        vec![
            "Updates considered: 11, Updates remaining: 0",
            "A comment for this update has already been submitted.",
            "However, the update has since been edited, and karma has been reset.",
        ]
    );
}

#[test]
fn the_menu_names_five_actions() {
    let menu = action_menu();
    assert_eq!(menu.len(), 5);
    assert_eq!(menu[0], "Actions: [s] skip this update (default)");
    assert_eq!(menu[4], "       / [a] abort (exit program)");
}

#[test]
fn an_action_other_than_comment_ends_the_questioning() {
    let u = with_bugs_and_cases(&[1], Some(&["case"]));
    assert!(matches!(Dialogue::start(&u).prompt(), Prompt::Action));
    assert!(matches!(done(Dialogue::start(&u).answer(String::from("s"))), Feedback::Skip));
    assert!(matches!(done(Dialogue::start(&u).answer(String::from(""))), Feedback::Skip));
    assert!(matches!(done(Dialogue::start(&u).answer(String::from("i"))), Feedback::Ignore));
    assert!(matches!(done(Dialogue::start(&u).answer(String::from("B"))), Feedback::Block));
    assert!(matches!(done(Dialogue::start(&u).answer(String::from("a"))), Feedback::Abort));
}

#[test]
fn a_comment_is_asked_for_in_full() {
    let u = with_bugs_and_cases(&[101, 102], Some(&["first case", "second case"]));
    let d = ask(Dialogue::start(&u).answer(String::from("c")));
    assert_eq!(d.prompt(), Prompt::Comment);
    let d = ask(d.answer(String::from("works for me\n")));
    assert_eq!(d.prompt(), Prompt::Karma);
    let d = ask(d.answer(String::from("+1")));
    assert_eq!(d.prompt(), Prompt::Bug(0));
    let d = ask(d.answer(String::from("-1")));
    assert_eq!(d.prompt(), Prompt::Bug(1));
    let d = ask(d.answer(String::from("what?")));
    assert_eq!(d.prompt(), Prompt::TestCase(0));
    let d = ask(d.answer(String::from("")));
    assert_eq!(d.prompt(), Prompt::TestCase(1));
    match done(d.answer(String::from("0"))) {
        Feedback::Values { comment, karma, bug_feedback, testcase_feedback } => {
            assert_eq!(comment, Some(String::from("works for me\n")));
            assert_eq!(karma, Karma::Positive);
            assert_eq!(bug_feedback, vec![(101, Karma::Negative)]);
            assert_eq!(testcase_feedback, vec![("second case", Karma::Neutral)]);
        },
        other => panic!("unexpected feedback {:?}", other),
    }
}

#[test]
fn neither_comment_nor_karma_is_a_skip_at_once() {
    let u = with_bugs_and_cases(&[101], None);
    let d = ask(Dialogue::start(&u).answer(String::from("c")));
    let d = ask(d.answer(String::from("  \n")));
    assert!(matches!(done(d.answer(String::from("maybe"))), Feedback::Skip));
}

#[test]
fn karma_that_is_no_value_counts_as_neutral_beside_a_comment() {
    let u = with_bugs_and_cases(&[], None);
    let d = ask(Dialogue::start(&u).answer(String::from("c")));
    let d = ask(d.answer(String::from("a note")));
    match done(d.answer(String::from("maybe"))) {
        Feedback::Values { comment, karma, bug_feedback, testcase_feedback } => {
            assert_eq!(comment, Some(String::from("a note")));
            assert_eq!(karma, Karma::Neutral);
            assert!(bug_feedback.is_empty());
            assert!(testcase_feedback.is_empty());
        },
        other => panic!("unexpected feedback {:?}", other),
    }
}

#[test]
fn neutral_karma_alone_is_a_skip_in_the_end() {
    let u = with_bugs_and_cases(&[101], Some(&[]));
    let d = ask(Dialogue::start(&u).answer(String::from("c")));
    let d = ask(d.answer(String::new()));
    let d = ask(d.answer(String::from("0")));
    assert_eq!(d.prompt(), Prompt::Bug(0));
    assert!(matches!(done(d.answer(String::from("skip it"))), Feedback::Skip));
}

#[test]
fn karma_for_a_bug_alone_is_feedback() {
    let u = with_bugs_and_cases(&[101], None);
    let d = ask(Dialogue::start(&u).answer(String::from("c")));
    let d = ask(d.answer(String::new()));
    let d = ask(d.answer(String::from("0")));
    match done(d.answer(String::from("+1"))) {
        Feedback::Values { comment, karma, bug_feedback, testcase_feedback } => {
            assert_eq!(comment, None);
            assert_eq!(karma, Karma::Neutral);
            assert_eq!(bug_feedback, vec![(101, Karma::Positive)]);
            assert!(testcase_feedback.is_empty());
        },
        other => panic!("unexpected feedback {:?}", other),
    }
}

#[test]
fn a_skip_changes_nothing() {
    let u = update("FEDORA-2020-a", &["dnf-4.2.18-2.fc32"]);
    let mut ignored = IgnoreLists { ignored_updates: vec![String::from("z"), String::from("a")], ignored_packages: vec![String::from("y"), String::from("b")] };
    assert!(matches!(apply_feedback(&mut ignored, &u, Feedback::Skip), Ok(Effect::Continue)));
    assert_eq!(ignored.ignored_updates, vec!["z", "a"]);
    assert_eq!(ignored.ignored_packages, vec!["y", "b"]);
}

#[test]
fn ignoring_adds_the_alias() {
    let u = update("FEDORA-2020-m", &["dnf-4.2.18-2.fc32"]);
    let mut ignored = IgnoreLists { ignored_updates: vec![String::from("FEDORA-2020-z"), String::from("FEDORA-2020-a")], ignored_packages: vec![String::from("y"), String::from("b")] };
    assert!(matches!(apply_feedback(&mut ignored, &u, Feedback::Ignore), Ok(Effect::Continue)));
    assert_eq!(ignored.ignored_updates, vec!["FEDORA-2020-a", "FEDORA-2020-m", "FEDORA-2020-z"]);
    assert_eq!(ignored.ignored_packages, vec!["y", "b"]);
}

#[test]
fn blocking_adds_the_package_names() {
    let u = update("FEDORA-2020-m", &["vim-8.2-1.fc32", "dnf-4.2.18-2.fc32"]);
    let mut ignored = IgnoreLists { ignored_updates: vec![String::from("z"), String::from("a")], ignored_packages: vec![String::from("maven")] };
    assert!(matches!(apply_feedback(&mut ignored, &u, Feedback::Block), Ok(Effect::Continue)));
    assert_eq!(ignored.ignored_packages, vec!["dnf", "maven", "vim"]);
    assert_eq!(ignored.ignored_updates, vec!["z", "a"]);
}

#[test]
fn blocking_fails_on_a_malformed_build_and_changes_nothing() {
    let u = update("FEDORA-2020-m", &["vim-8.2-1.fc32", "nodashes"]);
    let mut ignored = IgnoreLists { ignored_updates: Vec::new(), ignored_packages: vec![String::from("maven")] };
    match apply_feedback(&mut ignored, &u, Feedback::Block) {
        Err(msg) => assert_eq!(msg, "Unexpected error when parsing NEVRAs: nodashes"),
        Ok(effect) => panic!("unexpected effect {:?}", effect),
    }
    assert_eq!(ignored.ignored_packages, vec!["maven"]);
}

#[test]
fn aborting_stops() {
    let u = update("FEDORA-2020-a", &[]);
    let mut ignored = empty_lists();
    assert!(matches!(apply_feedback(&mut ignored, &u, Feedback::Abort), Ok(Effect::Stop)));
}

#[test]
fn values_are_submitted() {
    let u = update("FEDORA-2020-a", &[]);
    let mut ignored = empty_lists();
    let feedback = Feedback::Values {
        comment: Some(String::from("fine")),
        karma: Karma::Positive,
        bug_feedback: vec![(7, Karma::Negative)],
        testcase_feedback: vec![("case", Karma::Positive)],
    };
    match apply_feedback(&mut ignored, &u, feedback) {
        Ok(Effect::Submit(comment)) => {
            assert_eq!(comment.alias, "FEDORA-2020-a");
            assert_eq!(comment.karma, Karma::Positive);
            assert_eq!(comment.text, Some(String::from("fine")));
            assert_eq!(comment.bug_feedback, vec![(7, Karma::Negative)]);
            assert_eq!(comment.testcase_feedback, vec![("case", Karma::Positive)]);
        },
        other => panic!("unexpected result {:?}", other),
    }
    assert!(ignored.ignored_updates.is_empty());
}

#[test]
fn values_that_say_nothing_are_a_skip() {
    let u = update("FEDORA-2020-a", &[]);
    let mut ignored = empty_lists();
    let nothing = Feedback::Values {
        comment: None,
        karma: Karma::Neutral,
        bug_feedback: Vec::new(),
        testcase_feedback: Vec::new(),
    };
    assert!(matches!(apply_feedback(&mut ignored, &u, nothing), Ok(Effect::Continue)));
    let bug_only = Feedback::Values {
        comment: None,
        karma: Karma::Neutral,
        bug_feedback: vec![(7, Karma::Positive)],
        testcase_feedback: Vec::new(),
    };
    assert!(matches!(apply_feedback(&mut ignored, &u, bug_only), Ok(Effect::Submit(_))));
    let karma_only = Feedback::Values {
        comment: None,
        karma: Karma::Negative,
        bug_feedback: Vec::new(),
        testcase_feedback: Vec::new(),
    };
    assert!(matches!(apply_feedback(&mut ignored, &u, karma_only), Ok(Effect::Submit(_))));
}

fn five_updates() -> Vec<Update> {
    vec![
        update("FEDORA-2020-1", &["a-1-1"]),
        update("FEDORA-2020-2", &["b-1-1"]),
        update("FEDORA-2020-3", &["c-1-1"]),
        update("FEDORA-2020-4", &["d-1-1"]),
        update("FEDORA-2020-5", &["e-1-1"]),
    ]
}

fn positive(text: &str) -> Feedback<'static> {
    Feedback::Values {
        comment: Some(text.to_string()),
        karma: Karma::Positive,
        bug_feedback: Vec::new(),
        testcase_feedback: Vec::new(),
    }
}

#[test]
fn abort_at_the_third_of_five_leaves_the_rest_untouched() {
    let updates = five_updates();
    let refs: Vec<&Update> = updates.iter().collect();
    let mut ignored = empty_lists();
    let script =
        vec![Feedback::Ignore, positive("fine"), Feedback::Abort, Feedback::Ignore, positive("late")];
    let log = review(&refs, "tester", false, &mut ignored, script);
    assert_eq!(log.visited, 3);
    assert!(matches!(log.end, ReviewEnd::Aborted));
    assert_eq!(ignored.ignored_updates, vec!["FEDORA-2020-1"]);
    assert!(ignored.ignored_packages.is_empty());
    assert_eq!(log.submissions.len(), 1);
    assert_eq!(log.submissions[0].alias, "FEDORA-2020-2");
    assert_eq!(log.submissions[0].text, Some(String::from("fine")));
}

#[test]
fn what_follows_an_abort_has_no_part_in_the_outcome() {
    let updates = five_updates();
    let all: Vec<&Update> = updates.iter().collect();
    let first_three: Vec<&Update> = updates.iter().take(3).collect();
    let script = || vec![Feedback::Block, Feedback::Ignore, Feedback::Abort, Feedback::Block];
    let mut ignored_all = empty_lists();
    let log_all = review(&all, "tester", false, &mut ignored_all, script());
    let mut ignored_three = empty_lists();
    let log_three = review(&first_three, "tester", false, &mut ignored_three, script());
    assert_eq!(log_all.visited, log_three.visited);
    assert_eq!(ignored_all.ignored_updates, ignored_three.ignored_updates);
    assert_eq!(ignored_all.ignored_packages, ignored_three.ignored_packages);
    assert_eq!(ignored_all.ignored_packages, vec!["a"]);
    assert_eq!(ignored_all.ignored_updates, vec!["FEDORA-2020-2"]);
    assert!(log_all.submissions.is_empty());
}

#[test]
fn a_review_without_abort_goes_through_every_update() {
    let updates = five_updates();
    let refs: Vec<&Update> = updates.iter().collect();
    let mut ignored = empty_lists();
    let script = vec![positive("one"), Feedback::Skip, Feedback::Ignore, Feedback::Block, positive("five")];
    let log = review(&refs, "tester", false, &mut ignored, script);
    assert_eq!(log.visited, 5);
    assert!(matches!(log.end, ReviewEnd::Completed));
    assert_eq!(ignored.ignored_updates, vec!["FEDORA-2020-3"]);
    assert_eq!(ignored.ignored_packages, vec!["d"]);
    let submitted: Vec<&str> = log.submissions.iter().map(|c| c.alias).collect();
    assert_eq!(submitted, vec!["FEDORA-2020-1", "FEDORA-2020-5"]);
}

#[test]
fn an_update_that_is_passed_over_takes_no_answer() {
    let mut updates = five_updates();
    updates[1].comments = Some(vec![comment("tester", Karma::Positive, "fine")]);
    let refs: Vec<&Update> = updates.iter().collect();
    let mut ignored = empty_lists();
    let script = vec![Feedback::Skip, Feedback::Ignore, Feedback::Abort];
    let log = review(&refs, "tester", false, &mut ignored, script);
    // the second update takes no answer, so the third is ignored and the fourth aborts
    assert_eq!(ignored.ignored_updates, vec!["FEDORA-2020-3"]);
    assert_eq!(log.visited, 4);
    assert!(matches!(log.end, ReviewEnd::Aborted));
    // with commented updates asked for, the second update takes the second answer
    let mut ignored = empty_lists();
    let script = vec![Feedback::Skip, Feedback::Ignore, Feedback::Abort];
    let log = review(&refs, "tester", true, &mut ignored, script);
    assert_eq!(ignored.ignored_updates, vec!["FEDORA-2020-2"]);
    assert_eq!(log.visited, 3);
}

#[test]
fn where_the_answers_run_out_the_updates_are_skipped() {
    let updates = five_updates();
    let refs: Vec<&Update> = updates.iter().collect();
    let mut ignored = empty_lists();
    let log = review(&refs, "tester", false, &mut ignored, vec![Feedback::Ignore]);
    assert_eq!(log.visited, 5);
    assert!(matches!(log.end, ReviewEnd::Completed));
    assert_eq!(ignored.ignored_updates, vec!["FEDORA-2020-1"]);
    assert!(log.submissions.is_empty());
}

#[test]
fn an_error_ends_the_review() {
    let mut updates = five_updates();
    updates[1].builds = vec![String::from("nodashes")];
    let refs: Vec<&Update> = updates.iter().collect();
    let mut ignored = empty_lists();
    let script = vec![Feedback::Ignore, Feedback::Block, Feedback::Ignore];
    let log = review(&refs, "tester", false, &mut ignored, script);
    assert_eq!(log.visited, 2);
    match log.end {
        ReviewEnd::Failed(msg) => assert_eq!(msg, "Unexpected error when parsing NEVRAs: nodashes"),
        other => panic!("unexpected end {:?}", other),
    }
    assert_eq!(ignored.ignored_updates, vec!["FEDORA-2020-1"]);
}

#[test]
fn progress_is_taken_from_the_list_and_the_comments() {
    let mut updates = five_updates();
    updates[2].comments = Some(vec![
        comment("tester", Karma::Positive, "fine"),
        comment("bodhi", Karma::Neutral, RESET),
    ]);
    let refs: Vec<&Update> = updates.iter().collect();
    let ignored = IgnoreLists {
        ignored_updates: vec![String::from("FEDORA-2020-3")],
        ignored_packages: Vec::new(),
    };
    let progress = fedora_update_feedback::progress_at(&refs, 2, "tester", &ignored);
    assert_eq!(progress.updates_considered(), 2);
    assert_eq!(progress.updates_remaining(), 2);
    assert!(!progress.previously_commented());
    assert!(progress.karma_was_reset());
    assert!(progress.previously_ignored());
    let progress = fedora_update_feedback::progress_at(&refs, 4, "tester", &ignored);
    assert_eq!(progress.updates_remaining(), 0);
    assert!(!progress.previously_ignored());
}

#[test]
fn what_is_said_when_feedback_is_applied() {
    assert_eq!(fedora_update_feedback::announcement(&Feedback::Abort), Some("Aborting."));
    assert_eq!(fedora_update_feedback::announcement(&Feedback::Ignore), Some("Ignoring."));
    assert_eq!(
        fedora_update_feedback::announcement(&Feedback::Block),
        Some("Permanently ignoring all packages from this update.")
    );
    assert_eq!(fedora_update_feedback::announcement(&Feedback::Skip), Some("Skipping."));
    assert_eq!(fedora_update_feedback::announcement(&positive("fine")), None);
}

#[test]
fn ignoring_an_ignored_update_keeps_its_alias_once() {
    let u = update("FEDORA-2020-m", &["dnf-4.2.18-2.fc32"]);
    let mut ignored = IgnoreLists {
        ignored_updates: vec![String::from("FEDORA-2020-a"), String::from("FEDORA-2020-m")],
        ignored_packages: Vec::new(),
    };
    assert!(matches!(apply_feedback(&mut ignored, &u, Feedback::Ignore), Ok(Effect::Continue)));
    assert_eq!(ignored.ignored_updates, vec!["FEDORA-2020-a", "FEDORA-2020-m"]);
}

#[test]
fn blocking_keeps_each_package_name_once() {
    let u = update("FEDORA-2020-m", &["dnf-4.2.18-2.fc32", "vim-8.2-1.fc32", "dnf-4.2.18-3.fc32"]);
    let mut ignored = IgnoreLists {
        ignored_updates: Vec::new(),
        ignored_packages: vec![String::from("maven"), String::from("vim")],
    };
    assert!(matches!(apply_feedback(&mut ignored, &u, Feedback::Block), Ok(Effect::Continue)));
    assert_eq!(ignored.ignored_packages, vec!["dnf", "maven", "vim"]);
}

#[test]
fn progress_holds_what_it_was_given() {
    let progress = Progress::new(7, 3, true, false, true);
    assert_eq!(progress.updates_considered(), 7);
    assert_eq!(progress.total_updates(), 3);
    assert!(progress.previously_commented());
    assert!(!progress.karma_was_reset());
    assert!(progress.previously_ignored());
    let progress = Progress::new(0, 0, false, true, false);
    assert_eq!(progress.updates_considered(), 0);
    assert_eq!(progress.total_updates(), 0);
    assert!(progress.karma_was_reset());
}

#[test]
fn cancelling_skips_the_update() {
    let u = with_bugs_and_cases(&[101], Some(&["case"]));
    assert!(matches!(Dialogue::start(&u).cancel(), Feedback::Skip));
    let d = ask(Dialogue::start(&u).answer(String::from("c")));
    assert_eq!(d.prompt(), Prompt::Comment);
    assert!(matches!(d.cancel(), Feedback::Skip));
    let d = ask(Dialogue::start(&u).answer(String::from("c")));
    let d = ask(d.answer(String::from("a comment")));
    let d = ask(d.answer(String::from("+1")));
    assert_eq!(d.prompt(), Prompt::Bug(0));
    assert!(matches!(d.cancel(), Feedback::Skip));
}

#[test]
fn a_cancelled_update_leaves_the_rest_to_be_asked() {
    let updates = five_updates();
    let refs: Vec<&Update> = updates.iter().collect();
    let mut ignored = empty_lists();
    let cancelled = Dialogue::start(&updates[1]).cancel();
    let script = vec![Feedback::Ignore, cancelled, Feedback::Ignore];
    let log = review(&refs, "tester", false, &mut ignored, script);
    assert_eq!(log.visited, 5);
    assert!(matches!(log.end, ReviewEnd::Completed));
    assert_eq!(ignored.ignored_updates, vec!["FEDORA-2020-1", "FEDORA-2020-3"]);
}
