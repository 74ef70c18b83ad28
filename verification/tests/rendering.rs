use fedora_update_feedback::output::{
    banner_text, bug_part, comment_part, comments_to_show, heading_part, karma_total,
    package_part, repeat_char, stable_karma, table_part, test_case_part, text2, text3, text_len,
    title_rule_text,
};
use fedora_update_feedback::wrap::{indented_block, wrapped_block};
use fedora_update_feedback::{
    duration_until_now, pretty_duration, proper_plural, render_update, Bug, BuildIndex, Comment,
    InstallTimes, Karma, TestCase, Timestamp, Update,
};

fn comment(user: &str, karma: Karma, text: &str, seconds: i64) -> Comment {
    Comment {
        user: user.to_string(),
        karma,
        text: text.to_string(),
        timestamp: Timestamp { seconds, text: format!("T{}", seconds) },
    }
}

fn sample() -> Update {
    Update {
        alias: String::from("FEDORA-2020-a"),
        title: String::from("dnf-4.2.18-2.fc32"),
        notes: String::from("  Fixes things.\n"),
        builds: vec![String::from("dnf-4.2.18-2.fc32")],
        update_type: String::from("bugfix"),
        date_submitted: Some(Timestamp { seconds: 1588327200, text: String::from("2020-05-01 10:00:00") }),
        date_pushed: None,
        user: String::from("packager"),
        karma: Some(2),
        stable_karma: Some(3),
        unstable_karma: Some(-3),
        bugs: vec![
            Bug {
                bug_id: 1234,
                title: Some(String::from("  crash on start ")),
                url: String::from("https://bugzilla.redhat.com/show_bug.cgi?id=1234"),
            },
            Bug {
                bug_id: 5,
                title: None,
                url: String::from("https://bugzilla.redhat.com/show_bug.cgi?id=5"),
            },
        ],
        test_cases: Some(vec![TestCase {
            name: String::from("QA:Testcase dnf"),
            url: String::from("https://fedoraproject.org/wiki/QA:Testcase_dnf"),
        }]),
        comments: Some(vec![
            comment("bodhi", Karma::Neutral, "This update has been submitted for testing.", 5),
            comment("alice", Karma::Positive, " works \n", 20),
            comment("bob", Karma::Negative, "", 10),
        ]),
    }
}

fn summaries() -> BuildIndex {
    let mut index = BuildIndex::new();
    index.insert(String::from("dnf"), String::from("Package manager"));
    index
}

fn times() -> InstallTimes {
    let mut times = InstallTimes::new();
    times.record(String::from("dnf-4.2.18-2.fc32.noarch"), 1000);
    times
}

#[test]
fn a_number_with_its_unit() {
    assert_eq!(proper_plural(1, "day"), "1 day");
    assert_eq!(proper_plural(-1, "day"), "-1 day");
    assert_eq!(proper_plural(0, "day"), "0 days");
    assert_eq!(proper_plural(2, "hour"), "2 hours");
    assert_eq!(proper_plural(-7, "minute"), "-7 minutes");
}

#[test]
fn a_length_of_time_in_words() {
    assert_eq!(pretty_duration(0), "less than a minute");
    assert_eq!(pretty_duration(59), "less than a minute");
    assert_eq!(pretty_duration(60), "1 minute");
    assert_eq!(pretty_duration(119), "1 minute");
    assert_eq!(pretty_duration(120), "2 minutes");
    assert_eq!(pretty_duration(3599), "59 minutes");
    assert_eq!(pretty_duration(3600), "1 hour and 0 minutes");
    assert_eq!(pretty_duration(7322), "2 hours and 2 minutes");
    assert_eq!(pretty_duration(86399), "23 hours and 59 minutes");
    assert_eq!(pretty_duration(86400), "1 day and 0 hours");
    assert_eq!(pretty_duration(90061), "1 day and 1 hour");
    assert_eq!(pretty_duration(200000), "2 days and 7 hours");
}

#[test]
fn time_that_has_passed() {
    assert_eq!(duration_until_now(100, 40), 60);
    assert_eq!(duration_until_now(40, 100), 0);
    assert_eq!(duration_until_now(40, 40), 0);
    assert_eq!(duration_until_now(i64::MAX, i64::MIN), u64::MAX);
    assert_eq!(duration_until_now(-5, -10), 5);
}

#[test]
fn small_pieces_of_text() {
    assert_eq!(text2("a", "b"), "ab");
    assert_eq!(text3("a", "", "c"), "ac");
    assert_eq!(repeat_char('#', 3), "###");
    assert_eq!(repeat_char('#', 0), "");
    assert_eq!(text_len("aé"), 3);
    assert_eq!(karma_total(Some(-2)), "-2");
    assert_eq!(karma_total(None), "?");
    assert_eq!(stable_karma(Some(3)), "+3");
    assert_eq!(stable_karma(Some(0)), "0");
    assert_eq!(stable_karma(Some(-1)), "-1");
    assert_eq!(stable_karma(None), "?");
}

#[test]
fn the_banner_centres_the_alias() {
    let bar = "#".repeat(30);
    assert_eq!(
        banner_text("FEDORA-2020-a", 30),
        format!("{}\n##      FEDORA-2020-a       ##\n{}", bar, bar)
    );
    let bar = "#".repeat(19);
    assert_eq!(banner_text("FEDORA-2020-a", 19), format!("{}\n## FEDORA-2020-a ##\n{}", bar, bar));
    let bar = "#".repeat(18);
    assert_eq!(banner_text("FEDORA-2020-a", 18), format!("{}\nFEDORA-2020-a\n{}", bar, bar));
    assert_eq!(banner_text("", 6), "######\n##  ##\n######");
}

#[test]
fn the_rule_is_as_long_as_the_title() {
    assert_eq!(title_rule_text("title", 80), "-----");
    assert_eq!(title_rule_text("title", 5), "-----");
    assert_eq!(title_rule_text("title", 3), "---");
    assert_eq!(title_rule_text("", 3), "");
}

#[test]
fn text_is_wrapped_and_indented() {
    assert_eq!(
        wrapped_block("Memory safety without garbage collection.", 15),
        "  Memory safety\n  without garbage\n  collection."
    );
    assert_eq!(indented_block("First line.\n\n\nSecond line.\n"), "  First line.\n\n\n  Second line.\n");
    assert_eq!(indented_block(""), "");
    assert_eq!(indented_block("a\n \nb"), "  a\n \n  b");
}

#[test]
fn the_heading_without_a_width() {
    assert_eq!(
        heading_part(&sample(), None),
        vec!["## FEDORA-2020-a ##", "", "dnf-4.2.18-2.fc32", "", "  Fixes things.\n"]
    );
}

#[test]
fn the_heading_with_a_width() {
    let mut update = sample();
    update.title = String::from("Memory safety without garbage collection.");
    let bar = "#".repeat(16);
    assert_eq!(
        heading_part(&update, Some(16)),
        vec![
            format!("{}\nFEDORA-2020-a\n{}", bar, bar),
            String::new(),
            String::from("Memory safety\nwithout garbage\ncollection."),
            "-".repeat(16),
            String::new(),
            String::from("Fixes things."),
        ]
    );
}

#[test]
fn the_table_of_properties() {
    assert_eq!(
        table_part(&sample()),
        vec![
            "URL:            https://bodhi.fedoraproject.org/updates/FEDORA-2020-a",
            "Update type:    bugfix",
            "Submitted:      2020-05-01 10:00:00",
            "Pushed:         (not yet pushed)",
            "Submitter:      packager",
            "Karma:          2",
            "Stable karma:   +3",
            "Unstable karma: -3",
        ]
    );
    let mut update = sample();
    update.date_submitted = None;
    update.date_pushed = Some(Timestamp { seconds: 0, text: String::from("2020-05-02 00:00:00") });
    update.karma = None;
    let table = table_part(&update);
    assert_eq!(table[2], "Submitted:      (None)");
    assert_eq!(table[3], "Pushed:         2020-05-02 00:00:00");
    assert_eq!(table[5], "Karma:          ?");
}

#[test]
fn bugs_and_test_cases() {
    assert_eq!(
        bug_part(&sample().bugs, None),
        vec![
            "Associated bugs:",
            "- https://bugzilla.redhat.com/show_bug.cgi?id=1234",
            "    crash on start ",
            "- https://bugzilla.redhat.com/show_bug.cgi?id=5",
            "",
        ]
    );
    assert_eq!(
        bug_part(&sample().bugs, Some(12)),
        vec![
            "Associated bugs:",
            "- https://bugzilla.redhat.com/show_bug.cgi?id=1234",
            "  crash on\n  start",
            "- https://bugzilla.redhat.com/show_bug.cgi?id=5",
            "",
        ]
    );
    assert!(bug_part(&Vec::new(), None).is_empty());
    assert_eq!(
        test_case_part(&sample().test_cases),
        vec!["Associated test cases:", "- https://fedoraproject.org/wiki/QA:Testcase_dnf", ""]
    );
    assert!(test_case_part(&None).is_empty());
    assert!(test_case_part(&Some(Vec::new())).is_empty());
}

#[test]
fn installed_packages_with_summary_and_time() {
    let builds = vec!["dnf-4.2.18-2.fc32.noarch", "vim-8.2-1.fc32.x86_64"];
    assert_eq!(
        package_part(&builds, &summaries(), &times(), 1000 + 90061).unwrap(),
        vec![
            "- dnf-4.2.18-2.fc32.noarch",
            "  Package manager",
            "  installed 1 day and 1 hour ago",
            "- vim-8.2-1.fc32.x86_64",
        ]
    );
    assert_eq!(
        package_part(&builds, &BuildIndex::new(), &times(), 0).unwrap(),
        vec!["- dnf-4.2.18-2.fc32.noarch", "  installed less than a minute ago", "- vim-8.2-1.fc32.x86_64"]
    );
    assert_eq!(
        package_part(&vec!["dnf-4.2.18-2.fc32.noarch", "nodashes"], &summaries(), &times(), 0).unwrap_err(),
        "Failed to parse build NVR: nodashes"
    );
}

#[test]
fn comments_of_others_in_the_order_of_their_time() {
    let comments = vec![
        comment("late", Karma::Neutral, "c", 30),
        comment("bodhi", Karma::Neutral, "d", 1),
        comment("first", Karma::Neutral, "a", 10),
        comment("second", Karma::Neutral, "b", 10),
        comment("early", Karma::Neutral, "e", 2),
    ];
    let shown: Vec<&str> = comments_to_show(&comments).iter().map(|c| c.user.as_str()).collect();
    assert_eq!(shown, vec!["early", "first", "second", "late"]);
}

#[test]
fn the_part_on_comments() {
    assert_eq!(
        comment_part(&sample().comments, None),
        vec!["", "Previous comments:", "- bob (T10): -1", "", "- alice (T20): +1", "works"]
    );
    assert_eq!(
        comment_part(&sample().comments, Some(80)),
        vec!["", "Previous comments:", "- bob (T10): -1", "- alice (T20): +1", "  works"]
    );
    assert!(comment_part(&None, None).is_empty());
    let by_server = Some(vec![comment("bodhi", Karma::Neutral, "pushed", 1)]);
    assert!(comment_part(&by_server, None).is_empty());
    let neutral = Some(vec![comment("carol", Karma::Neutral, "note", 1)]);
    assert_eq!(comment_part(&neutral, None)[2], "- carol (T1): ±0");
}

#[test]
fn an_update_in_full_without_a_width() {
    let lines = render_update(
        &sample(),
        &vec!["dnf-4.2.18-2.fc32.noarch"],
        &summaries(),
        &times(),
        None,
        1000 + 90061,
    )
    .unwrap();
    assert_eq!(
        lines,
        vec![
            "",
            "## FEDORA-2020-a ##",
            "",
            "dnf-4.2.18-2.fc32",
            "",
            "  Fixes things.\n",
            "",
            "URL:            https://bodhi.fedoraproject.org/updates/FEDORA-2020-a",
            "Update type:    bugfix",
            "Submitted:      2020-05-01 10:00:00",
            "Pushed:         (not yet pushed)",
            "Submitter:      packager",
            "Karma:          2",
            "Stable karma:   +3",
            "Unstable karma: -3",
            "",
            "Associated bugs:",
            "- https://bugzilla.redhat.com/show_bug.cgi?id=1234",
            "    crash on start ",
            "- https://bugzilla.redhat.com/show_bug.cgi?id=5",
            "",
            "Associated test cases:",
            "- https://fedoraproject.org/wiki/QA:Testcase_dnf",
            "",
            "Locally installed packages contained in this update:",
            "- dnf-4.2.18-2.fc32.noarch",
            "  Package manager",
            "  installed 1 day and 1 hour ago",
            "",
            "Previous comments:",
            "- bob (T10): -1",
            "",
            "- alice (T20): +1",
            "works",
            "",
        ]
    );
}

#[test]
fn an_update_in_full_with_a_width() {
    let mut update = sample();
    update.bugs = Vec::new();
    update.test_cases = None;
    update.comments = None;
    let lines = render_update(&update, &Vec::new(), &summaries(), &times(), Some(30), 0).unwrap();
    let bar = "#".repeat(30);
    assert_eq!(
        lines,
        vec![
            String::new(),
            format!("{}\n##      FEDORA-2020-a       ##\n{}", bar, bar),
            String::new(),
            String::from("dnf-4.2.18-2.fc32"),
            "-".repeat(17),
            String::new(),
            String::from("Fixes things."),
            String::new(),
            String::from("URL:            https://bodhi.fedoraproject.org/updates/FEDORA-2020-a"),
            String::from("Update type:    bugfix"),
            String::from("Submitted:      2020-05-01 10:00:00"),
            String::from("Pushed:         (not yet pushed)"),
            String::from("Submitter:      packager"),
            String::from("Karma:          2"),
            String::from("Stable karma:   +3"),
            String::from("Unstable karma: -3"),
            String::new(),
            String::from("Locally installed packages contained in this update:"),
            String::new(),
        ]
    );
}

#[test]
fn an_update_with_a_malformed_build_is_not_rendered() {
    let result = render_update(&sample(), &vec!["nodashes"], &summaries(), &times(), None, 0);
    assert_eq!(result.unwrap_err(), "Failed to parse build NVR: nodashes");
}

#[test]
fn the_line_of_a_progress_bar() {
    assert_eq!(
        fedora_update_feedback::progress_line("Updates (testing)", 3, 5, 37),
        " Updates (testing): [ ===      ]  37% "
    );
    assert_eq!(fedora_update_feedback::progress_line("p", 0, 0, 0), " p: [  ]   0% ");
    assert_eq!(fedora_update_feedback::progress_line("p", 2, 0, 100), " p: [ == ] 100% ");
    assert_eq!(fedora_update_feedback::progress_line("p", 1, 1, 1234), " p: [ =  ] 1234% ");
    assert_eq!(
        fedora_update_feedback::progress_line("Updates", 3, 5, 37),
        format!(" {}: [ {}{} ] {:>3}% ", "Updates", "=".repeat(3), " ".repeat(5), 37)
    );
}
