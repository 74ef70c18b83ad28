use fedora_update_feedback::{
    filter_blocked, filter_ignored, legacy_ignore_lists, load_ignore_lists, packages_in_update,
    IgnoreLists, Update,
};

fn update(alias: &str, builds: &[&str]) -> Update {
    Update {
        alias: alias.to_string(),
        title: String::new(),
        notes: String::new(),
        builds: builds.iter().map(|b| b.to_string()).collect(),
        update_type: String::from("bugfix"),
        date_submitted: None,
        date_pushed: None,
        user: String::from("packager"),
        karma: None,
        stable_karma: None,
        unstable_karma: None,
        bugs: Vec::new(),
        test_cases: None,
        comments: None,
    }
}

fn lists(updates: &[&str], packages: &[&str]) -> IgnoreLists {
    IgnoreLists {
        ignored_updates: updates.iter().map(|s| s.to_string()).collect(),
        ignored_packages: packages.iter().map(|s| s.to_string()).collect(),
    }
}

fn aliases(updates: &[&Update]) -> Vec<String> {
    updates.iter().map(|u| u.alias.clone()).collect()
}

#[test]
fn default_lists_are_empty() {
    let ignored = IgnoreLists::default();
    assert!(ignored.ignored_updates.is_empty());
    assert!(ignored.ignored_packages.is_empty());
}

#[test]
fn pruning_drops_what_is_no_longer_offered() {
    let a = update("FEDORA-2020-a", &[]);
    let c = update("FEDORA-2020-c", &[]);
    let mut ignored = lists(&["FEDORA-2020-c", "FEDORA-2019-x", "FEDORA-2020-a", "FEDORA-2019-y"], &["dnf"]);
    ignored.prune(&vec![&a, &c, &a]);
    assert_eq!(ignored.ignored_updates, vec!["FEDORA-2020-c", "FEDORA-2020-a"]);
    assert_eq!(ignored.ignored_packages, vec!["dnf"]);
}

#[test]
fn pruning_twice_is_pruning_once() {
    let a = update("FEDORA-2020-a", &[]);
    let b = update("FEDORA-2020-b", &[]);
    let survivors = vec![&a, &b];
    let mut ignored = lists(&["FEDORA-2020-b", "stale", "FEDORA-2020-b", "other"], &[]);
    ignored.prune(&survivors);
    let once = ignored.ignored_updates.clone();
    ignored.prune(&survivors);
    assert_eq!(ignored.ignored_updates, once);
    assert_eq!(once, vec!["FEDORA-2020-b", "FEDORA-2020-b"]);
}

#[test]
fn pruning_against_nothing_drops_everything() {
    let mut ignored = lists(&["FEDORA-2020-a"], &["dnf"]);
    ignored.prune(&Vec::new());
    assert!(ignored.ignored_updates.is_empty());
    assert_eq!(ignored.ignored_packages, vec!["dnf"]);
}

#[test]
fn package_names_of_an_update() {
    let a = update("FEDORA-2020-a", &["dnf-4.2.18-2.fc32", "python3-dnf-plugins-core-4.0.16-1.fc32"]);
    assert_eq!(packages_in_update(&a).unwrap(), vec!["dnf", "python3-dnf-plugins-core"]);
    let broken = update("FEDORA-2020-b", &["dnf-4.2.18-2.fc32", "nodashes", "also"]);
    assert_eq!(
        packages_in_update(&broken).unwrap_err(),
        "Unexpected error when parsing NEVRAs: nodashes"
    );
    assert!(packages_in_update(&update("FEDORA-2020-c", &[])).unwrap().is_empty());
}

#[test]
fn an_update_of_ignored_packages_alone_is_not_offered() {
    let blocked = update("FEDORA-2020-a", &["dnf-4.2.18-2.fc32", "vim-8.2-1.fc32"]);
    let partly = update("FEDORA-2020-b", &["dnf-4.2.18-2.fc32", "maven-3.6.1-5.fc32"]);
    let free = update("FEDORA-2020-c", &["bash-5.0-1.fc32"]);
    let ignored = lists(&[], &["vim", "dnf"]);
    let kept = filter_blocked(vec![&blocked, &partly, &free], &ignored).unwrap();
    assert_eq!(aliases(&kept), vec!["FEDORA-2020-b", "FEDORA-2020-c"]);
}

#[test]
fn an_update_without_builds_counts_as_blocked() {
    let empty = update("FEDORA-2020-a", &[]);
    let kept = filter_blocked(vec![&empty], &lists(&[], &[])).unwrap();
    assert!(kept.is_empty());
}

#[test]
fn blocking_fails_on_a_malformed_build() {
    let fine = update("FEDORA-2020-a", &["dnf-4.2.18-2.fc32"]);
    let broken = update("FEDORA-2020-b", &["nodashes"]);
    let result = filter_blocked(vec![&fine, &broken], &lists(&[], &["dnf"]));
    assert_eq!(result.unwrap_err(), "Unexpected error when parsing NEVRAs: nodashes");
}

#[test]
fn ignored_updates_are_dropped_unless_asked_for() {
    let a = update("FEDORA-2020-a", &[]);
    let b = update("FEDORA-2020-b", &[]);
    let ignored = lists(&["FEDORA-2020-a"], &[]);
    assert_eq!(aliases(&filter_ignored(vec![&a, &b], &ignored, false)), vec!["FEDORA-2020-b"]);
    assert_eq!(
        aliases(&filter_ignored(vec![&a, &b], &ignored, true)),
        vec!["FEDORA-2020-a", "FEDORA-2020-b"]
    );
}

#[test]
fn an_ignored_update_is_added_and_the_list_sorted() {
    let mut ignored = lists(&["FEDORA-2020-c", "FEDORA-2020-a"], &["z", "a"]);
    ignored.add_ignored_update("FEDORA-2020-b");
    assert_eq!(ignored.ignored_updates, vec!["FEDORA-2020-a", "FEDORA-2020-b", "FEDORA-2020-c"]);
    assert_eq!(ignored.ignored_packages, vec!["z", "a"]);
    // an alias that is ignored already is not added again
    ignored.add_ignored_update("FEDORA-2020-b");
    assert_eq!(ignored.ignored_updates, vec!["FEDORA-2020-a", "FEDORA-2020-b", "FEDORA-2020-c"]);
}

#[test]
fn ignoring_makes_the_list_a_set() {
    let mut ignored = lists(&["FEDORA-2020-c", "FEDORA-2020-a", "FEDORA-2020-c"], &[]);
    ignored.add_ignored_update("FEDORA-2020-a");
    assert_eq!(ignored.ignored_updates, vec!["FEDORA-2020-a", "FEDORA-2020-c"]);
    let mut ignored = lists(&[], &[]);
    ignored.add_ignored_update("FEDORA-2020-a");
    assert_eq!(ignored.ignored_updates, vec!["FEDORA-2020-a"]);
}

#[test]
fn ignored_packages_are_added_and_the_list_sorted() {
    let mut ignored = lists(&["u2", "u1"], &["vim", "bash"]);
    ignored.add_ignored_packages(vec![String::from("dnf"), String::from("zsh"), String::from("bash")]);
    assert_eq!(ignored.ignored_packages, vec!["bash", "dnf", "vim", "zsh"]);
    assert_eq!(ignored.ignored_updates, vec!["u2", "u1"]);
    // a name that is given twice is added once
    ignored.add_ignored_packages(vec![String::from("ant"), String::from("ant")]);
    assert_eq!(ignored.ignored_packages, vec!["ant", "bash", "dnf", "vim", "zsh"]);
    ignored.add_ignored_packages(Vec::new());
    assert_eq!(ignored.ignored_packages, vec!["ant", "bash", "dnf", "vim", "zsh"]);
}

#[test]
fn one_package_is_added_once() {
    let mut ignored = lists(&["u2", "u1"], &["vim", "bash"]);
    assert!(ignored.add_ignored_package("dnf"));
    assert_eq!(ignored.ignored_packages, vec!["bash", "dnf", "vim"]);
    assert_eq!(ignored.ignored_updates, vec!["u2", "u1"]);
    assert!(!ignored.add_ignored_package("dnf"));
    assert_eq!(ignored.ignored_packages, vec!["bash", "dnf", "vim"]);
    assert_eq!(ignored.ignored_updates, vec!["u2", "u1"]);
}

#[test]
fn one_package_is_removed_wherever_it_stands() {
    let mut ignored = lists(&["u2", "u1"], &["vim", "dnf", "bash", "dnf"]);
    assert!(ignored.remove_ignored_package("dnf"));
    assert_eq!(ignored.ignored_packages, vec!["vim", "bash"]);
    assert_eq!(ignored.ignored_updates, vec!["u2", "u1"]);
    assert!(!ignored.remove_ignored_package("dnf"));
    assert_eq!(ignored.ignored_packages, vec!["vim", "bash"]);
}

#[test]
fn a_legacy_document_lists_ignored_updates() {
    let ignored = legacy_ignore_lists("alias-1\nalias-2");
    assert_eq!(ignored.ignored_updates, vec!["alias-1", "alias-2"]);
    assert!(ignored.ignored_packages.is_empty());
}

#[test]
fn empty_lines_of_a_legacy_document_are_passed_over() {
    let ignored = legacy_ignore_lists("\n  alias-1\n\nalias-2 \nalias-3\n\n");
    assert_eq!(ignored.ignored_updates, vec!["alias-1", "alias-2 ", "alias-3"]);
    assert!(legacy_ignore_lists("").ignored_updates.is_empty());
    assert!(legacy_ignore_lists(" \n ").ignored_updates.is_empty());
}

#[test]
fn a_structured_document_wins_over_the_text() {
    let parsed = lists(&["FEDORA-2020-a"], &["dnf"]);
    let ignored = load_ignore_lists(Some(parsed), "alias-1\nalias-2");
    assert_eq!(ignored.ignored_updates, vec!["FEDORA-2020-a"]);
    assert_eq!(ignored.ignored_packages, vec!["dnf"]);
    let ignored = load_ignore_lists(None, "alias-1\nalias-2");
    assert_eq!(ignored.ignored_updates, vec!["alias-1", "alias-2"]);
    assert!(ignored.ignored_packages.is_empty());
}

#[test]
fn the_lists_as_text() {
    assert_eq!(
        lists(&["FEDORA-2020-a", "FEDORA-2020-b"], &[]).listing(),
        vec!["Ignored updates:", "- FEDORA-2020-a", "- FEDORA-2020-b", "", "Ignored packages: none", ""]
    );
    assert_eq!(
        lists(&[], &["dnf"]).listing(),
        vec!["Ignored updates: none", "", "Ignored packages:", "- dnf", ""]
    );
}
