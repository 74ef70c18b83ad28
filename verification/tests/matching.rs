use fedora_update_feedback::{
    binaries_of_update, deduplicate_and_sort, do_check_obsoletes, do_check_pending,
    do_check_unpushed, filter_installed_updates, relevant_updates, update_build_lines, BuildIndex,
    Command, FASConfig, FUFConfig, FedoraConfig, Timestamp, Update, NVR,
};

fn stamp(seconds: i64) -> Option<Timestamp> {
    Some(Timestamp { seconds, text: format!("t{}", seconds) })
}

fn update(alias: &str, builds: &[&str], submitted: Option<Timestamp>) -> Update {
    Update {
        alias: alias.to_string(),
        title: format!("title of {}", alias),
        notes: String::new(),
        builds: builds.iter().map(|b| b.to_string()).collect(),
        update_type: String::from("bugfix"),
        date_submitted: submitted,
        date_pushed: None,
        user: String::from("packager"),
        karma: None,
        stable_karma: None,
        unstable_karma: None,
        bugs: Vec::new(),
        test_cases: None,
        comments: None,
    }
}

fn installed(list: &[&str]) -> Vec<NVR> {
    list.iter().map(|s| NVR::try_from(*s).unwrap()).collect()
}

fn aliases(updates: &[&Update]) -> Vec<String> {
    updates.iter().map(|u| u.alias.clone()).collect()
}

fn command() -> Command {
    Command {
        username: None,
        check_obsoleted: false,
        check_pending: false,
        check_commented: false,
        check_ignored: false,
        check_unpushed: false,
        clear_ignored: false,
        ignore_keyring: false,
        add_ignored_package: None,
        remove_ignored_package: None,
        print_ignored: false,
        verbose: false,
    }
}

fn config(section: Option<FUFConfig>) -> FedoraConfig {
    FedoraConfig { fas: FASConfig { username: String::from("tester") }, fuf: section }
}

#[test]
fn matcher_keeps_updates_with_an_installed_build() {
    let updates = vec![
        update("FEDORA-2020-a", &["dnf-4.2.18-2.fc32"], stamp(10)),
        update("FEDORA-2020-b", &["maven-3.6.1-5.fc32"], stamp(20)),
        update("FEDORA-2020-c", &["vim-8.2-1.fc32", "dnf-4.2.18-2.fc32"], stamp(30)),
    ];
    let packages = installed(&["dnf-4.2.18-2.fc32", "bash-5.0-1.fc32"]);
    let mut index = BuildIndex::new();
    let matched = filter_installed_updates(&updates, &packages, &mut index).unwrap();
    assert_eq!(aliases(&matched), vec!["FEDORA-2020-a", "FEDORA-2020-c"]);
    assert_eq!(index.get("FEDORA-2020-a"), vec!["dnf-4.2.18-2.fc32"]);
    assert_eq!(index.get("FEDORA-2020-c"), vec!["dnf-4.2.18-2.fc32"]);
    assert!(index.get("FEDORA-2020-b").is_empty());
    assert!(!index.contains_key("FEDORA-2020-b"));
}

#[test]
fn matcher_keeps_an_update_once_for_each_installed_build() {
    let updates =
        vec![update("FEDORA-2020-a", &["dnf-4.2.18-2.fc32", "x-1-1", "vim-8.2-1.fc32"], stamp(10))];
    let packages = installed(&["vim-8.2-1.fc32", "dnf-4.2.18-2.fc32"]);
    let mut index = BuildIndex::new();
    let matched = filter_installed_updates(&updates, &packages, &mut index).unwrap();
    assert_eq!(aliases(&matched), vec!["FEDORA-2020-a", "FEDORA-2020-a"]);
    assert_eq!(index.get("FEDORA-2020-a"), vec!["dnf-4.2.18-2.fc32", "vim-8.2-1.fc32"]);
    assert!(index.contains_key("FEDORA-2020-a"));
}

#[test]
fn matcher_compares_name_version_and_release() {
    let updates = vec![update("FEDORA-2020-a", &["dnf-4.2.18-3.fc32"], stamp(10))];
    let packages = installed(&["dnf-4.2.18-2.fc32"]);
    let mut index = BuildIndex::new();
    let matched = filter_installed_updates(&updates, &packages, &mut index).unwrap();
    assert!(matched.is_empty());
}

#[test]
fn matcher_fails_on_a_malformed_build() {
    let updates = vec![
        update("FEDORA-2020-a", &["dnf-4.2.18-2.fc32"], stamp(10)),
        update("FEDORA-2020-b", &["vim-8.2-1.fc32", "broken", "worse"], stamp(20)),
    ];
    let packages = installed(&["dnf-4.2.18-2.fc32", "vim-8.2-1.fc32"]);
    let mut index = BuildIndex::new();
    let result = filter_installed_updates(&updates, &packages, &mut index);
    assert_eq!(result.unwrap_err(), "Unexpected error when parsing NEVRAs: broken");
    // what the updates before the failing one added is there
    assert_eq!(index.get("FEDORA-2020-a"), vec!["dnf-4.2.18-2.fc32"]);
    assert!(index.get("FEDORA-2020-b").is_empty());
}

#[test]
fn matcher_adds_to_an_index_that_holds_entries() {
    let updates = vec![update("FEDORA-2020-a", &["dnf-4.2.18-2.fc32"], stamp(10))];
    let packages = installed(&["dnf-4.2.18-2.fc32"]);
    let mut index = BuildIndex::new();
    index.insert(String::from("FEDORA-2020-a"), String::from("old-1-1"));
    filter_installed_updates(&updates, &packages, &mut index).unwrap();
    assert_eq!(index.get("FEDORA-2020-a"), vec!["old-1-1", "dnf-4.2.18-2.fc32"]);
    assert_eq!(index.last("FEDORA-2020-a"), Some("dnf-4.2.18-2.fc32"));
    assert_eq!(index.last("FEDORA-2020-z"), None);
}

#[test]
fn two_hits_with_one_alias_collapse_to_one_entry() {
    let a = update("FEDORA-2020-a", &["dnf-4.2.18-2.fc32"], stamp(10));
    let b = update("FEDORA-2020-b", &["vim-8.2-1.fc32"], stamp(5));
    let ordered = deduplicate_and_sort(vec![&a, &b, &a, &a, &b]);
    assert_eq!(aliases(&ordered), vec!["FEDORA-2020-b", "FEDORA-2020-a"]);
}

#[test]
fn updates_are_ordered_by_submission_then_alias() {
    let a = update("FEDORA-2020-d", &[], stamp(30));
    let b = update("FEDORA-2020-c", &[], stamp(10));
    let c = update("FEDORA-2020-b", &[], stamp(20));
    let d = update("FEDORA-2020-a", &[], stamp(20));
    let e = update("FEDORA-2020-e", &[], None);
    let ordered = deduplicate_and_sort(vec![&a, &b, &c, &d, &e]);
    assert_eq!(
        aliases(&ordered),
        vec!["FEDORA-2020-e", "FEDORA-2020-c", "FEDORA-2020-a", "FEDORA-2020-b", "FEDORA-2020-d"]
    );
}

#[test]
fn of_updates_with_one_alias_the_first_stays() {
    let first = update("FEDORA-2020-a", &["dnf-1-1"], stamp(30));
    let second = update("FEDORA-2020-a", &["vim-1-1"], stamp(10));
    let ordered = deduplicate_and_sort(vec![&first, &second]);
    assert_eq!(ordered.len(), 1);
    assert_eq!(ordered[0].builds, vec!["dnf-1-1"]);
}

#[test]
fn ordering_nothing_gives_nothing() {
    assert!(deduplicate_and_sort(Vec::new()).is_empty());
}

#[test]
fn updates_of_the_user_are_dropped() {
    let mut own = update("FEDORA-2020-a", &[], stamp(10));
    own.user = String::from("tester");
    let other = update("FEDORA-2020-b", &[], stamp(20));
    let mut own_too = update("FEDORA-2020-c", &[], stamp(30));
    own_too.user = String::from("tester");
    let relevant = relevant_updates(vec![own, other, own_too], "tester");
    assert_eq!(relevant.len(), 1);
    assert_eq!(relevant[0].alias, "FEDORA-2020-b");
}

#[test]
fn binaries_follow_the_installed_builds() {
    let a = update("FEDORA-2020-a", &["dnf-4.2.18-2.fc32", "vim-8.2-1.fc32"], stamp(10));
    let b = update("FEDORA-2020-b", &["maven-3.6.1-5.fc32"], stamp(20));
    let mut builds = BuildIndex::new();
    builds.insert(String::from("FEDORA-2020-a"), String::from("dnf-4.2.18-2.fc32"));
    builds.insert(String::from("FEDORA-2020-b"), String::from("maven-3.6.1-5.fc32"));
    builds.insert(String::from("FEDORA-2020-a"), String::from("vim-8.2-1.fc32"));
    let mut binaries = BuildIndex::new();
    binaries.insert(String::from("vim-8.2-1.fc32"), String::from("vim-minimal-8.2-1.fc32.x86_64"));
    binaries.insert(String::from("dnf-4.2.18-2.fc32"), String::from("dnf-4.2.18-2.fc32.noarch"));
    binaries.insert(String::from("dnf-4.2.18-2.fc32"), String::from("yum-4.2.18-2.fc32.noarch"));
    assert_eq!(
        binaries_of_update(&a, &binaries, &builds),
        vec!["dnf-4.2.18-2.fc32.noarch", "yum-4.2.18-2.fc32.noarch", "vim-minimal-8.2-1.fc32.x86_64"]
    );
    assert!(binaries_of_update(&b, &binaries, &builds).is_empty());
    assert_eq!(
        update_build_lines(&vec![&a, &b], &binaries, &builds),
        vec![
            " - title of FEDORA-2020-a:",
            "   - dnf-4.2.18-2.fc32.noarch",
            "   - yum-4.2.18-2.fc32.noarch",
            "   - vim-minimal-8.2-1.fc32.x86_64",
            " - title of FEDORA-2020-b:",
        ]
    );
}

#[test]
fn a_switch_on_the_command_line_is_enough() {
    let mut args = command();
    args.check_pending = true;
    assert!(do_check_pending(&args, None));
    assert!(!do_check_obsoletes(&args, None));
    assert!(!do_check_unpushed(&args, None));
    args.check_obsoleted = true;
    args.check_unpushed = true;
    assert!(do_check_obsoletes(&args, None));
    assert!(do_check_unpushed(&args, None));
}

#[test]
fn a_setting_in_the_configuration_is_enough() {
    let args = command();
    let none = config(None);
    assert!(!do_check_pending(&args, Some(&none)));
    let unset = config(Some(FUFConfig {
        check_obsoleted: None,
        check_pending: None,
        check_unpushed: None,
        save_password: None,
    }));
    assert!(!do_check_pending(&args, Some(&unset)));
    assert!(!do_check_obsoletes(&args, Some(&unset)));
    assert!(!do_check_unpushed(&args, Some(&unset)));
    let set = config(Some(FUFConfig {
        check_obsoleted: Some(true),
        check_pending: Some(false),
        check_unpushed: Some(true),
        save_password: None,
    }));
    assert!(do_check_obsoletes(&args, Some(&set)));
    assert!(!do_check_pending(&args, Some(&set)));
    assert!(do_check_unpushed(&args, Some(&set)));
}
