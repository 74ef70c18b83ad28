//! Helper functionality for giving feedback on Fedora updates: finding the
//! updates in testing that are installed on this system, putting them in
//! order for review, remembering what is to be ignored, and collecting what
//! the tester says about each update.
//!
//! Everything here works on plain values. Querying the update server and
//! the package manager, asking questions on the terminal and storing files
//! is left to the caller.

pub mod checks;
pub mod cli;
pub mod config;
pub mod dialogue;
pub mod ignore;
pub mod index;
pub mod input;
pub mod karma;
pub mod numbers;
pub mod nvr;
pub mod output;
pub mod parse;
pub mod review;
pub mod secrets;
pub mod session;
pub mod strings;
pub mod sysinfo;
pub mod text;
pub mod update;
pub mod wrap;

pub use checks::{
    binaries_of_update, do_check_obsoletes, do_check_pending, do_check_unpushed,
    filter_installed_updates, update_build_lines,
};
pub use cli::Command;
pub use config::{choose_username, configured_username, use_keyring, FASConfig, FUFConfig, FedoraConfig};
pub use dialogue::{Dialogue, Prompt, Turn};
pub use ignore::{
    filter_blocked, filter_ignored, legacy_ignore_lists, load_ignore_lists, packages_in_update,
    IgnoreLists,
};
pub use index::BuildIndex;
pub use input::{
    action_for_key, action_menu, choose_editor, comment_from_editor_output, parse_action, Action,
    Feedback, Progress,
};
pub use karma::str_to_karma;
pub use nvr::NVR;
pub use output::{
    duration_until_now, pretty_duration, progress_line, proper_plural, render_update,
};
pub use parse::{parse_filename, parse_nevra, parse_nvr};
pub use review::{
    deduplicate_and_sort, has_already_commented, relevant_updates, skip_without_asking,
};
pub use secrets::{password_source, KeyringState, PasswordSource};
pub use session::{
    announcement, apply_feedback, progress_at, review, Effect, NewComment, ReviewEnd, ReviewLog,
};
pub use strings::trim;
pub use sysinfo::{
    handle_status, parse_installation_times, parse_installed, parse_src_bin_map,
    parse_summaries, release_name, InstallTimes,
};
pub use update::{Bug, Comment, Karma, TestCase, Timestamp, Update};
