//! The command line switches, as plain values.

use vstd::prelude::*;

verus! {

/// The switches and values given on the command line.
///
/// Some of them can also be set in the configuration file at
/// `~/.config/fedora.toml`; a switch that is given always wins.
#[derive(Debug)]
pub struct Command {
    /// Override or provide FAS username
    pub username: Option<String>,
    /// Check for installed obsolete updates
    pub check_obsoleted: bool,
    /// Include updates in "pending" state
    pub check_pending: bool,
    /// Include updates that were already commented on
    pub check_commented: bool,
    /// Include updates that were previously ignored
    pub check_ignored: bool,
    /// Check for installed unpushed updates
    pub check_unpushed: bool,
    /// Clear ignored updates
    pub clear_ignored: bool,
    /// Ignore password stored in session keyring
    pub ignore_keyring: bool,
    /// Add a package name to the list of ignored packages
    pub add_ignored_package: Option<String>,
    /// Remove a package name from the list of ignored packages
    pub remove_ignored_package: Option<String>,
    /// Print the list of ignored packages and updates
    pub print_ignored: bool,
    /// Print more progress information and command output
    pub verbose: bool,
}

} // verus!
