//! The contents of the configuration file, as plain values.

use vstd::prelude::*;
use crate::cli::Command;

verus! {

/// This struct represents the contents of a `~/.config/fedora.toml` file.
/// It includes a mandatory `[FAS]` section, and optional sections for tools.
/// It should look something like this:
///
/// ```toml
/// [FAS]
/// username = USERNAME
///
/// [fedora-update-feedback]
/// check-obsoleted = false
/// check-pending = true
/// check-unpushed = true
/// ```
#[derive(Debug)]
pub struct FedoraConfig {
    /// This section contains information about the user's FAS account.
    pub fas: FASConfig,
    /// This section contains configuration for fedora-update-feedback.
    pub fuf: Option<FUFConfig>,
}

/// This config file section contains information about the current user's FAS account.
#[derive(Debug)]
pub struct FASConfig {
    /// User name in the fedora accounts system (FAS)
    pub username: String,
}

/// This config file section contains settings for fedora-update-feedback.
#[derive(Debug)]
pub struct FUFConfig {
    /// Check for installed obsolete updates
    pub check_obsoleted: Option<bool>,
    /// Check for installed pending updates
    pub check_pending: Option<bool>,
    /// Check for installed unpushed updates
    pub check_unpushed: Option<bool>,
    /// Save password in session keyring
    pub save_password: Option<bool>,
}

/// The settings of the tool's own section, where the file has one.
pub open spec fn tool_section(config: Option<&FedoraConfig>) -> Option<FUFConfig> {
    match config {
        Some(config) => config.fuf,
        None => None,
    }
}

/// A setting of the configuration file counts as switched on only if the
/// file could be read, has the tool's section, and sets it to `true`.
pub open spec fn setting_enabled(setting: Option<bool>) -> bool {
    setting == Some(true)
}

/// The user name that the command line or the configuration file gives:
/// the one of the command line where there is one, else the one of the
/// configuration file.
pub open spec fn given_username(args: Command, config: Option<&FedoraConfig>) -> Option<
    Seq<char>,
> {
    match args.username {
        Some(username) => Some(username@),
        None => match config {
            Some(config) => Some(config.fas.username@),
            None => None,
        },
    }
}

/// The message for a user name that is found nowhere.
pub open spec fn username_error() -> Seq<char> {
    "Failed to read ~/.config/fedora.toml and ~/.fedora.upn."@
}

/// The user name that the command line or the configuration file gives.
pub fn configured_username(args: &Command, config: Option<&FedoraConfig>) -> (res: Option<String>)
    ensures
        match res {
            Some(username) => given_username(*args, config) == Some(username@),
            None => given_username(*args, config) is None,
        },
{
    if let Some(username) = &args.username {
        Some(username.clone())
    } else if let Some(config) = config {
        Some(config.fas.username.clone())
    } else {
        None
    }
}

/// The user name to work with: the one of the command line, else the one
/// of the configuration file, else the one of the legacy file `legacy`. It
/// is an error where none of them gives one.
pub fn choose_username(
    args: &Command,
    config: Option<&FedoraConfig>,
    legacy: Option<String>,
) -> (res: Result<String, String>)
    ensures
        match res {
            Ok(username) => match given_username(*args, config) {
                Some(given) => username@ == given,
                None => legacy matches Some(name) && username@ == name@,
            },
            Err(msg) => given_username(*args, config) is None && legacy is None && msg@
                == username_error(),
        },
{
    match configured_username(args, config) {
        Some(username) => Ok(username),
        None => match legacy {
            Some(username) => Ok(username),
            None => Err("Failed to read ~/.config/fedora.toml and ~/.fedora.upn.".to_owned()),
        },
    }
}

/// Whether the password is to be kept in the session keyring: the
/// configuration file asks for it.
pub fn use_keyring(config: Option<&FedoraConfig>) -> (res: bool)
    ensures
        res == (tool_section(config) matches Some(section) && setting_enabled(
            section.save_password,
        )),
{
    match config {
        Some(config) => match &config.fuf {
            Some(fuf) => match fuf.save_password {
                Some(x) => x,
                None => false,
            },
            None => false,
        },
        None => false,
    }
}

} // verus!
