//! Where the password comes from: the session keyring, or a question to the
//! user.

use vstd::prelude::*;

verus! {

/// What the session keyring gave when it was asked for the password.
#[derive(Debug)]
pub enum KeyringState {
    /// the keyring could not be reached or searched
    Unavailable,
    /// the keyring holds no password
    Empty,
    /// the keyring holds a password that could not be read, or that is no
    /// valid text
    Broken,
    /// the keyring holds this password
    Stored(String),
}

/// Where the password is taken from.
#[derive(Debug)]
pub enum PasswordSource {
    /// the password that the keyring holds is used
    Stored(String),
    /// the user is asked for the password; with `store` it is then put into
    /// the keyring, in place of the one that is there where `store` holds
    /// `true`
    Prompt {
        /// whether, and how, the password is stored
        store: Option<bool>,
    },
}

/// The contents of a `KeyringState`.
pub enum KeyringView {
    Unavailable,
    Empty,
    Broken,
    Stored(Seq<char>),
}

/// The contents of a `PasswordSource`.
pub enum SourceView {
    Stored(Seq<char>),
    Prompt { store: Option<bool> },
}

impl View for KeyringState {
    type V = KeyringView;

    open spec fn view(&self) -> KeyringView {
        match *self {
            KeyringState::Unavailable => KeyringView::Unavailable,
            KeyringState::Empty => KeyringView::Empty,
            KeyringState::Broken => KeyringView::Broken,
            KeyringState::Stored(password) => KeyringView::Stored(password@),
        }
    }
}

impl View for PasswordSource {
    type V = SourceView;

    open spec fn view(&self) -> SourceView {
        match *self {
            PasswordSource::Stored(password) => SourceView::Stored(password@),
            PasswordSource::Prompt { store } => SourceView::Prompt { store },
        }
    }
}

/// Where the password is taken from.
///
/// - Without a keyring the user is asked, and nothing is stored.
/// - Where the stored password is to be cleared the user is asked, and the
///   answer replaces what is stored; what is stored is not looked at.
/// - A stored password is used.
/// - Where none is stored the user is asked, and the answer is stored.
/// - Where what is stored cannot be used the user is asked, and the answer
///   replaces it.
pub open spec fn source_for(clear: bool, keyring: KeyringView) -> SourceView {
    match keyring {
        KeyringView::Unavailable => SourceView::Prompt { store: None },
        KeyringView::Empty => SourceView::Prompt {
            store: if clear {
                Some(true)
            } else {
                Some(false)
            },
        },
        KeyringView::Broken => SourceView::Prompt { store: Some(true) },
        KeyringView::Stored(password) => if clear {
            SourceView::Prompt { store: Some(true) }
        } else {
            SourceView::Stored(password)
        },
    }
}

/// Decides where the password is taken from, given whether the stored
/// password is to be cleared, and what the keyring gave.
pub fn password_source(clear: bool, keyring: KeyringState) -> (source: PasswordSource)
    ensures
        source@ == source_for(clear, keyring@),
{
    match keyring {
        KeyringState::Unavailable => PasswordSource::Prompt { store: None },
        KeyringState::Empty => PasswordSource::Prompt { store: Some(clear) },
        KeyringState::Broken => PasswordSource::Prompt { store: Some(true) },
        KeyringState::Stored(password) => {
            if clear {
                PasswordSource::Prompt { store: Some(true) }
            } else {
                PasswordSource::Stored(password)
            }
        },
    }
}

} // verus!
