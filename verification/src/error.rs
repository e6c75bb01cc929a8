//! The failures that end a run.

use vstd::prelude::*;
use vstd::string::*;

verus! {

/// Why a step could not be completed. No failure is retried.
#[derive(Clone, Copy, Debug, PartialEq, Eq, Structural)]
pub enum Error {
    /// The record carries no field list at all.
    NoFieldsPresent,
    /// The record has fields, but none with a value to show.
    NoDisplayableFields,
    /// A table without rows was to be shown.
    EmptyTable,
    /// The picker could not be started.
    PickerLaunchFailed,
    /// Writing to the picker, or reading from it, failed.
    PickerIOFailed,
    /// The picker ended with a status other than success.
    PickerNonZeroExit,
    /// The picker ended without a choice.
    NoSelectionMade,
    /// The chosen line carries no row number.
    MalformedSelection,
    /// The chosen line carries a row number that the table does not have.
    IndexOutOfRange,
    /// The environment of the session could not be read.
    EnvironmentQueryFailed,
    /// The environment names no session.
    NoSession,
    /// The session that the environment names is not signed in.
    NotSignedIn,
    /// The vault lists no record.
    NoItemsFound,
}

impl Error {
    /// The text shown to the user for this failure.
    pub open spec fn text(self) -> Seq<char> {
        match self {
            Error::NoFieldsPresent => "Item has no fields"@,
            Error::NoDisplayableFields => "No fields with values found"@,
            Error::EmptyTable => "No entries to display"@,
            Error::PickerLaunchFailed => "Failed to launch wofi"@,
            Error::PickerIOFailed => "Failed to exchange data with wofi"@,
            Error::PickerNonZeroExit => "wofi exited non-successfully"@,
            Error::NoSelectionMade => "No selection made"@,
            Error::MalformedSelection => "Failed to parse selected index"@,
            Error::IndexOutOfRange => "Selected index out of bounds"@,
            Error::EnvironmentQueryFailed => "`systemctl --user show-environment` failed"@,
            Error::NoSession => "No OP_SESSION environment variable found in systemd user environment"@,
            Error::NotSignedIn => "No OP_SESSION variable found in systemd environment"@,
            Error::NoItemsFound => "No 1Password items found.\n\nCheck your vault or sign-in status."@,
        }
    }

    /// This failure is announced to the user in a window of its own.
    pub open spec fn announced(self) -> bool {
        self == Error::NotSignedIn || self == Error::NoItemsFound
    }

    /// The title of the window that announces this failure.
    pub open spec fn notice_title(self) -> Seq<char> {
        match self {
            Error::NotSignedIn => "🔐 Not signed in to 1Password"@,
            _ => "🔍 No Items"@,
        }
    }

    /// The text of the window that announces this failure.
    pub open spec fn notice_text(self) -> Seq<char> {
        match self {
            Error::NotSignedIn => "Please run `op signin` in a terminal or the 1Password GUI.\nThis launcher requires an active OP_SESSION variable."@,
            _ => "No 1Password items found.\n\nCheck your vault or sign-in status."@,
        }
    }

    /// The window that announces this failure, as its title and its text;
    /// `None` for a failure that is only returned.
    pub fn notice(&self) -> (r: Option<(String, String)>)
        ensures
            match r {
                Some((title, text)) => self.announced() && title@ == self.notice_title() && text@
                    == self.notice_text(),
                None => !self.announced(),
            },
    {
        match self {
            Error::NotSignedIn => Some(
                (
                    String::from_str("🔐 Not signed in to 1Password"),
                    String::from_str(
                        "Please run `op signin` in a terminal or the 1Password GUI.\nThis launcher requires an active OP_SESSION variable.",
                    ),
                ),
            ),
            Error::NoItemsFound => Some(
                (
                    String::from_str("🔍 No Items"),
                    String::from_str(
                        "No 1Password items found.\n\nCheck your vault or sign-in status.",
                    ),
                ),
            ),
            _ => None,
        }
    }

    /// The text shown to the user for this failure.
    pub fn message(&self) -> (r: String)
        ensures
            r@ == self.text(),
    {
        match self {
            Error::NoFieldsPresent => String::from_str("Item has no fields"),
            Error::NoDisplayableFields => String::from_str("No fields with values found"),
            Error::EmptyTable => String::from_str("No entries to display"),
            Error::PickerLaunchFailed => String::from_str("Failed to launch wofi"),
            Error::PickerIOFailed => String::from_str("Failed to exchange data with wofi"),
            Error::PickerNonZeroExit => String::from_str("wofi exited non-successfully"),
            Error::NoSelectionMade => String::from_str("No selection made"),
            Error::MalformedSelection => String::from_str("Failed to parse selected index"),
            Error::IndexOutOfRange => String::from_str("Selected index out of bounds"),
            Error::EnvironmentQueryFailed => String::from_str(
                "`systemctl --user show-environment` failed",
            ),
            Error::NoSession => String::from_str(
                "No OP_SESSION environment variable found in systemd user environment",
            ),
            Error::NotSignedIn => String::from_str(
                "No OP_SESSION variable found in systemd environment",
            ),
            Error::NoItemsFound => String::from_str(
                "No 1Password items found.\n\nCheck your vault or sign-in status.",
            ),
        }
    }
}

/// A text or a failure, with the text as its characters.
pub open spec fn result_text(outcome: Result<String, Error>) -> Result<Seq<char>, Error> {
    match outcome {
        Ok(line) => Ok(line@),
        Err(e) => Err(e),
    }
}

} // verus!
