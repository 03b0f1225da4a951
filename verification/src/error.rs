//! The error type shared by every operation of the crate.

use crate::text::push_signed;
use crate::text::signed_numeral;
use vstd::prelude::*;

verus! {

/// The single error type that operations report.
///
/// A raw operating-system error never stands on its own: it is either given one of the named
/// meanings, or kept for diagnostics under [`Error::Platform`].
#[derive(Debug)]
#[non_exhaustive]
pub enum Error {
    /// The operation requires privileges that the caller does not have.
    PermissionDenied,
    /// The referenced object does not exist.
    NotFound,
    /// An object with the same identity already exists.
    AlreadyExists,
    /// The operation has no meaning on this backend at all.
    Unsupported,
    /// The operation is not valid given the object's current state.
    InvalidState,
    /// The producer of an event channel has shut down; no further events will arrive.
    Disconnected,
    /// The raw backend-specific error, kept for diagnostics.
    Platform(PlatformErrorCode),
}

/// A platform-tagged raw error code.
///
/// Linux and Darwin report a signed `errno`, Windows an unsigned code; the tag keeps them from
/// being compared with each other.
#[derive(Debug, Clone, Copy, PartialEq, Eq, Structural)]
pub enum PlatformErrorCode {
    /// A Linux `errno` value.
    Linux(i32),
    /// A Windows error code.
    Windows(u32),
    /// A Darwin (macOS) `errno` value.
    Darwin(i32),
}

/// A result returned by operations of this crate.
pub type Result<T> = core::result::Result<T, Error>;

impl Error {
    /// Returns `true` if this is [`Error::PermissionDenied`].
    pub fn is_permission_denied(&self) -> (found: bool)
        ensures
            found == (*self is PermissionDenied),
    {
        matches!(self, Error::PermissionDenied)
    }

    /// Returns `true` if this is [`Error::NotFound`].
    pub fn is_not_found(&self) -> (found: bool)
        ensures
            found == (*self is NotFound),
    {
        matches!(self, Error::NotFound)
    }

    /// Returns `true` if this is [`Error::AlreadyExists`].
    pub fn is_already_exists(&self) -> (found: bool)
        ensures
            found == (*self is AlreadyExists),
    {
        matches!(self, Error::AlreadyExists)
    }

    /// Returns `true` if this is [`Error::Unsupported`].
    pub fn is_unsupported(&self) -> (found: bool)
        ensures
            found == (*self is Unsupported),
    {
        matches!(self, Error::Unsupported)
    }

    /// Returns `true` if this is [`Error::InvalidState`].
    pub fn is_invalid_state(&self) -> (found: bool)
        ensures
            found == (*self is InvalidState),
    {
        matches!(self, Error::InvalidState)
    }

    /// Returns `true` if this is [`Error::Disconnected`].
    pub fn is_disconnected(&self) -> (found: bool)
        ensures
            found == (*self is Disconnected),
    {
        matches!(self, Error::Disconnected)
    }

    /// Returns `true` if this is [`Error::Platform`].
    pub fn is_platform(&self) -> (found: bool)
        ensures
            found == (*self is Platform),
    {
        matches!(self, Error::Platform(_))
    }

    /// The message that describes this error to a person.
    pub open spec fn message(self) -> Seq<char> {
        match self {
            Error::PermissionDenied => "permission denied"@,
            Error::NotFound => "not found"@,
            Error::AlreadyExists => "already exists"@,
            Error::Unsupported => "unsupported operation"@,
            Error::InvalidState => "invalid state"@,
            Error::Disconnected => "event channel disconnected"@,
            Error::Platform(code) => "platform error: "@ + code.label(),
        }
    }

    /// Returns the message that describes this error to a person.
    pub fn to_string(&self) -> (text: String)
        ensures
            text@ == self.message(),
            *self is PermissionDenied ==> text@ == "permission denied"@,
            *self is NotFound ==> text@ == "not found"@,
            *self is AlreadyExists ==> text@ == "already exists"@,
            *self is Unsupported ==> text@ == "unsupported operation"@,
            *self is InvalidState ==> text@ == "invalid state"@,
            *self is Disconnected ==> text@ == "event channel disconnected"@,
    {
        match self {
            Error::PermissionDenied => String::from_str("permission denied"),
            Error::NotFound => String::from_str("not found"),
            Error::AlreadyExists => String::from_str("already exists"),
            Error::Unsupported => String::from_str("unsupported operation"),
            Error::InvalidState => String::from_str("invalid state"),
            Error::Disconnected => String::from_str("event channel disconnected"),
            Error::Platform(code) => {
                let mut text = String::from_str("platform error: ");
                code.push_label(&mut text);
                text
            },
        }
    }
}

impl PlatformErrorCode {
    /// The platform's name with the code in parentheses.
    pub open spec fn label(self) -> Seq<char> {
        match self {
            PlatformErrorCode::Linux(code) => "Linux("@ + signed_numeral(code as int),
            PlatformErrorCode::Windows(code) => "Windows("@ + signed_numeral(code as int),
            PlatformErrorCode::Darwin(code) => "Darwin("@ + signed_numeral(code as int),
        }.push(')')
    }

    fn push_label(&self, text: &mut String)
        ensures
            final(text)@ == old(text)@ + self.label(),
    {
        match self {
            PlatformErrorCode::Linux(code) => {
                text.append("Linux(");
                push_signed(text, *code as i64);
            },
            PlatformErrorCode::Windows(code) => {
                text.append("Windows(");
                push_signed(text, *code as i64);
            },
            PlatformErrorCode::Darwin(code) => {
                text.append("Darwin(");
                push_signed(text, *code as i64);
            },
        }
        text.push(')');
        assert(text@ =~= old(text)@ + self.label());
    }
}

// ---- laws ----

/// An error says what it is, and a platform error also on which platform and with which code.
pub proof fn errors_say_what_they_are(linux: i32, windows: u32, darwin: i32)
    ensures
        Error::PermissionDenied.message() == "permission denied"@,
        Error::NotFound.message() == "not found"@,
        Error::AlreadyExists.message() == "already exists"@,
        Error::Unsupported.message() == "unsupported operation"@,
        Error::InvalidState.message() == "invalid state"@,
        Error::Disconnected.message() == "event channel disconnected"@,
        Error::Platform(PlatformErrorCode::Linux(linux)).message() == "platform error: "@ + (
        "Linux("@ + signed_numeral(linux as int)).push(')'),
        Error::Platform(PlatformErrorCode::Windows(windows)).message() == "platform error: "@ + (
        "Windows("@ + signed_numeral(windows as int)).push(')'),
        Error::Platform(PlatformErrorCode::Darwin(darwin)).message() == "platform error: "@ + (
        "Darwin("@ + signed_numeral(darwin as int)).push(')'),
{
}

} // verus!
