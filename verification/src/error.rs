//! What can go wrong, by kind.

use vstd::prelude::*;
use vstd::string::*;

verus! {

/// Why the arguments of an install were turned down.
#[derive(Clone, Copy, Debug, PartialEq, Eq, Structural)]
pub enum ArgumentFault {
    /// A repository and a literal path were both given.
    BothSources,
    /// Neither a repository nor a literal path was given.
    NoSource,
    /// The literal path names nothing on disk.
    MissingPath,
    /// The repository reference is no URL.
    BadUrl,
}

/// The failures of the installer.
///
/// `FileExists` is expected and recoverable: it makes the installer skip one
/// entry. Every other kind ends the command that met it.
#[derive(Clone, Copy, Debug, PartialEq, Eq, Structural)]
pub enum Error {
    /// The place of a new link is taken.
    FileExists,
    /// Creating, listing, probing, linking, removing or reporting failed.
    Io,
    /// The command was given arguments it cannot work with.
    InvalidArguments(ArgumentFault),
    /// The home directory could not be determined.
    Configuration,
}

impl Error {
    /// A recoverable failure lets the command go on with the next entry.
    pub open spec fn spec_is_recoverable(self) -> bool {
        self == Error::FileExists
    }

    /// Whether the command may go on after this failure.
    #[verifier::when_used_as_spec(spec_is_recoverable)]
    pub fn is_recoverable(self) -> (recoverable: bool)
        ensures
            recoverable == self.spec_is_recoverable(),
    {
        match self {
            Error::FileExists => true,
            _ => false,
        }
    }

    /// The line shown to the user when this failure ends a command.
    pub open spec fn spec_message(self) -> Seq<char> {
        match self {
            Error::FileExists => "file exists"@,
            Error::Io => "input or output failed"@,
            Error::InvalidArguments(ArgumentFault::BothSources) => "only one of --git and --path can be used"@,
            Error::InvalidArguments(ArgumentFault::NoSource) => "one of --git and --path is needed"@,
            Error::InvalidArguments(ArgumentFault::MissingPath) => "the path does not exist"@,
            Error::InvalidArguments(ArgumentFault::BadUrl) => "the repository is not a valid URL"@,
            Error::Configuration => "could not get the home directory"@,
        }
    }

    /// The line shown to the user when this failure ends a command.
    pub fn message(self) -> (text: String)
        ensures
            text@ == self.spec_message(),
    {
        match self {
            Error::FileExists => String::from_str("file exists"),
            Error::Io => String::from_str("input or output failed"),
            Error::InvalidArguments(ArgumentFault::BothSources) => String::from_str(
                "only one of --git and --path can be used",
            ),
            Error::InvalidArguments(ArgumentFault::NoSource) => String::from_str(
                "one of --git and --path is needed",
            ),
            Error::InvalidArguments(ArgumentFault::MissingPath) => String::from_str(
                "the path does not exist",
            ),
            Error::InvalidArguments(ArgumentFault::BadUrl) => String::from_str(
                "the repository is not a valid URL",
            ),
            Error::Configuration => String::from_str("could not get the home directory"),
        }
    }
}

} // verus!
