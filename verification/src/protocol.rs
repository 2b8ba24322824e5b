//! The vocabulary between the installer and its driver.
//!
//! A machine of this crate names an [`Action`]; the driver performs it on the
//! real filesystem and answers with a [`Reply`]. `Finish` and `Abort` end the
//! exchange and are not answered.

use vstd::prelude::*;
use vstd::string::*;
use crate::error::Error;

verus! {

/// What an entry on disk is, told without following links.
#[derive(Clone, Copy, Debug, PartialEq, Eq, Structural)]
pub enum EntryKind {
    Symlink,
    RegularFile,
    Directory,
    Other,
}

/// One entry of a directory listing: its file name and its full path.
#[derive(Clone, Debug, PartialEq, Eq)]
pub struct DirectoryEntry {
    pub name: String,
    pub path: String,
}

/// The mathematical value of a [`DirectoryEntry`].
pub struct EntryView {
    pub name: Seq<char>,
    pub path: Seq<char>,
}

impl View for DirectoryEntry {
    type V = EntryView;

    open spec fn view(&self) -> EntryView {
        EntryView { name: self.name@, path: self.path@ }
    }
}

/// One step of a listing: an entry, or the failure to read one.
#[derive(Clone, Debug, PartialEq, Eq)]
pub enum Listed {
    Entry(DirectoryEntry),
    Unreadable,
}

/// The mathematical value of a [`Listed`].
pub enum ListedView {
    Entry(EntryView),
    Unreadable,
}

impl View for Listed {
    type V = ListedView;

    open spec fn view(&self) -> ListedView {
        match self {
            Listed::Entry(entry) => ListedView::Entry(entry@),
            Listed::Unreadable => ListedView::Unreadable,
        }
    }
}

/// The values of a listing, in its order.
pub open spec fn listing_view(items: Seq<Listed>) -> Seq<ListedView> {
    Seq::new(items.len(), |i: int| items[i]@)
}

/// What became of one entry, reported as soon as it is known.
#[derive(Clone, Debug, PartialEq, Eq)]
pub enum Report {
    /// A link to the entry was created at `path`.
    Created { name: String, path: String },
    /// `path` was taken, and the entry was passed over.
    Skipped { name: String, path: String },
    /// The link at `path` was removed.
    Removed { name: String, path: String },
}

/// The mathematical value of a [`Report`].
pub enum ReportView {
    Created { name: Seq<char>, path: Seq<char> },
    Skipped { name: Seq<char>, path: Seq<char> },
    Removed { name: Seq<char>, path: Seq<char> },
}

impl ReportView {
    /// The line that a report is shown as: what happened, then the entry's name.
    pub open spec fn line(self) -> Seq<char> {
        match self {
            ReportView::Created { name, path } => "linked "@ + name,
            ReportView::Skipped { name, path } => "skipped "@ + name,
            ReportView::Removed { name, path } => "removed "@ + name,
        }
    }
}

impl View for Report {
    type V = ReportView;

    open spec fn view(&self) -> ReportView {
        match self {
            Report::Created { name, path } => ReportView::Created { name: name@, path: path@ },
            Report::Skipped { name, path } => ReportView::Skipped { name: name@, path: path@ },
            Report::Removed { name, path } => ReportView::Removed { name: name@, path: path@ },
        }
    }
}

impl Report {
    /// The line to print for this report.
    pub fn line(&self) -> (text: String)
        ensures
            text@ == self@.line(),
    {
        match self {
            Report::Created { name, path } => String::from_str("linked ").concat(name.as_str()),
            Report::Skipped { name, path } => String::from_str("skipped ").concat(name.as_str()),
            Report::Removed { name, path } => String::from_str("removed ").concat(name.as_str()),
        }
    }
}

/// What the driver is to do next.
#[derive(Clone, Debug, PartialEq, Eq)]
pub enum Action {
    /// Create the directory at `path` and every missing ancestor of it.
    MakeDir { path: String },
    /// List the immediate entries of the directory at `path`.
    List { path: String },
    /// Tell what is at `path`, without following a link.
    Probe { path: String },
    /// Create a symbolic link at `link` that points at `target`.
    Symlink { target: String, link: String },
    /// Remove the link at `path`.
    Remove { path: String },
    /// Clone the repository at `url` into the directory `into`.
    Clone { url: String, into: String },
    /// Show one line to the user.
    Report { report: Report },
    /// The command is done.
    Finish,
    /// The command has failed.
    Abort { error: Error },
}

/// The mathematical value of an [`Action`].
pub enum ActionView {
    MakeDir { path: Seq<char> },
    List { path: Seq<char> },
    Probe { path: Seq<char> },
    Symlink { target: Seq<char>, link: Seq<char> },
    Remove { path: Seq<char> },
    Clone { url: Seq<char>, into: Seq<char> },
    Report { report: ReportView },
    Finish,
    Abort { error: Error },
}

impl ActionView {
    /// `Finish` and `Abort` end a command.
    pub open spec fn is_terminal(self) -> bool {
        self is Finish || self is Abort
    }
}

impl View for Action {
    type V = ActionView;

    open spec fn view(&self) -> ActionView {
        match self {
            Action::MakeDir { path } => ActionView::MakeDir { path: path@ },
            Action::List { path } => ActionView::List { path: path@ },
            Action::Probe { path } => ActionView::Probe { path: path@ },
            Action::Symlink { target, link } => ActionView::Symlink {
                target: target@,
                link: link@,
            },
            Action::Remove { path } => ActionView::Remove { path: path@ },
            Action::Clone { url, into } => ActionView::Clone { url: url@, into: into@ },
            Action::Report { report } => ActionView::Report { report: report@ },
            Action::Finish => ActionView::Finish,
            Action::Abort { error } => ActionView::Abort { error: *error },
        }
    }
}

impl Action {
    /// Whether this action ends a command.
    pub fn is_terminal(&self) -> (terminal: bool)
        ensures
            terminal == self@.is_terminal(),
    {
        match self {
            Action::Finish => true,
            Action::Abort { error } => true,
            _ => false,
        }
    }
}

/// What the driver found when it performed an action.
#[derive(Clone, Debug, PartialEq, Eq)]
pub enum Reply {
    /// The action was carried out; it has nothing to tell.
    Done,
    /// The answer to `Probe`: the kind of what is there, or nothing.
    Found { kind: Option<EntryKind> },
    /// The answer to `List`: one item for each step of the listing.
    Entries { entries: Vec<Listed> },
    /// The action failed.
    Failed,
}

/// The mathematical value of a [`Reply`].
pub enum ReplyView {
    Done,
    Found { kind: Option<EntryKind> },
    Entries { entries: Seq<ListedView> },
    Failed,
}

impl View for Reply {
    type V = ReplyView;

    open spec fn view(&self) -> ReplyView {
        match self {
            Reply::Done => ReplyView::Done,
            Reply::Found { kind } => ReplyView::Found { kind: *kind },
            Reply::Entries { entries } => ReplyView::Entries { entries: listing_view(entries@) },
            Reply::Failed => ReplyView::Failed,
        }
    }
}

} // verus!
