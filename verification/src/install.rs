//! The install walk: one subdirectory of a source tree, mirrored as links.
//!
//! The walk makes sure that the subdirectory exists on both sides, lists the
//! source side, and takes the entries one by one: it probes the place of the
//! entry's link, asks for the link where the place is free, passes the entry
//! over where it is taken, and reports which of the two happened. The first
//! failure of any other kind ends the walk; what was linked until then stays.

use vstd::prelude::*;
use vstd::string::*;
use crate::directories::{DirIter, ManagedDirectory, spec_link};
use crate::error::Error;
use crate::paths::{spec_file_name, spec_join};
use crate::protocol::{
    Action,
    ActionView,
    DirectoryEntry,
    EntryView,
    Listed,
    ListedView,
    Reply,
    ReplyView,
    Report,
    ReportView,
};

verus! {

/// Where a walk stands: which answer it waits for.
#[derive(Debug)]
enum Stage {
    EnsuringSource,
    EnsuringDest,
    Listing,
    Probing { entry: DirectoryEntry, link: String },
    Linking { entry: DirectoryEntry, link: String },
    Reporting,
    Finished,
    Aborted { error: Error },
}

/// The mathematical value of a walk's stage.
pub enum StageView {
    /// Waiting for the source subdirectory to be made.
    EnsuringSource,
    /// Waiting for the destination subdirectory to be made.
    EnsuringDest,
    /// Waiting for the listing of the source subdirectory.
    Listing,
    /// Waiting to hear what is at `link`, the place of the link to `entry`.
    Probing { entry: EntryView, link: Seq<char> },
    /// Waiting for the link to `entry` to be created at `link`.
    Linking { entry: EntryView, link: Seq<char> },
    /// Waiting for a report to be shown.
    Reporting,
    /// Every entry was taken up.
    Finished,
    /// The walk met a failure that ends it.
    Aborted { error: Error },
}

impl View for Stage {
    type V = StageView;

    closed spec fn view(&self) -> StageView {
        match self {
            Stage::EnsuringSource => StageView::EnsuringSource,
            Stage::EnsuringDest => StageView::EnsuringDest,
            Stage::Listing => StageView::Listing,
            Stage::Probing { entry, link } => StageView::Probing { entry: entry@, link: link@ },
            Stage::Linking { entry, link } => StageView::Linking { entry: entry@, link: link@ },
            Stage::Reporting => StageView::Reporting,
            Stage::Finished => StageView::Finished,
            Stage::Aborted { error } => StageView::Aborted { error: *error },
        }
    }
}

/// The install walk over one subdirectory, between two actions.
#[derive(Debug)]
pub struct Installer {
    source: ManagedDirectory,
    dest: ManagedDirectory,
    stage: Stage,
    entries: DirIter,
}

/// The mathematical value of an [`Installer`].
pub struct InstallerView {
    /// The subdirectory that is read.
    pub source: Seq<char>,
    /// The subdirectory that receives the links.
    pub dest: Seq<char>,
    pub stage: StageView,
    /// The listed items that were not taken up yet.
    pub rest: Seq<ListedView>,
}

impl InstallerView {
    /// The walk over the subdirectory `name` of `source_root`, into the
    /// subdirectory `name` of `dest_root`, and its first action.
    pub open spec fn begin(source_root: Seq<char>, dest_root: Seq<char>, name: Seq<char>) -> (
        InstallerView,
        ActionView,
    ) {
        let source = spec_join(source_root, name);
        (
            InstallerView {
                source,
                dest: spec_join(dest_root, name),
                stage: StageView::EnsuringSource,
                rest: Seq::empty(),
            },
            ActionView::MakeDir { path: source },
        )
    }

    /// The walk ends with `error`.
    pub open spec fn halt(self, error: Error) -> (InstallerView, ActionView) {
        (InstallerView { stage: StageView::Aborted { error }, ..self }, ActionView::Abort { error })
    }

    /// The walk takes up the next listed item: it finishes when none is left,
    /// ends on an item that could not be read or that has no file name, and
    /// else probes the place of the entry's link.
    pub open spec fn advance(self) -> (InstallerView, ActionView) {
        if self.rest.len() == 0 {
            (InstallerView { stage: StageView::Finished, ..self }, ActionView::Finish)
        } else {
            let left = InstallerView { rest: self.rest.skip(1), ..self };
            match self.rest[0] {
                ListedView::Unreadable => left.halt(Error::Io),
                ListedView::Entry(entry) => match spec_file_name(entry.path) {
                    None => left.halt(Error::Io),
                    Some(name) => {
                        let link = spec_join(self.dest, name);
                        (
                            InstallerView { stage: StageView::Probing { entry, link }, ..left },
                            ActionView::Probe { path: link },
                        )
                    },
                },
            }
        }
    }

    /// The walk's next state and action, once `reply` has answered its last action.
    pub open spec fn next(self, reply: ReplyView) -> (InstallerView, ActionView) {
        match self.stage {
            StageView::EnsuringSource => match reply {
                ReplyView::Done => (
                    InstallerView { stage: StageView::EnsuringDest, ..self },
                    ActionView::MakeDir { path: self.dest },
                ),
                _ => self.halt(Error::Io),
            },
            StageView::EnsuringDest => match reply {
                ReplyView::Done => (
                    InstallerView { stage: StageView::Listing, ..self },
                    ActionView::List { path: self.source },
                ),
                _ => self.halt(Error::Io),
            },
            StageView::Listing => match reply {
                ReplyView::Entries { entries } => (InstallerView { rest: entries, ..self }).advance(),
                _ => self.halt(Error::Io),
            },
            StageView::Probing { entry, link } => match reply {
                ReplyView::Found { kind } => match spec_link(self.dest, entry.path, kind) {
                    Ok(action) => (
                        InstallerView { stage: StageView::Linking { entry, link }, ..self },
                        action,
                    ),
                    Err(error) => if error.is_recoverable() {
                        (
                            InstallerView { stage: StageView::Reporting, ..self },
                            ActionView::Report {
                                report: ReportView::Skipped { name: entry.name, path: link },
                            },
                        )
                    } else {
                        self.halt(error)
                    },
                },
                _ => self.halt(Error::Io),
            },
            StageView::Linking { entry, link } => match reply {
                ReplyView::Done => (
                    InstallerView { stage: StageView::Reporting, ..self },
                    ActionView::Report {
                        report: ReportView::Created { name: entry.name, path: link },
                    },
                ),
                _ => self.halt(Error::Io),
            },
            StageView::Reporting => match reply {
                ReplyView::Done => self.advance(),
                _ => self.halt(Error::Io),
            },
            StageView::Finished => (self, ActionView::Finish),
            StageView::Aborted { error } => (self, ActionView::Abort { error }),
        }
    }
}

impl View for Installer {
    type V = InstallerView;

    closed spec fn view(&self) -> InstallerView {
        InstallerView {
            source: self.source@,
            dest: self.dest@,
            stage: self.stage@,
            rest: self.entries@,
        }
    }
}

impl Installer {
    /// While a place is probed, the entry it is probed for has a file name.
    #[verifier::type_invariant]
    spec fn named(self) -> bool {
        self.stage matches Stage::Probing { entry, link } ==> spec_file_name(entry.path@) is Some
    }

    /// Begins the walk over the subdirectory `name` of `source`, into the
    /// subdirectory `name` of the directory at `dest_root`.
    pub fn begin(source: &ManagedDirectory, dest_root: &str, name: &str) -> (start: (
        Installer,
        Action,
    ))
        ensures
            (start.0@, start.1@) == InstallerView::begin(source@, dest_root@, name@),
    {
        let (source_sub, action) = source.subdir(String::from_str(name));
        let (dest_sub, _) = ManagedDirectory::new(String::from_str(dest_root)).subdir(
            String::from_str(name),
        );
        let entries = DirIter::new(Vec::new());
        assert(entries@ =~= Seq::<ListedView>::empty());
        (
            Installer { source: source_sub, dest: dest_sub, stage: Stage::EnsuringSource, entries },
            action,
        )
    }

    fn halt(source: ManagedDirectory, dest: ManagedDirectory, entries: DirIter, error: Error) -> (next:
        (Installer, Action))
        ensures
            next.0@ == (InstallerView {
                source: source@,
                dest: dest@,
                stage: StageView::Aborted { error },
                rest: entries@,
            }),
            next.1@ == (ActionView::Abort { error }),
    {
        (Installer { source, dest, stage: Stage::Aborted { error }, entries }, Action::Abort { error })
    }

    fn advance(source: ManagedDirectory, dest: ManagedDirectory, entries: DirIter) -> (next: (
        Installer,
        Action,
    ))
        ensures
            (next.0@, next.1@) == (InstallerView {
                source: source@,
                dest: dest@,
                stage: StageView::Reporting,
                rest: entries@,
            }).advance(),
    {
        let mut entries = entries;
        match entries.next() {
            None => (Installer { source, dest, stage: Stage::Finished, entries }, Action::Finish),
            Some(Listed::Unreadable) => Installer::halt(source, dest, entries, Error::Io),
            Some(Listed::Entry(entry)) => match dest.link_path(entry.path.as_str()) {
                None => Installer::halt(source, dest, entries, Error::Io),
                Some(link) => {
                    let action = Action::Probe { path: link.clone() };
                    (Installer { source, dest, stage: Stage::Probing { entry, link }, entries }, action)
                },
            },
        }
    }

    /// Takes the answer to the walk's last action and names the next one.
    ///
    /// A walk that has ended stays as it is and names its end again.
    pub fn step(self, reply: Reply) -> (next: (Installer, Action))
        ensures
            (next.0@, next.1@) == self@.next(reply@),
    {
        proof {
            use_type_invariant(&self);
        }
        let Installer { source, dest, stage, entries } = self;
        match stage {
            Stage::EnsuringSource => match reply {
                Reply::Done => {
                    let action = Action::MakeDir { path: dest.to_string() };
                    (Installer { source, dest, stage: Stage::EnsuringDest, entries }, action)
                },
                _ => Installer::halt(source, dest, entries, Error::Io),
            },
            Stage::EnsuringDest => match reply {
                Reply::Done => {
                    let action = source.iter();
                    (Installer { source, dest, stage: Stage::Listing, entries }, action)
                },
                _ => Installer::halt(source, dest, entries, Error::Io),
            },
            Stage::Listing => match reply {
                Reply::Entries { entries: listing } => Installer::advance(
                    source,
                    dest,
                    DirIter::new(listing),
                ),
                _ => Installer::halt(source, dest, entries, Error::Io),
            },
            Stage::Probing { entry, link } => match reply {
                Reply::Found { kind } => match dest.link(entry.path.as_str(), kind) {
                    Ok(action) => (
                        Installer { source, dest, stage: Stage::Linking { entry, link }, entries },
                        action,
                    ),
                    Err(error) => if error.is_recoverable() {
                        let report = Report::Skipped { name: entry.name, path: link };
                        (
                            Installer { source, dest, stage: Stage::Reporting, entries },
                            Action::Report { report },
                        )
                    } else {
                        Installer::halt(source, dest, entries, error)
                    },
                },
                _ => Installer::halt(
                    source,
                    dest,
                    entries,
                    Error::Io,
                ),
            },
            Stage::Linking { entry, link } => match reply {
                Reply::Done => {
                    let report = Report::Created { name: entry.name, path: link };
                    (
                        Installer { source, dest, stage: Stage::Reporting, entries },
                        Action::Report { report },
                    )
                },
                _ => Installer::halt(
                    source,
                    dest,
                    entries,
                    Error::Io,
                ),
            },
            Stage::Reporting => match reply {
                Reply::Done => Installer::advance(source, dest, entries),
                _ => Installer::halt(source, dest, entries, Error::Io),
            },
            Stage::Finished => (
                Installer { source, dest, stage: Stage::Finished, entries },
                Action::Finish,
            ),
            Stage::Aborted { error } => Installer::halt(source, dest, entries, error),
        }
    }
}

} // verus!
