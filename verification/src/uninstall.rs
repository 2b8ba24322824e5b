//! The uninstall sweep: the links of one directory, removed.
//!
//! The sweep lists the directory and takes its entries one by one: it probes
//! the entry, asks for its removal where it is a symbolic link, and reports
//! the removal. An entry of any other kind is passed over in silence. The
//! first failure ends the sweep; what was removed until then stays removed.

use vstd::prelude::*;
use vstd::string::*;
use crate::directories::{DirIter, ManagedDirectory};
use crate::error::Error;
use crate::protocol::{
    Action,
    ActionView,
    DirectoryEntry,
    EntryKind,
    EntryView,
    Listed,
    ListedView,
    Reply,
    ReplyView,
    Report,
    ReportView,
};

verus! {

/// Where a sweep stands: which answer it waits for.
#[derive(Debug)]
enum Stage {
    Listing,
    Probing { entry: DirectoryEntry },
    Removing { entry: DirectoryEntry },
    Reporting,
    Finished,
    Aborted { error: Error },
}

/// The mathematical value of a sweep's stage.
pub enum SweepView {
    /// Waiting for the listing of the directory.
    Listing,
    /// Waiting to hear what `entry` is.
    Probing { entry: EntryView },
    /// Waiting for the link `entry` to be removed.
    Removing { entry: EntryView },
    /// Waiting for a report to be shown.
    Reporting,
    /// Every entry was taken up.
    Finished,
    /// The sweep met a failure.
    Aborted { error: Error },
}

impl View for Stage {
    type V = SweepView;

    closed spec fn view(&self) -> SweepView {
        match self {
            Stage::Listing => SweepView::Listing,
            Stage::Probing { entry } => SweepView::Probing { entry: entry@ },
            Stage::Removing { entry } => SweepView::Removing { entry: entry@ },
            Stage::Reporting => SweepView::Reporting,
            Stage::Finished => SweepView::Finished,
            Stage::Aborted { error } => SweepView::Aborted { error: *error },
        }
    }
}

/// The uninstall sweep over one directory, between two actions.
#[derive(Debug)]
pub struct Uninstaller {
    dir: ManagedDirectory,
    stage: Stage,
    entries: DirIter,
}

/// The mathematical value of an [`Uninstaller`].
pub struct UninstallerView {
    /// The directory that is swept.
    pub dir: Seq<char>,
    pub stage: SweepView,
    /// The listed items that were not taken up yet.
    pub rest: Seq<ListedView>,
}

impl UninstallerView {
    /// The sweep of the directory at `dir`, and its first action.
    pub open spec fn begin(dir: Seq<char>) -> (UninstallerView, ActionView) {
        (
            UninstallerView { dir, stage: SweepView::Listing, rest: Seq::empty() },
            ActionView::List { path: dir },
        )
    }

    /// The sweep ends with `error`.
    pub open spec fn halt(self, error: Error) -> (UninstallerView, ActionView) {
        (
            UninstallerView { stage: SweepView::Aborted { error }, ..self },
            ActionView::Abort { error },
        )
    }

    /// The sweep takes up the next listed item: it finishes when none is
    /// left, ends on an item that could not be read, and else probes the entry.
    pub open spec fn advance(self) -> (UninstallerView, ActionView) {
        if self.rest.len() == 0 {
            (UninstallerView { stage: SweepView::Finished, ..self }, ActionView::Finish)
        } else {
            let left = UninstallerView { rest: self.rest.skip(1), ..self };
            match self.rest[0] {
                ListedView::Unreadable => left.halt(Error::Io),
                ListedView::Entry(entry) => (
                    UninstallerView { stage: SweepView::Probing { entry }, ..left },
                    ActionView::Probe { path: entry.path },
                ),
            }
        }
    }

    /// The sweep's next state and action, once `reply` has answered its last action.
    pub open spec fn next(self, reply: ReplyView) -> (UninstallerView, ActionView) {
        match self.stage {
            SweepView::Listing => match reply {
                ReplyView::Entries { entries } => (UninstallerView {
                    rest: entries,
                    ..self
                }).advance(),
                _ => self.halt(Error::Io),
            },
            SweepView::Probing { entry } => match reply {
                ReplyView::Found { kind: Some(EntryKind::Symlink) } => (
                    UninstallerView { stage: SweepView::Removing { entry }, ..self },
                    ActionView::Remove { path: entry.path },
                ),
                ReplyView::Found { kind: Some(_) } => self.advance(),
                _ => self.halt(Error::Io),
            },
            SweepView::Removing { entry } => match reply {
                ReplyView::Done => (
                    UninstallerView { stage: SweepView::Reporting, ..self },
                    ActionView::Report {
                        report: ReportView::Removed { name: entry.name, path: entry.path },
                    },
                ),
                _ => self.halt(Error::Io),
            },
            SweepView::Reporting => match reply {
                ReplyView::Done => self.advance(),
                _ => self.halt(Error::Io),
            },
            SweepView::Finished => (self, ActionView::Finish),
            SweepView::Aborted { error } => (self, ActionView::Abort { error }),
        }
    }
}

impl View for Uninstaller {
    type V = UninstallerView;

    closed spec fn view(&self) -> UninstallerView {
        UninstallerView { dir: self.dir@, stage: self.stage@, rest: self.entries@ }
    }
}

impl Uninstaller {
    /// Begins the sweep of `dir`.
    pub fn begin(dir: ManagedDirectory) -> (start: (Uninstaller, Action))
        ensures
            (start.0@, start.1@) == UninstallerView::begin(dir@),
    {
        let action = dir.iter();
        let entries = DirIter::new(Vec::new());
        assert(entries@ =~= Seq::<ListedView>::empty());
        (Uninstaller { dir, stage: Stage::Listing, entries }, action)
    }

    /// A sweep that has failed before its first action.
    pub fn refused(error: Error) -> (start: (Uninstaller, Action))
        ensures
            (start.0@, start.1@) == (UninstallerView::begin(Seq::empty()).0).halt(error),
    {
        let dir = ManagedDirectory::new(String::new());
        let entries = DirIter::new(Vec::new());
        assert(entries@ =~= Seq::<ListedView>::empty());
        assert(dir@ =~= Seq::<char>::empty());
        Uninstaller::halt(dir, entries, error)
    }

    fn halt(dir: ManagedDirectory, entries: DirIter, error: Error) -> (next: (Uninstaller, Action))
        ensures
            next.0@ == (UninstallerView {
                dir: dir@,
                stage: SweepView::Aborted { error },
                rest: entries@,
            }),
            next.1@ == (ActionView::Abort { error }),
    {
        (Uninstaller { dir, stage: Stage::Aborted { error }, entries }, Action::Abort { error })
    }

    fn advance(dir: ManagedDirectory, entries: DirIter) -> (next: (Uninstaller, Action))
        ensures
            (next.0@, next.1@) == (UninstallerView {
                dir: dir@,
                stage: SweepView::Reporting,
                rest: entries@,
            }).advance(),
    {
        let mut entries = entries;
        match entries.next() {
            None => (Uninstaller { dir, stage: Stage::Finished, entries }, Action::Finish),
            Some(Listed::Unreadable) => Uninstaller::halt(dir, entries, Error::Io),
            Some(Listed::Entry(entry)) => {
                let action = Action::Probe { path: entry.path.clone() };
                (Uninstaller { dir, stage: Stage::Probing { entry }, entries }, action)
            },
        }
    }

    /// Takes the answer to the sweep's last action and names the next one.
    ///
    /// A sweep that has ended stays as it is and names its end again.
    pub fn step(self, reply: Reply) -> (next: (Uninstaller, Action))
        ensures
            (next.0@, next.1@) == self@.next(reply@),
    {
        let Uninstaller { dir, stage, entries } = self;
        match stage {
            Stage::Listing => match reply {
                Reply::Entries { entries: listing } => Uninstaller::advance(
                    dir,
                    DirIter::new(listing),
                ),
                _ => Uninstaller::halt(dir, entries, Error::Io),
            },
            Stage::Probing { entry } => match reply {
                Reply::Found { kind: Some(EntryKind::Symlink) } => {
                    let action = Action::Remove { path: entry.path.clone() };
                    (Uninstaller { dir, stage: Stage::Removing { entry }, entries }, action)
                },
                Reply::Found { kind: Some(_) } => Uninstaller::advance(dir, entries),
                _ => Uninstaller::halt(dir, entries, Error::Io),
            },
            Stage::Removing { entry } => match reply {
                Reply::Done => {
                    let report = Report::Removed { name: entry.name, path: entry.path };
                    (
                        Uninstaller { dir, stage: Stage::Reporting, entries },
                        Action::Report { report },
                    )
                },
                _ => Uninstaller::halt(dir, entries, Error::Io),
            },
            Stage::Reporting => match reply {
                Reply::Done => Uninstaller::advance(dir, entries),
                _ => Uninstaller::halt(dir, entries, Error::Io),
            },
            Stage::Finished => (
                Uninstaller { dir, stage: Stage::Finished, entries },
                Action::Finish,
            ),
            Stage::Aborted { error } => Uninstaller::halt(dir, entries, error),
        }
    }
}

} // verus!
