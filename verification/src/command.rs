//! The install command: from its arguments to the last link.
//!
//! The command checks its arguments, resolves the source tree, and then walks
//! the tree's `bin` and `files` into the home directory, one after the other.
//! A literal path is resolved by probing it. A repository is resolved by
//! making a directory for it under the configuration root and cloning into
//! that directory. Nothing on disk is touched before the arguments are found
//! to be in order.

use vstd::prelude::*;
use vstd::string::*;
use crate::directories::ManagedDirectory;
use crate::error::{ArgumentFault, Error};
use crate::install::{Installer, InstallerView};
use crate::paths::spec_join;
use crate::protocol::{Action, ActionView, Reply, ReplyView};
use crate::uninstall::{Uninstaller, UninstallerView};
use crate::url::{parse_url, parsed_url};

verus! {

/// The mathematical value of an optional string.
pub open spec fn text_of(text: Option<String>) -> Option<Seq<char>> {
    match text {
        Some(s) => Some(s@),
        None => None,
    }
}

/// The mathematical value of an optional string slice.
pub open spec fn text_of_str(text: Option<&str>) -> Option<Seq<char>> {
    match text {
        Some(s) => Some(s@),
        None => None,
    }
}

/// The arguments of the install command.
#[derive(Debug)]
pub struct InstallArgs {
    /// The URL of a repository to clone.
    pub git: Option<String>,
    /// The path of a source tree on disk.
    pub path: Option<String>,
}

/// The mathematical value of [`InstallArgs`].
pub struct ArgsView {
    pub git: Option<Seq<char>>,
    pub path: Option<Seq<char>>,
}

impl View for InstallArgs {
    type V = ArgsView;

    open spec fn view(&self) -> ArgsView {
        ArgsView { git: text_of(self.git), path: text_of(self.path) }
    }
}

/// Where the source tree comes from.
#[derive(Debug)]
pub enum Source {
    /// A directory on disk.
    Path(String),
    /// A repository, by its URL.
    Git(String),
}

/// The mathematical value of a [`Source`].
pub enum SourceView {
    Path(Seq<char>),
    Git(Seq<char>),
}

impl View for Source {
    type V = SourceView;

    open spec fn view(&self) -> SourceView {
        match self {
            Source::Path(path) => SourceView::Path(path@),
            Source::Git(url) => SourceView::Git(url@),
        }
    }
}

impl ArgsView {
    /// The source that the arguments name: exactly one of the two must be given.
    pub open spec fn source(self) -> Result<SourceView, Error> {
        match (self.git, self.path) {
            (Some(_), Some(_)) => Err(Error::InvalidArguments(ArgumentFault::BothSources)),
            (None, None) => Err(Error::InvalidArguments(ArgumentFault::NoSource)),
            (Some(url), None) => Ok(SourceView::Git(url)),
            (None, Some(path)) => Ok(SourceView::Path(path)),
        }
    }
}

impl InstallArgs {
    /// The source that the arguments name.
    pub fn source(self) -> (source: Result<Source, Error>)
        ensures
            source is Ok == self@.source() is Ok,
            source matches Ok(found) ==> self@.source() == Ok::<SourceView, Error>(found@),
            source matches Err(error) ==> self@.source() == Err::<SourceView, Error>(error),
    {
        match (self.git, self.path) {
            (Some(_), Some(_)) => Err(Error::InvalidArguments(ArgumentFault::BothSources)),
            (None, None) => Err(Error::InvalidArguments(ArgumentFault::NoSource)),
            (Some(url), None) => Ok(Source::Git(url)),
            (None, Some(path)) => Ok(Source::Path(path)),
        }
    }
}

/// The configuration root in the home directory at `home`.
pub open spec fn spec_config_root(home: Seq<char>) -> Seq<char> {
    spec_join(home, ".dotfilr"@)
}

/// The directory `path` under the configuration root, with the root itself,
/// or the failure to find a home directory.
pub open spec fn spec_config_dir(home: Option<Seq<char>>, path: Seq<char>) -> Result<
    (Seq<char>, Seq<char>),
    Error,
> {
    match home {
        None => Err(Error::Configuration),
        Some(home) => Ok((spec_config_root(home), spec_join(spec_config_root(home), path))),
    }
}

/// The configuration root and the directory `path` under it, each with the
/// action that makes sure it exists: the root is to be made first.
///
/// Without a home directory there is no configuration root.
pub fn make_config_dir(home: Option<&str>, path: &str) -> (dirs: Result<
    ((ManagedDirectory, Action), (ManagedDirectory, Action)),
    Error,
>)
    ensures
        dirs is Ok == spec_config_dir(text_of_str(home), path@) is Ok,
        dirs matches Err(error) ==> error == Error::Configuration,
        dirs matches Ok(made) ==> {
            &&& spec_config_dir(text_of_str(home), path@) == Ok::<(Seq<char>, Seq<char>), Error>(
                ((made.0).0@, (made.1).0@),
            )
            &&& (made.0).1@ == (ActionView::MakeDir { path: (made.0).0@ })
            &&& (made.1).1@ == (ActionView::MakeDir { path: (made.1).0@ })
        },
{
    match home {
        None => Err(Error::Configuration),
        Some(home) => {
            let home_dir = ManagedDirectory::new(String::from_str(home));
            let root = home_dir.subdir(String::from_str(".dotfilr"));
            let dir = root.0.subdir(String::from_str(path));
            Ok((root, dir))
        },
    }
}

/// Where under the configuration root the repository with the URL path
/// `url_path` is kept.
pub open spec fn spec_repo_path(url_path: Seq<char>) -> Seq<char> {
    "repos/"@ + url_path
}

/// Where an install stands: which answer it waits for.
#[derive(Debug)]
enum Stage {
    CheckingPath { source: ManagedDirectory },
    MakingRoot { repo: ManagedDirectory, url: String },
    MakingRepo { repo: ManagedDirectory, url: String },
    Cloning { repo: ManagedDirectory },
    Merging { walk: Installer, source: ManagedDirectory, last: bool },
    Finished,
    Aborted { error: Error },
}

/// The mathematical value of an install's stage.
pub enum StageView {
    /// Waiting to hear whether the literal path `source` names anything.
    CheckingPath { source: Seq<char> },
    /// Waiting for the configuration root to be made.
    MakingRoot { repo: Seq<char>, url: Seq<char> },
    /// Waiting for the repository's directory `repo` to be made.
    MakingRepo { repo: Seq<char>, url: Seq<char> },
    /// Waiting for the clone into `repo`.
    Cloning { repo: Seq<char> },
    /// In the walk over one subdirectory of `source`: the last one, or the
    /// one before it.
    Merging { walk: InstallerView, source: Seq<char>, last: bool },
    /// Both subdirectories were walked.
    Finished,
    /// The install met a failure.
    Aborted { error: Error },
}

impl View for Stage {
    type V = StageView;

    closed spec fn view(&self) -> StageView {
        match self {
            Stage::CheckingPath { source } => StageView::CheckingPath { source: source@ },
            Stage::MakingRoot { repo, url } => StageView::MakingRoot { repo: repo@, url: url@ },
            Stage::MakingRepo { repo, url } => StageView::MakingRepo { repo: repo@, url: url@ },
            Stage::Cloning { repo } => StageView::Cloning { repo: repo@ },
            Stage::Merging { walk, source, last } => StageView::Merging {
                walk: walk@,
                source: source@,
                last: *last,
            },
            Stage::Finished => StageView::Finished,
            Stage::Aborted { error } => StageView::Aborted { error: *error },
        }
    }
}

/// The install command, between two actions.
#[derive(Debug)]
pub struct InstallCommand {
    home: String,
    stage: Stage,
}

/// The mathematical value of an [`InstallCommand`].
pub struct CommandView {
    /// The home directory, which receives the links.
    pub home: Seq<char>,
    pub stage: StageView,
}

impl CommandView {
    /// An install that has failed before its first action.
    pub open spec fn refused(home: Seq<char>, error: Error) -> (CommandView, ActionView) {
        (CommandView { home, stage: StageView::Aborted { error } }, ActionView::Abort { error })
    }

    /// The install ends with `error`.
    pub open spec fn halt(self, error: Error) -> (CommandView, ActionView) {
        CommandView::refused(self.home, error)
    }

    /// The install of the repository at `url`, whose URL has the path
    /// `url_path`: its directory under the configuration root is made, root
    /// first, before anything is cloned.
    pub open spec fn begin_clone(home: Seq<char>, url: Seq<char>, url_path: Seq<char>) -> (
        CommandView,
        ActionView,
    ) {
        let root = spec_config_root(home);
        let repo = spec_join(root, spec_repo_path(url_path));
        (
            CommandView { home, stage: StageView::MakingRoot { repo, url } },
            ActionView::MakeDir { path: root },
        )
    }

    /// The install with the arguments `args` into the home directory `home`,
    /// and its first action.
    ///
    /// Without a home directory nothing is looked at. Arguments that name no
    /// source, two sources, or a repository whose reference is no URL, end the
    /// install before its first action on disk.
    pub open spec fn begin(args: ArgsView, home: Option<Seq<char>>) -> (CommandView, ActionView) {
        match home {
            None => CommandView::refused(Seq::empty(), Error::Configuration),
            Some(home) => match args.source() {
                Err(error) => CommandView::refused(home, error),
                Ok(SourceView::Path(path)) => (
                    CommandView { home, stage: StageView::CheckingPath { source: path } },
                    ActionView::Probe { path },
                ),
                Ok(SourceView::Git(url)) => match parsed_url(url) {
                    None => CommandView::refused(
                        home,
                        Error::InvalidArguments(ArgumentFault::BadUrl),
                    ),
                    Some(parts) => CommandView::begin_clone(home, parts.0, parts.1),
                },
            },
        }
    }

    /// The walk over the subdirectory `name` of `source` begins.
    pub open spec fn merge(self, source: Seq<char>, name: Seq<char>, last: bool) -> (
        CommandView,
        ActionView,
    ) {
        let (walk, action) = InstallerView::begin(source, self.home, name);
        (CommandView { stage: StageView::Merging { walk, source, last }, ..self }, action)
    }

    /// What the install makes of a step of its walk over a subdirectory of
    /// `source`, which has left the walk as `onward` and has named `action`:
    /// the walk's failure is the install's; after the walk before the last,
    /// the walk over `files` begins; after the last, the install is done; and
    /// any other action is handed on.
    pub open spec fn carry(
        self,
        source: Seq<char>,
        last: bool,
        onward: InstallerView,
        action: ActionView,
    ) -> (CommandView, ActionView) {
        match action {
            ActionView::Finish => if last {
                (CommandView { stage: StageView::Finished, ..self }, ActionView::Finish)
            } else {
                self.merge(source, "files"@, true)
            },
            ActionView::Abort { error } => self.halt(error),
            _ => (
                CommandView { stage: StageView::Merging { walk: onward, source, last }, ..self },
                action,
            ),
        }
    }

    /// The install's next state and action, once `reply` has answered its last action.
    pub open spec fn next(self, reply: ReplyView) -> (CommandView, ActionView) {
        match self.stage {
            StageView::CheckingPath { source } => match reply {
                ReplyView::Found { kind: Some(_) } => self.merge(source, "bin"@, false),
                ReplyView::Found { kind: None } => self.halt(
                    Error::InvalidArguments(ArgumentFault::MissingPath),
                ),
                _ => self.halt(Error::Io),
            },
            StageView::MakingRoot { repo, url } => match reply {
                ReplyView::Done => (
                    CommandView { stage: StageView::MakingRepo { repo, url }, ..self },
                    ActionView::MakeDir { path: repo },
                ),
                _ => self.halt(Error::Io),
            },
            StageView::MakingRepo { repo, url } => match reply {
                ReplyView::Done => (
                    CommandView { stage: StageView::Cloning { repo }, ..self },
                    ActionView::Clone { url, into: repo },
                ),
                _ => self.halt(Error::Io),
            },
            StageView::Cloning { repo } => match reply {
                ReplyView::Done => self.merge(repo, "bin"@, false),
                _ => self.halt(Error::Io),
            },
            StageView::Merging { walk, source, last } => {
                let (onward, action) = walk.next(reply);
                self.carry(source, last, onward, action)
            },
            StageView::Finished => (self, ActionView::Finish),
            StageView::Aborted { error } => (self, ActionView::Abort { error }),
        }
    }
}

impl View for InstallCommand {
    type V = CommandView;

    closed spec fn view(&self) -> CommandView {
        CommandView { home: self.home@, stage: self.stage@ }
    }
}

impl InstallCommand {
    fn refused(home: String, error: Error) -> (start: (InstallCommand, Action))
        ensures
            (start.0@, start.1@) == CommandView::refused(home@, error),
    {
        (InstallCommand { home, stage: Stage::Aborted { error } }, Action::Abort { error })
    }

    fn merge(home: String, source: ManagedDirectory, name: &str, last: bool) -> (next: (
        InstallCommand,
        Action,
    ))
        ensures
            (next.0@, next.1@) == (CommandView { home: home@, stage: StageView::Finished }).merge(
                source@,
                name@,
                last,
            ),
    {
        let (walk, action) = Installer::begin(&source, home.as_str(), name);
        (InstallCommand { home, stage: Stage::Merging { walk, source, last } }, action)
    }

    /// Begins the install of the repository at `url`, whose URL has the path
    /// `url_path`, into the home directory at `home`.
    pub fn begin_clone(home: String, url: String, url_path: &str) -> (start: (
        InstallCommand,
        Action,
    ))
        ensures
            (start.0@, start.1@) == CommandView::begin_clone(home@, url@, url_path@),
    {
        let repo_path = String::from_str("repos/").concat(url_path);
        let (root, repo) = make_config_dir(Some(home.as_str()), repo_path.as_str()).unwrap();
        (InstallCommand { home, stage: Stage::MakingRoot { repo: repo.0, url } }, root.1)
    }

    /// Begins the install with the arguments `args` into the home directory
    /// `home`, which is `None` where none could be determined.
    pub fn begin(args: InstallArgs, home: Option<String>) -> (start: (InstallCommand, Action))
        ensures
            (start.0@, start.1@) == CommandView::begin(args@, text_of(home)),
    {
        match home {
            None => InstallCommand::refused(String::new(), Error::Configuration),
            Some(home) => match args.source() {
                Err(error) => InstallCommand::refused(home, error),
                Ok(Source::Path(path)) => {
                    let source = ManagedDirectory::new(path);
                    let action = source.probe();
                    (InstallCommand { home, stage: Stage::CheckingPath { source } }, action)
                },
                Ok(Source::Git(url)) => match parse_url(url.as_str()) {
                    None => InstallCommand::refused(
                        home,
                        Error::InvalidArguments(ArgumentFault::BadUrl),
                    ),
                    Some((text, url_path)) => InstallCommand::begin_clone(
                        home,
                        text,
                        url_path.as_str(),
                    ),
                },
            },
        }
    }

    /// Takes the answer to the install's last action and names the next one.
    ///
    /// An install that has ended stays as it is and names its end again.
    pub fn step(self, reply: Reply) -> (next: (InstallCommand, Action))
        ensures
            (next.0@, next.1@) == self@.next(reply@),
    {
        let InstallCommand { home, stage } = self;
        match stage {
            Stage::CheckingPath { source } => match reply {
                Reply::Found { kind: Some(_) } => InstallCommand::merge(home, source, "bin", false),
                Reply::Found { kind: None } => InstallCommand::refused(
                    home,
                    Error::InvalidArguments(ArgumentFault::MissingPath),
                ),
                _ => InstallCommand::refused(home, Error::Io),
            },
            Stage::MakingRoot { repo, url } => match reply {
                Reply::Done => {
                    let action = Action::MakeDir { path: repo.to_string() };
                    (InstallCommand { home, stage: Stage::MakingRepo { repo, url } }, action)
                },
                _ => InstallCommand::refused(home, Error::Io),
            },
            Stage::MakingRepo { repo, url } => match reply {
                Reply::Done => {
                    let action = Action::Clone { url, into: repo.to_string() };
                    (InstallCommand { home, stage: Stage::Cloning { repo } }, action)
                },
                _ => InstallCommand::refused(home, Error::Io),
            },
            Stage::Cloning { repo } => match reply {
                Reply::Done => InstallCommand::merge(home, repo, "bin", false),
                _ => InstallCommand::refused(home, Error::Io),
            },
            Stage::Merging { walk, source, last } => {
                let (onward, action) = walk.step(reply);
                match action {
                    Action::Finish => if last {
                        (InstallCommand { home, stage: Stage::Finished }, Action::Finish)
                    } else {
                        InstallCommand::merge(home, source, "files", true)
                    },
                    Action::Abort { error } => InstallCommand::refused(home, error),
                    _ => (
                        InstallCommand {
                            home,
                            stage: Stage::Merging { walk: onward, source, last },
                        },
                        action,
                    ),
                }
            },
            Stage::Finished => (InstallCommand { home, stage: Stage::Finished }, Action::Finish),
            Stage::Aborted { error } => InstallCommand::refused(home, error),
        }
    }
}

/// The uninstall command in the home directory `home`: the sweep of its
/// `bin`, or the failure to find a home directory.
pub open spec fn spec_uninstall(home: Option<Seq<char>>) -> (UninstallerView, ActionView) {
    match home {
        None => (UninstallerView::begin(Seq::empty()).0).halt(Error::Configuration),
        Some(home) => UninstallerView::begin(spec_join(home, "bin"@)),
    }
}

/// Begins the uninstall command in the home directory `home`, which is `None`
/// where none could be determined.
pub fn uninstall(home: Option<String>) -> (start: (Uninstaller, Action))
    ensures
        (start.0@, start.1@) == spec_uninstall(text_of(home)),
{
    match home {
        None => Uninstaller::refused(Error::Configuration),
        Some(home) => {
            let (bin, _) = ManagedDirectory::new(home).subdir(String::from_str("bin"));
            Uninstaller::begin(bin)
        },
    }
}

} // verus!
