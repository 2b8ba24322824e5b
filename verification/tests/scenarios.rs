use std::collections::BTreeMap;

use dotfilr::command::{uninstall, InstallArgs, InstallCommand};
use dotfilr::directories::ManagedDirectory;
use dotfilr::error::{ArgumentFault, Error};
use dotfilr::install::Installer;
use dotfilr::protocol::{Action, DirectoryEntry, EntryKind, Listed, Reply};
use dotfilr::uninstall::Uninstaller;

#[derive(Clone, Debug, PartialEq, Eq)]
enum Node {
    Dir,
    File(String),
    Link(String),
}

/// A disk in memory. A link or a removal is carried out on whatever is there.
#[derive(Clone, Debug, PartialEq, Eq)]
struct Disk {
    tree: BTreeMap<String, Node>,
    lines: Vec<String>,
    done: usize,
    fail_at: Option<usize>,
    asked: Vec<Action>,
}

impl Disk {
    fn new() -> Disk {
        Disk { tree: BTreeMap::new(), lines: Vec::new(), done: 0, fail_at: None, asked: Vec::new() }
    }

    fn dir(mut self, path: &str) -> Disk {
        self.tree.insert(String::from(path), Node::Dir);
        self
    }

    fn file(mut self, path: &str, content: &str) -> Disk {
        self.tree.insert(String::from(path), Node::File(String::from(content)));
        self
    }

    fn link(mut self, path: &str, target: &str) -> Disk {
        self.tree.insert(String::from(path), Node::Link(String::from(target)));
        self
    }

    fn at(&self, path: &str) -> Option<&Node> {
        self.tree.get(path)
    }

    fn way(path: &str) -> Vec<String> {
        let mut places = Vec::new();
        for (at, c) in path.char_indices() {
            if c == '/' && at > 0 {
                places.push(String::from(&path[..at]));
            }
        }
        places.push(String::from(path));
        places
    }

    fn perform(&mut self, action: &Action) -> Reply {
        self.asked.push(action.clone());
        let moment = self.done;
        self.done += 1;
        if self.fail_at == Some(moment) {
            return Reply::Failed;
        }
        match action {
            Action::MakeDir { path } => {
                let places = Disk::way(path);
                if places.iter().any(|p| matches!(self.tree.get(p), Some(n) if *n != Node::Dir)) {
                    return Reply::Failed;
                }
                for place in places {
                    self.tree.entry(place).or_insert(Node::Dir);
                }
                Reply::Done
            }
            Action::List { path } => {
                if self.tree.get(path) != Some(&Node::Dir) {
                    return Reply::Failed;
                }
                let prefix = format!("{}/", path);
                let mut entries = Vec::new();
                for key in self.tree.keys() {
                    if let Some(name) = key.strip_prefix(&prefix) {
                        if !name.is_empty() && !name.contains('/') {
                            entries.push(Listed::Entry(DirectoryEntry {
                                name: String::from(name),
                                path: key.clone(),
                            }));
                        }
                    }
                }
                Reply::Entries { entries }
            }
            Action::Probe { path } => Reply::Found {
                kind: self.tree.get(path).map(|node| match node {
                    Node::Dir => EntryKind::Directory,
                    Node::File(_) => EntryKind::RegularFile,
                    Node::Link(_) => EntryKind::Symlink,
                }),
            },
            Action::Symlink { target, link } => {
                self.tree.insert(link.clone(), Node::Link(target.clone()));
                Reply::Done
            }
            Action::Remove { path } => match self.tree.remove(path) {
                Some(_) => Reply::Done,
                None => Reply::Failed,
            },
            Action::Clone { url: _, into } => {
                self.tree.insert(format!("{}/bin", into), Node::Dir);
                self.tree.insert(format!("{}/bin/tool", into), Node::File(String::from("#!")));
                self.tree.insert(format!("{}/files", into), Node::Dir);
                self.tree.insert(format!("{}/files/.vimrc", into), Node::File(String::from("set")));
                Reply::Done
            }
            Action::Report { report } => {
                self.lines.push(report.line());
                Reply::Done
            }
            Action::Finish | Action::Abort { .. } => Reply::Done,
        }
    }
}

fn run_walk(start: (Installer, Action), disk: &mut Disk) -> Action {
    let (mut walk, mut action) = start;
    let mut fuel = 1000;
    while !action.is_terminal() {
        assert!(fuel > 0);
        fuel -= 1;
        let reply = disk.perform(&action);
        (walk, action) = walk.step(reply);
    }
    action
}

fn run_sweep(start: (Uninstaller, Action), disk: &mut Disk) -> Action {
    let (mut sweep, mut action) = start;
    let mut fuel = 1000;
    while !action.is_terminal() {
        assert!(fuel > 0);
        fuel -= 1;
        let reply = disk.perform(&action);
        (sweep, action) = sweep.step(reply);
    }
    action
}

fn run_command(start: (InstallCommand, Action), disk: &mut Disk) -> Action {
    let (mut command, mut action) = start;
    let mut fuel = 1000;
    while !action.is_terminal() {
        assert!(fuel > 0);
        fuel -= 1;
        let reply = disk.perform(&action);
        (command, action) = command.step(reply);
    }
    action
}

fn dots() -> Disk {
    Disk::new()
        .dir("/dots")
        .dir("/dots/bin")
        .file("/dots/bin/greet.sh", "echo hello")
        .file("/dots/bin/ls-alias.sh", "alias l=ls")
        .dir("/home/u")
        .dir("/home/u/bin")
}

fn source() -> ManagedDirectory {
    ManagedDirectory::new(String::from("/dots"))
}

fn args(git: Option<&str>, path: Option<&str>) -> InstallArgs {
    InstallArgs { git: git.map(String::from), path: path.map(String::from) }
}

#[test]
fn install_links_every_entry_into_an_empty_destination() {
    let mut disk = dots();
    let end = run_walk(source().install_to("/home/u"), &mut disk);
    assert_eq!(end, Action::Finish);
    assert_eq!(
        disk.at("/home/u/bin/greet.sh"),
        Some(&Node::Link(String::from("/dots/bin/greet.sh")))
    );
    assert_eq!(
        disk.at("/home/u/bin/ls-alias.sh"),
        Some(&Node::Link(String::from("/dots/bin/ls-alias.sh")))
    );
    assert_eq!(disk.lines, vec!["linked greet.sh", "linked ls-alias.sh"]);
}

#[test]
fn install_skips_an_entry_that_is_already_there() {
    let mut disk = dots().file("/home/u/bin/greet.sh", "my own");
    let end = run_walk(source().install_to("/home/u"), &mut disk);
    assert_eq!(end, Action::Finish);
    assert_eq!(disk.at("/home/u/bin/greet.sh"), Some(&Node::File(String::from("my own"))));
    assert_eq!(
        disk.at("/home/u/bin/ls-alias.sh"),
        Some(&Node::Link(String::from("/dots/bin/ls-alias.sh")))
    );
    assert_eq!(disk.lines, vec!["skipped greet.sh", "linked ls-alias.sh"]);
}

#[test]
fn install_skips_a_directory_and_a_link_too() {
    let mut disk =
        dots().dir("/home/u/bin/greet.sh").link("/home/u/bin/ls-alias.sh", "/elsewhere");
    let end = run_walk(source().install_to("/home/u"), &mut disk);
    assert_eq!(end, Action::Finish);
    assert_eq!(disk.at("/home/u/bin/greet.sh"), Some(&Node::Dir));
    assert_eq!(disk.at("/home/u/bin/ls-alias.sh"), Some(&Node::Link(String::from("/elsewhere"))));
    assert_eq!(disk.lines, vec!["skipped greet.sh", "skipped ls-alias.sh"]);
}

#[test]
fn install_never_asks_for_a_link_at_a_taken_place() {
    let mut disk = dots().file("/home/u/bin/greet.sh", "my own");
    run_walk(source().install_to("/home/u"), &mut disk);
    let links: Vec<&Action> =
        disk.asked.iter().filter(|a| matches!(a, Action::Symlink { .. })).collect();
    assert_eq!(
        links,
        vec![&Action::Symlink {
            target: String::from("/dots/bin/ls-alias.sh"),
            link: String::from("/home/u/bin/ls-alias.sh"),
        }]
    );
}

#[test]
fn install_twice_changes_nothing_the_second_time() {
    let mut disk = dots();
    assert_eq!(run_walk(source().install_to("/home/u"), &mut disk), Action::Finish);
    let after_first = disk.tree.clone();
    disk.lines.clear();
    assert_eq!(run_walk(source().install_to("/home/u"), &mut disk), Action::Finish);
    assert_eq!(disk.tree, after_first);
    assert_eq!(disk.lines, vec!["skipped greet.sh", "skipped ls-alias.sh"]);
}

#[test]
fn install_makes_both_subdirectories() {
    let mut disk = Disk::new().dir("/dots").dir("/home/u");
    let end = run_walk(source().install_to("/home/u"), &mut disk);
    assert_eq!(end, Action::Finish);
    assert_eq!(disk.at("/dots/bin"), Some(&Node::Dir));
    assert_eq!(disk.at("/home/u/bin"), Some(&Node::Dir));
    assert!(disk.lines.is_empty());
    assert_eq!(
        disk.asked,
        vec![
            Action::MakeDir { path: String::from("/dots/bin") },
            Action::MakeDir { path: String::from("/home/u/bin") },
            Action::List { path: String::from("/dots/bin") },
        ]
    );
}

#[test]
fn install_ends_where_the_destination_is_blocked() {
    let mut disk = Disk::new()
        .dir("/dots")
        .dir("/dots/bin")
        .file("/dots/bin/greet.sh", "echo")
        .dir("/home/u")
        .file("/home/u/bin", "a file in the way");
    let before = disk.tree.clone();
    let end = run_walk(source().install_to("/home/u"), &mut disk);
    assert_eq!(end, Action::Abort { error: Error::Io });
    assert_eq!(disk.tree, before);
}

#[test]
fn install_keeps_the_links_made_before_a_failure() {
    let mut disk = dots();
    // Two directories, the listing, and the three actions of the first entry
    // go through; the probe of the second entry fails.
    disk.fail_at = Some(6);
    let end = run_walk(source().install_to("/home/u"), &mut disk);
    assert_eq!(end, Action::Abort { error: Error::Io });
    assert_eq!(
        disk.at("/home/u/bin/greet.sh"),
        Some(&Node::Link(String::from("/dots/bin/greet.sh")))
    );
    assert_eq!(disk.at("/home/u/bin/ls-alias.sh"), None);
    assert_eq!(disk.lines, vec!["linked greet.sh"]);
}

#[test]
fn install_changes_no_entry_whatever_fails() {
    for moment in 0..12 {
        let mut disk = dots().file("/home/u/bin/greet.sh", "my own").file("/home/u/notes", "n");
        let before = disk.tree.clone();
        disk.fail_at = Some(moment);
        run_walk(source().install_to("/home/u"), &mut disk);
        for (path, node) in &before {
            assert_eq!(disk.tree.get(path), Some(node));
        }
    }
}

#[test]
fn install_ends_on_an_entry_that_cannot_be_read() {
    let (walk, _) = source().install_to("/home/u");
    let (walk, _) = walk.step(Reply::Done);
    let (walk, action) = walk.step(Reply::Done);
    assert_eq!(action, Action::List { path: String::from("/dots/bin") });
    let listing = vec![
        Listed::Entry(DirectoryEntry {
            name: String::from("a"),
            path: String::from("/dots/bin/a"),
        }),
        Listed::Unreadable,
        Listed::Entry(DirectoryEntry {
            name: String::from("b"),
            path: String::from("/dots/bin/b"),
        }),
    ];
    let (walk, action) = walk.step(Reply::Entries { entries: listing });
    assert_eq!(action, Action::Probe { path: String::from("/home/u/bin/a") });
    let (walk, action) = walk.step(Reply::Found { kind: None });
    assert_eq!(
        action,
        Action::Symlink { target: String::from("/dots/bin/a"), link: String::from("/home/u/bin/a") }
    );
    let (walk, action) = walk.step(Reply::Done);
    assert!(matches!(action, Action::Report { .. }));
    let (walk, action) = walk.step(Reply::Done);
    assert_eq!(action, Action::Abort { error: Error::Io });
    let (_, action) = walk.step(Reply::Done);
    assert_eq!(action, Action::Abort { error: Error::Io });
}

#[test]
fn install_ends_on_an_entry_without_a_file_name() {
    let (walk, _) = source().install_to("/home/u");
    let (walk, _) = walk.step(Reply::Done);
    let (walk, _) = walk.step(Reply::Done);
    let listing = vec![Listed::Entry(DirectoryEntry {
        name: String::from(".."),
        path: String::from("/dots/bin/.."),
    })];
    let (_, action) = walk.step(Reply::Entries { entries: listing });
    assert_eq!(action, Action::Abort { error: Error::Io });
}

#[test]
fn install_ends_on_an_answer_that_does_not_fit() {
    let (walk, action) = source().install_to("/home/u");
    assert_eq!(action, Action::MakeDir { path: String::from("/dots/bin") });
    let (_, action) = walk.step(Reply::Found { kind: None });
    assert_eq!(action, Action::Abort { error: Error::Io });
}

#[test]
fn a_finished_install_stays_finished() {
    let mut disk = Disk::new().dir("/dots").dir("/home/u");
    let (mut walk, mut action) = source().install_to("/home/u");
    while !action.is_terminal() {
        let reply = disk.perform(&action);
        (walk, action) = walk.step(reply);
    }
    assert_eq!(action, Action::Finish);
    let (_, action) = walk.step(Reply::Failed);
    assert_eq!(action, Action::Finish);
}

#[test]
fn installer_begin_walks_the_named_subdirectory() {
    let mut disk = Disk::new()
        .dir("/dots")
        .dir("/dots/files")
        .file("/dots/files/.vimrc", "set nu")
        .dir("/home/u");
    let end = run_walk(Installer::begin(&source(), "/home/u", "files"), &mut disk);
    assert_eq!(end, Action::Finish);
    assert_eq!(
        disk.at("/home/u/files/.vimrc"),
        Some(&Node::Link(String::from("/dots/files/.vimrc")))
    );
    assert_eq!(disk.lines, vec!["linked .vimrc"]);
}

#[test]
fn uninstall_removes_the_link_and_leaves_the_file() {
    let mut disk = Disk::new()
        .dir("/home/u")
        .dir("/home/u/bin")
        .link("/home/u/bin/a", "/dots/bin/a")
        .file("/home/u/bin/b", "mine");
    let end = run_sweep(uninstall(Some(String::from("/home/u"))), &mut disk);
    assert_eq!(end, Action::Finish);
    assert_eq!(disk.at("/home/u/bin/a"), None);
    assert_eq!(disk.at("/home/u/bin/b"), Some(&Node::File(String::from("mine"))));
    assert_eq!(disk.lines, vec!["removed a"]);
}

#[test]
fn uninstall_leaves_directories_and_what_is_outside() {
    let mut disk = Disk::new()
        .dir("/home/u")
        .dir("/home/u/bin")
        .dir("/home/u/bin/sub")
        .link("/home/u/bin/sub/inner", "/x")
        .link("/home/u/bin/a", "/dots/bin/a")
        .link("/home/u/bin/c", "/dots/bin/c")
        .link("/home/u/other", "/y");
    let end = run_sweep(uninstall(Some(String::from("/home/u"))), &mut disk);
    assert_eq!(end, Action::Finish);
    assert_eq!(disk.at("/home/u/bin/a"), None);
    assert_eq!(disk.at("/home/u/bin/c"), None);
    assert_eq!(disk.at("/home/u/bin/sub"), Some(&Node::Dir));
    assert_eq!(disk.at("/home/u/bin/sub/inner"), Some(&Node::Link(String::from("/x"))));
    assert_eq!(disk.at("/home/u/other"), Some(&Node::Link(String::from("/y"))));
    assert_eq!(disk.at("/home/u/bin"), Some(&Node::Dir));
    assert_eq!(disk.lines, vec!["removed a", "removed c"]);
}

#[test]
fn uninstall_never_asks_to_remove_anything_but_a_link() {
    for moment in 0..10 {
        let mut disk = Disk::new()
            .dir("/home/u")
            .dir("/home/u/bin")
            .link("/home/u/bin/a", "/dots/bin/a")
            .file("/home/u/bin/b", "mine")
            .dir("/home/u/bin/d");
        disk.fail_at = Some(moment);
        run_sweep(uninstall(Some(String::from("/home/u"))), &mut disk);
        assert_eq!(disk.at("/home/u/bin/b"), Some(&Node::File(String::from("mine"))));
        assert_eq!(disk.at("/home/u/bin/d"), Some(&Node::Dir));
        for action in &disk.asked {
            if let Action::Remove { path } = action {
                assert_eq!(path, "/home/u/bin/a");
            }
        }
    }
}

#[test]
fn uninstall_ends_where_the_directory_cannot_be_listed() {
    let mut disk = Disk::new().dir("/home/u");
    let end = run_sweep(uninstall(Some(String::from("/home/u"))), &mut disk);
    assert_eq!(end, Action::Abort { error: Error::Io });
    assert_eq!(disk.asked, vec![Action::List { path: String::from("/home/u/bin") }]);
}

#[test]
fn uninstall_ends_on_an_entry_that_has_gone() {
    let dir = ManagedDirectory::new(String::from("/home/u/bin"));
    let (sweep, action) = Uninstaller::begin(dir);
    assert_eq!(action, Action::List { path: String::from("/home/u/bin") });
    let listing = vec![Listed::Entry(DirectoryEntry {
        name: String::from("a"),
        path: String::from("/home/u/bin/a"),
    })];
    let (sweep, action) = sweep.step(Reply::Entries { entries: listing });
    assert_eq!(action, Action::Probe { path: String::from("/home/u/bin/a") });
    let (sweep, action) = sweep.step(Reply::Found { kind: None });
    assert_eq!(action, Action::Abort { error: Error::Io });
    let (_, action) = sweep.step(Reply::Done);
    assert_eq!(action, Action::Abort { error: Error::Io });
}

#[test]
fn uninstall_without_a_home_fails_before_any_action() {
    let (sweep, action) = uninstall(None);
    assert_eq!(action, Action::Abort { error: Error::Configuration });
    let (_, action) = sweep.step(Reply::Done);
    assert_eq!(action, Action::Abort { error: Error::Configuration });
    let (_, action) = Uninstaller::refused(Error::Io);
    assert_eq!(action, Action::Abort { error: Error::Io });
}

#[test]
fn making_a_subdirectory_twice_changes_nothing_the_second_time() {
    let mut disk = Disk::new().dir("/home/u").file("/home/u/notes", "n");
    let (_, action) = ManagedDirectory::new(String::from("/home/u")).subdir(String::from("a/b"));
    assert_eq!(disk.perform(&action), Reply::Done);
    let once = disk.tree.clone();
    assert_eq!(disk.at("/home/u/a"), Some(&Node::Dir));
    assert_eq!(disk.at("/home/u/a/b"), Some(&Node::Dir));
    assert_eq!(disk.at("/home/u/notes"), Some(&Node::File(String::from("n"))));
    assert_eq!(disk.perform(&action), Reply::Done);
    assert_eq!(disk.tree, once);
}

#[test]
fn making_a_subdirectory_below_a_file_fails_and_changes_nothing() {
    let mut disk = Disk::new().dir("/home/u").file("/home/u/a", "in the way");
    let before = disk.tree.clone();
    let (_, action) = ManagedDirectory::new(String::from("/home/u")).subdir(String::from("a/b"));
    assert_eq!(disk.perform(&action), Reply::Failed);
    assert_eq!(disk.tree, before);
}

#[test]
fn command_with_a_path_walks_bin_and_files() {
    let mut disk = dots().dir("/dots/files").file("/dots/files/.vimrc", "set nu");
    let start = InstallCommand::begin(args(None, Some("/dots")), Some(String::from("/home/u")));
    assert_eq!(start.1, Action::Probe { path: String::from("/dots") });
    let end = run_command(start, &mut disk);
    assert_eq!(end, Action::Finish);
    assert_eq!(
        disk.at("/home/u/bin/greet.sh"),
        Some(&Node::Link(String::from("/dots/bin/greet.sh")))
    );
    assert_eq!(
        disk.at("/home/u/files/.vimrc"),
        Some(&Node::Link(String::from("/dots/files/.vimrc")))
    );
    assert_eq!(disk.lines, vec!["linked greet.sh", "linked ls-alias.sh", "linked .vimrc"]);
}

#[test]
fn command_with_a_missing_path_touches_nothing() {
    let mut disk = Disk::new().dir("/home/u");
    let before = disk.tree.clone();
    let start = InstallCommand::begin(args(None, Some("/nowhere")), Some(String::from("/home/u")));
    let end = run_command(start, &mut disk);
    assert_eq!(end, Action::Abort { error: Error::InvalidArguments(ArgumentFault::MissingPath) });
    assert_eq!(disk.tree, before);
    assert_eq!(disk.asked, vec![Action::Probe { path: String::from("/nowhere") }]);
}

#[test]
fn command_with_both_sources_is_refused() {
    let (command, action) = InstallCommand::begin(
        args(Some("https://example.com/u/dots.git"), Some("/dots")),
        Some(String::from("/home/u")),
    );
    assert_eq!(action, Action::Abort { error: Error::InvalidArguments(ArgumentFault::BothSources) });
    let (_, action) = command.step(Reply::Found { kind: Some(EntryKind::Directory) });
    assert_eq!(action, Action::Abort { error: Error::InvalidArguments(ArgumentFault::BothSources) });
}

#[test]
fn command_with_no_source_is_refused() {
    let (command, action) = InstallCommand::begin(args(None, None), Some(String::from("/home/u")));
    assert_eq!(action, Action::Abort { error: Error::InvalidArguments(ArgumentFault::NoSource) });
    let (_, action) = command.step(Reply::Done);
    assert_eq!(action, Action::Abort { error: Error::InvalidArguments(ArgumentFault::NoSource) });
}

#[test]
fn command_without_a_home_is_a_configuration_error() {
    let (_, action) = InstallCommand::begin(args(None, Some("/dots")), None);
    assert_eq!(action, Action::Abort { error: Error::Configuration });
    let (_, action) = InstallCommand::begin(args(None, None), None);
    assert_eq!(action, Action::Abort { error: Error::Configuration });
}

#[test]
fn command_with_a_bad_url_is_refused() {
    let (_, action) =
        InstallCommand::begin(args(Some("not a url"), None), Some(String::from("/home/u")));
    assert_eq!(action, Action::Abort { error: Error::InvalidArguments(ArgumentFault::BadUrl) });
}

#[test]
fn command_with_a_repository_clones_under_the_configuration_root() {
    let mut disk = Disk::new().dir("/home/u");
    let start = InstallCommand::begin(
        args(Some("HTTPS://Example.COM/user/dots.git?ref=main"), None),
        Some(String::from("/home/u")),
    );
    let end = run_command(start, &mut disk);
    assert_eq!(end, Action::Finish);
    assert_eq!(
        disk.asked[..3],
        [
            Action::MakeDir { path: String::from("/home/u/.dotfilr") },
            Action::MakeDir { path: String::from("/home/u/.dotfilr/repos//user/dots.git") },
            Action::Clone {
                url: String::from("https://example.com/user/dots.git?ref=main"),
                into: String::from("/home/u/.dotfilr/repos//user/dots.git"),
            },
        ]
    );
    assert_eq!(
        disk.at("/home/u/bin/tool"),
        Some(&Node::Link(String::from("/home/u/.dotfilr/repos//user/dots.git/bin/tool")))
    );
    assert_eq!(
        disk.at("/home/u/files/.vimrc"),
        Some(&Node::Link(String::from("/home/u/.dotfilr/repos//user/dots.git/files/.vimrc")))
    );
    assert_eq!(disk.lines, vec!["linked tool", "linked .vimrc"]);
}

#[test]
fn command_begin_clone_takes_the_parsed_url() {
    let (command, action) = InstallCommand::begin_clone(
        String::from("/home/u"),
        String::from("https://example.com/a/b"),
        "/a/b",
    );
    assert_eq!(action, Action::MakeDir { path: String::from("/home/u/.dotfilr") });
    let (command, action) = command.step(Reply::Done);
    assert_eq!(action, Action::MakeDir { path: String::from("/home/u/.dotfilr/repos//a/b") });
    let (command, action) = command.step(Reply::Done);
    assert_eq!(
        action,
        Action::Clone {
            url: String::from("https://example.com/a/b"),
            into: String::from("/home/u/.dotfilr/repos//a/b"),
        }
    );
    let (command, action) = command.step(Reply::Failed);
    assert_eq!(action, Action::Abort { error: Error::Io });
    let (_, action) = command.step(Reply::Done);
    assert_eq!(action, Action::Abort { error: Error::Io });
}

#[test]
fn command_ends_with_the_failure_of_its_walk() {
    let mut disk = dots().file("/home/u/files", "in the way");
    let start = InstallCommand::begin(args(None, Some("/dots")), Some(String::from("/home/u")));
    let end = run_command(start, &mut disk);
    assert_eq!(end, Action::Abort { error: Error::Io });
    assert_eq!(
        disk.at("/home/u/bin/greet.sh"),
        Some(&Node::Link(String::from("/dots/bin/greet.sh")))
    );
    assert_eq!(disk.at("/home/u/files"), Some(&Node::File(String::from("in the way"))));
}
