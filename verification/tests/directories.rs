use dotfilr::directories::{DirIter, ManagedDirectory};
use dotfilr::error::Error;
use dotfilr::protocol::{Action, DirectoryEntry, EntryKind, Listed};

fn entry(name: &str, path: &str) -> Listed {
    Listed::Entry(DirectoryEntry { name: String::from(name), path: String::from(path) })
}

#[test]
fn new_keeps_the_path() {
    let dir = ManagedDirectory::new(String::from("/home/u"));
    assert_eq!(dir.get_path(), "/home/u");
    assert_eq!(dir.to_string(), String::from("/home/u"));
}

#[test]
fn two_handles_may_name_one_path() {
    let one = ManagedDirectory::new(String::from("/home/u"));
    let other = ManagedDirectory::new(String::from("/home/u"));
    assert_eq!(one.get_path(), other.get_path());
}

#[test]
fn probe_asks_about_the_own_path() {
    let dir = ManagedDirectory::new(String::from("/home/u"));
    assert_eq!(dir.probe(), Action::Probe { path: String::from("/home/u") });
}

#[test]
fn iter_asks_for_a_listing_of_the_own_path() {
    let dir = ManagedDirectory::new(String::from("/home/u/bin"));
    assert_eq!(dir.iter(), Action::List { path: String::from("/home/u/bin") });
}

#[test]
fn create_dir_takes_a_relative_path_from_the_directory() {
    let dir = ManagedDirectory::new(String::from("/home/u"));
    assert_eq!(dir.create_dir("a/b"), Action::MakeDir { path: String::from("/home/u/a/b") });
}

#[test]
fn create_dir_takes_an_absolute_path_as_it_is() {
    let dir = ManagedDirectory::new(String::from("/home/u"));
    assert_eq!(dir.create_dir("/srv/x"), Action::MakeDir { path: String::from("/srv/x") });
}

#[test]
fn subdir_is_bound_to_the_child_path_and_makes_it() {
    let dir = ManagedDirectory::new(String::from("/home/u"));
    let (child, action) = dir.subdir(String::from("bin"));
    assert_eq!(child.get_path(), "/home/u/bin");
    assert_eq!(action, Action::MakeDir { path: String::from("/home/u/bin") });
    assert_eq!(dir.get_path(), "/home/u");
}

#[test]
fn subdir_of_a_relative_directory_stays_below_it() {
    let dir = ManagedDirectory::new(String::from("dots"));
    let (child, action) = dir.subdir(String::from("bin"));
    assert_eq!(child.get_path(), "dots/bin");
    assert_eq!(action, Action::MakeDir { path: String::from("dots/bin") });
}

#[test]
fn subdir_twice_names_the_same_action() {
    let dir = ManagedDirectory::new(String::from("/home/u"));
    let (first, once) = dir.subdir(String::from("files"));
    let (second, again) = dir.subdir(String::from("files"));
    assert_eq!(first.get_path(), second.get_path());
    assert_eq!(once, again);
}

#[test]
fn link_path_is_under_the_file_name() {
    let dir = ManagedDirectory::new(String::from("/home/u/bin"));
    assert_eq!(
        dir.link_path("/dots/bin/greet.sh"),
        Some(String::from("/home/u/bin/greet.sh"))
    );
    assert_eq!(dir.link_path("/dots/bin/.."), None);
    assert_eq!(dir.link_path("/"), None);
}

#[test]
fn link_into_a_free_place_asks_for_the_link() {
    let dir = ManagedDirectory::new(String::from("/home/u/bin"));
    assert_eq!(
        dir.link("/dots/bin/greet.sh", None),
        Ok(Action::Symlink {
            target: String::from("/dots/bin/greet.sh"),
            link: String::from("/home/u/bin/greet.sh"),
        })
    );
}

#[test]
fn link_into_a_taken_place_is_file_exists() {
    let dir = ManagedDirectory::new(String::from("/home/u/bin"));
    for kind in [EntryKind::RegularFile, EntryKind::Directory, EntryKind::Symlink, EntryKind::Other]
    {
        assert_eq!(dir.link("/dots/bin/greet.sh", Some(kind)), Err(Error::FileExists));
    }
}

#[test]
fn dir_iter_hands_out_each_item_once_in_order() {
    let mut iter = DirIter::new(vec![
        entry("a", "/d/a"),
        Listed::Unreadable,
        entry("b", "/d/b"),
    ]);
    assert_eq!(iter.next(), Some(entry("a", "/d/a")));
    assert_eq!(iter.next(), Some(Listed::Unreadable));
    assert_eq!(iter.next(), Some(entry("b", "/d/b")));
    assert_eq!(iter.next(), None);
    assert_eq!(iter.next(), None);
}

#[test]
fn dir_iter_over_nothing_is_empty() {
    let mut iter = DirIter::new(Vec::new());
    assert_eq!(iter.next(), None);
}
