//! Managed directories: path handles whose operations are told to the driver.

use vstd::prelude::*;
use vstd::string::*;
use crate::error::Error;
use crate::install::Installer;
use crate::paths::{file_name, join, spec_file_name, spec_join};
use crate::protocol::{Action, ActionView, EntryKind, Listed, ListedView, listing_view};

verus! {

/// A handle on one directory. The directory need not exist, and two handles may
/// name the same path: the disk, not the handle, says what is there.
#[derive(Debug)]
pub struct ManagedDirectory {
    path: String,
}

impl View for ManagedDirectory {
    type V = Seq<char>;

    closed spec fn view(&self) -> Seq<char> {
        self.path@
    }
}

/// What `link` decides for `file` in the directory at `dir`, given what a probe
/// of the link's place `found` there.
pub open spec fn spec_link(dir: Seq<char>, file: Seq<char>, found: Option<EntryKind>) -> Result<
    ActionView,
    Error,
> {
    if found is Some {
        Err(Error::FileExists)
    } else {
        Ok(
            ActionView::Symlink {
                target: file,
                link: spec_join(dir, spec_file_name(file).unwrap()),
            },
        )
    }
}

impl ManagedDirectory {
    /// A handle on `path`.
    pub fn new(path: String) -> (dir: ManagedDirectory)
        ensures
            dir@ == path@,
    {
        ManagedDirectory { path }
    }

    /// The path of this directory.
    pub fn get_path(&self) -> (path: &str)
        ensures
            path@ == self@,
    {
        self.path.as_str()
    }

    /// The path of this directory, as an owned string.
    pub fn to_string(&self) -> (path: String)
        ensures
            path@ == self@,
    {
        self.path.clone()
    }

    /// Asks whether anything is at this directory's path, and what.
    pub fn probe(&self) -> (action: Action)
        ensures
            action@ == (ActionView::Probe { path: self@ }),
    {
        Action::Probe { path: self.path.clone() }
    }

    /// Asks for the directory at `path`, taken from this directory unless it is
    /// absolute, to be created with its missing ancestors.
    pub fn create_dir(&self, path: &str) -> (action: Action)
        ensures
            action@ == (ActionView::MakeDir { path: spec_join(self@, path@) }),
    {
        Action::MakeDir { path: join(self.path.as_str(), path) }
    }

    /// The child directory `name`, with the action that makes sure it exists.
    pub fn subdir(&self, name: String) -> (child: (ManagedDirectory, Action))
        ensures
            child.0@ == spec_join(self@, name@),
            child.1@ == (ActionView::MakeDir { path: spec_join(self@, name@) }),
    {
        let action = self.create_dir(name.as_str());
        (ManagedDirectory { path: join(self.path.as_str(), name.as_str()) }, action)
    }

    /// Where in this directory a link to `file` belongs: under the file's name.
    pub fn link_path(&self, file: &str) -> (place: Option<String>)
        ensures
            place.is_some() == spec_file_name(file@).is_some(),
            place matches Some(p) ==> p@ == spec_join(self@, spec_file_name(file@).unwrap()),
    {
        match file_name(file) {
            Some(name) => Some(join(self.path.as_str(), name.as_str())),
            None => None,
        }
    }

    /// Links `file` into this directory, unless its place is taken.
    ///
    /// `found` is what a probe of `link_path(file)` found. Whatever is there,
    /// be it a file, a directory or a link, stays: the result is `FileExists`.
    /// Only for a free place is the link asked for.
    pub fn link(&self, file: &str, found: Option<EntryKind>) -> (outcome: Result<Action, Error>)
        requires
            spec_file_name(file@) is Some,
        ensures
            outcome is Ok == spec_link(self@, file@, found) is Ok,
            outcome matches Ok(action) ==> Ok::<ActionView, Error>(action@) == spec_link(
                self@,
                file@,
                found,
            ),
            outcome matches Err(error) ==> Err::<ActionView, Error>(error) == spec_link(
                self@,
                file@,
                found,
            ),
    {
        match found {
            Some(_) => Err(Error::FileExists),
            None => {
                let place = self.link_path(file).unwrap();
                Ok(Action::Symlink { target: String::from_str(file), link: place })
            },
        }
    }

    /// Begins the merge of this directory's `bin` into the `bin` of `dir`.
    pub fn install_to(&self, dir: &str) -> (start: (Installer, Action))
        ensures
            (start.0@, start.1@) == crate::install::InstallerView::begin(self@, dir@, "bin"@),
    {
        Installer::begin(self, dir, "bin")
    }

    /// Asks for a fresh listing of this directory.
    pub fn iter(&self) -> (action: Action)
        ensures
            action@ == (ActionView::List { path: self@ }),
    {
        Action::List { path: self.path.clone() }
    }
}

/// The items of one listing, handed out once each, in the listing's order.
#[derive(Debug)]
pub struct DirIter {
    /// What is left, last item first.
    stack: Vec<Listed>,
}

impl View for DirIter {
    type V = Seq<ListedView>;

    /// The items still to come, next one first.
    closed spec fn view(&self) -> Seq<ListedView> {
        listing_view(self.stack@).reverse()
    }
}

impl DirIter {
    /// An iterator over `listing`.
    pub fn new(listing: Vec<Listed>) -> (iter: DirIter)
        ensures
            iter@ == listing_view(listing@),
    {
        let mut listing = listing;
        let mut stack: Vec<Listed> = Vec::new();
        let ghost whole = listing_view(listing@);
        while listing.len() > 0
            invariant
                listing_view(listing@) + listing_view(stack@).reverse() =~= whole,
            decreases listing.len(),
        {
            let ghost before_rest = listing_view(listing@);
            let ghost before_stack = listing_view(stack@);
            let item = listing.pop().unwrap();
            stack.push(item);
            proof {
                assert(listing_view(listing@) =~= before_rest.drop_last());
                assert(listing_view(stack@) =~= before_stack.push(before_rest.last()));
                assert(listing_view(stack@).reverse() =~= seq![before_rest.last()]
                    + before_stack.reverse());
            }
        }
        assert(listing_view(stack@).reverse() =~= whole);
        DirIter { stack }
    }

    /// The next item of the listing, or `None` once all were handed out.
    pub fn next(&mut self) -> (item: Option<Listed>)
        ensures
            item is Some == (old(self)@.len() > 0),
            item is None ==> final(self)@ == old(self)@,
            item matches Some(listed) ==> listed@ == old(self)@[0] && final(self)@ == old(
                self,
            )@.skip(1),
    {
        let ghost before = listing_view(self.stack@);
        let item = self.stack.pop();
        proof {
            if before.len() > 0 {
                assert(listing_view(self.stack@) =~= before.drop_last());
                assert(before.drop_last().reverse() =~= before.reverse().skip(1));
            }
        }
        item
    }
}

} // verus!
