//! A model of the disk that a driver works on.
//!
//! The model is the yardstick for what the machines of this crate promise: it
//! says what each action does to a tree of entries and what it is answered
//! with. It is deliberately unkind. A link or a removal that is asked for is
//! carried out on whatever is at the path, so that nothing but the asking
//! machine's own care protects an entry; and any action may fail without a
//! trace, at moments that the world alone knows. Making directories and
//! cloning are taken as their makers describe them: they add entries and
//! change none.

use vstd::prelude::*;
use crate::protocol::{ActionView, EntryKind, ListedView, ReplyView, ReportView};

verus! {

/// One entry of the tree.
pub enum Node {
    Directory,
    File { content: Seq<u8> },
    Symlink { target: Seq<char> },
    Other,
}

impl Node {
    /// What a probe tells of this entry.
    pub open spec fn kind(self) -> EntryKind {
        match self {
            Node::Directory => EntryKind::Directory,
            Node::File { content } => EntryKind::RegularFile,
            Node::Symlink { target } => EntryKind::Symlink,
            Node::Other => EntryKind::Other,
        }
    }
}

/// The tree: what is at each path that holds anything.
pub type Tree = Map<Seq<char>, Node>;

/// `upper` names a directory above `path`: a proper, non-empty part of `path`
/// that ends just before a separator.
pub open spec fn is_ancestor(upper: Seq<char>, path: Seq<char>) -> bool {
    &&& 0 < upper.len() < path.len()
    &&& path[upper.len() as int] == '/'
    &&& path.take(upper.len() as int) == upper
}

/// `place` is `path` or lies above it.
pub open spec fn on_way(place: Seq<char>, path: Seq<char>) -> bool {
    place == path || is_ancestor(place, path)
}

/// Something other than a directory stands at `path` or above it.
pub open spec fn blocked(tree: Tree, path: Seq<char>) -> bool {
    exists|place: Seq<char>|
        #[trigger] on_way(place, path) && tree.contains_key(place) && !(tree[place] is Directory)
}

/// A directory is at `path`, and nothing is below it.
pub open spec fn is_empty_dir(tree: Tree, path: Seq<char>) -> bool {
    &&& tree.contains_key(path)
    &&& tree[path] is Directory
    &&& forall|below: Seq<char>| #[trigger] tree.contains_key(below) ==> !is_ancestor(path, below)
}

/// `tree` with a directory at `path` and at every place above it that held nothing.
pub open spec fn with_dirs(tree: Tree, path: Seq<char>) -> Tree {
    Map::new(
        |place: Seq<char>| tree.contains_key(place) || on_way(place, path),
        |place: Seq<char>|
            if tree.contains_key(place) {
                tree[place]
            } else {
                Node::Directory
            },
    )
}

/// Every entry of `old` is in `new`, unchanged.
pub open spec fn keeps(old: Tree, new: Tree) -> bool {
    forall|path: Seq<char>| #[trigger]
        old.contains_key(path) ==> new.contains_key(path) && new[path] == old[path]
}

/// The disk and the screen, as far as the installer's promises reach.
pub struct World {
    /// What is on disk.
    pub tree: Tree,
    /// What a listing of each directory yields, in the order it yields it.
    pub listings: Map<Seq<char>, Seq<ListedView>>,
    /// What a clone of each repository, by its URL, brings into each directory.
    pub remotes: Map<(Seq<char>, Seq<char>), Tree>,
    /// The moments at which an action fails, whatever it is.
    pub faults: Set<nat>,
    /// The number of actions performed so far.
    pub clock: nat,
    /// The reports shown so far.
    pub log: Seq<ReportView>,
}

impl World {
    /// What a listing of the directory at `path` yields.
    pub open spec fn listing(self, path: Seq<char>) -> Seq<ListedView> {
        if self.listings.contains_key(path) {
            self.listings[path]
        } else {
            Seq::empty()
        }
    }

    /// The answer to `action` at a moment without a fault.
    pub open spec fn sound(self, action: ActionView) -> ReplyView {
        match action {
            ActionView::MakeDir { path } => if blocked(self.tree, path) {
                ReplyView::Failed
            } else {
                ReplyView::Done
            },
            ActionView::List { path } => if self.tree.contains_key(path)
                && self.tree[path] is Directory {
                ReplyView::Entries { entries: self.listing(path) }
            } else {
                ReplyView::Failed
            },
            ActionView::Probe { path } => ReplyView::Found {
                kind: if self.tree.contains_key(path) {
                    Some(self.tree[path].kind())
                } else {
                    None
                },
            },
            ActionView::Symlink { target, link } => ReplyView::Done,
            ActionView::Remove { path } => if self.tree.contains_key(path) {
                ReplyView::Done
            } else {
                ReplyView::Failed
            },
            ActionView::Clone { url, into } => if self.remotes.contains_key((url, into))
                && is_empty_dir(self.tree, into) {
                ReplyView::Done
            } else {
                ReplyView::Failed
            },
            ActionView::Report { report } => ReplyView::Done,
            ActionView::Finish => ReplyView::Done,
            ActionView::Abort { error } => ReplyView::Done,
        }
    }

    /// The answer to `action`.
    pub open spec fn respond(self, action: ActionView) -> ReplyView {
        if self.faults.contains(self.clock) {
            ReplyView::Failed
        } else {
            self.sound(action)
        }
    }

    /// The tree once `action` was carried out.
    pub open spec fn changed(self, action: ActionView) -> Tree {
        match action {
            ActionView::MakeDir { path } => with_dirs(self.tree, path),
            ActionView::Symlink { target, link } => self.tree.insert(
                link,
                Node::Symlink { target },
            ),
            ActionView::Remove { path } => self.tree.remove(path),
            ActionView::Clone { url, into } => self.remotes[(url, into)].union_prefer_right(
                self.tree,
            ),
            _ => self.tree,
        }
    }

    /// The world after `action`: a failed action leaves no trace but the time it took.
    pub open spec fn after(self, action: ActionView) -> World {
        if self.respond(action) is Failed {
            World { clock: self.clock + 1, ..self }
        } else {
            World {
                tree: self.changed(action),
                clock: self.clock + 1,
                log: match action {
                    ActionView::Report { report } => self.log.push(report),
                    _ => self.log,
                },
                ..self
            }
        }
    }
}

impl World {
    /// No action fails but for what the tree holds.
    pub open spec fn calm(self) -> bool {
        forall|moment: nat| !self.faults.contains(moment)
    }
}

/// What is kept twice over is kept.
pub proof fn lemma_keeps_on(first: Tree, second: Tree, third: Tree)
    requires
        keeps(first, second),
        keeps(second, third),
    ensures
        keeps(first, third),
{
    assert forall|path: Seq<char>| #[trigger] first.contains_key(path) implies third.contains_key(
        path,
    ) && third[path] == first[path] by {
        assert(second.contains_key(path));
    }
}

/// Making a directory changes no entry that was there.
pub proof fn lemma_with_dirs_keeps(tree: Tree, path: Seq<char>)
    ensures
        keeps(tree, with_dirs(tree, path)),
{
}

/// Where nothing blocks `path`, making its directories puts a directory at
/// `path` and leaves nothing in the way of making them again.
pub proof fn lemma_with_dirs_settles(tree: Tree, path: Seq<char>)
    requires
        !blocked(tree, path),
    ensures
        with_dirs(tree, path).contains_key(path),
        with_dirs(tree, path)[path] is Directory,
        !blocked(with_dirs(tree, path), path),
        with_dirs(with_dirs(tree, path), path) == with_dirs(tree, path),
{
    let made = with_dirs(tree, path);
    assert(on_way(path, path));
    assert forall|place: Seq<char>| #[trigger] on_way(place, path) implies !(made.contains_key(
        place,
    ) && !(made[place] is Directory)) by {}
    assert(with_dirs(made, path) =~= made);
}

/// In a tree that keeps all of one where `path` was a directory with nothing
/// in its way, making the directories of `path` changes nothing.
pub proof fn lemma_with_dirs_again(made: Tree, later: Tree, path: Seq<char>)
    requires
        forall|place: Seq<char>| #[trigger]
            on_way(place, path) ==> made.contains_key(place) && made[place] is Directory,
        keeps(made, later),
    ensures
        !blocked(later, path),
        with_dirs(later, path) == later,
{
    assert(with_dirs(later, path) =~= later);
}

} // verus!
