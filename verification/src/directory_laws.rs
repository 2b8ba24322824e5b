//! What a managed directory's own operations guarantee on the modelled disk.

use vstd::prelude::*;
use crate::directories::spec_link;
use crate::error::Error;
use crate::paths::{spec_file_name, spec_join};
use crate::protocol::ActionView;
use crate::world::{keeps, lemma_with_dirs_keeps, lemma_with_dirs_settles, Node, World};

verus! {

/// The action by which the directory at `dir` makes sure of its child `name`.
pub open spec fn subdir_action(dir: Seq<char>, name: Seq<char>) -> ActionView {
    ActionView::MakeDir { path: spec_join(dir, name) }
}

/// Directory creation idempotence: making a subdirectory changes no entry
/// that is on disk, whether it is made for the first time or again. Once it
/// was made, nothing on disk stands in the way of making it again, and making
/// it again leaves the tree as it is.
///
/// A first making can fail: where something other than a directory stands at
/// the path or above it, and at a moment of the world's own choosing.
pub proof fn law_subdir_idempotent(dir: Seq<char>, name: Seq<char>, world: World)
    ensures
        ({
            let action = subdir_action(dir, name);
            let once = world.after(action);
            let twice = once.after(action);
            &&& keeps(world.tree, once.tree)
            &&& keeps(once.tree, twice.tree)
            &&& world.respond(action) is Done ==> {
                &&& once.tree.contains_key(spec_join(dir, name))
                &&& once.tree[spec_join(dir, name)] is Directory
                &&& once.sound(action) is Done
                &&& twice.tree == once.tree
            }
        }),
{
    let path = spec_join(dir, name);
    let action = subdir_action(dir, name);
    let once = world.after(action);
    lemma_with_dirs_keeps(world.tree, path);
    lemma_with_dirs_keeps(once.tree, path);
    if world.respond(action) is Done {
        lemma_with_dirs_settles(world.tree, path);
    }
}

/// Linking never overwrites: decided on what a probe of the link's place has
/// just found, `link` fails with `FileExists` exactly where the place holds
/// something, and the link it asks for elsewhere changes no entry of the tree
/// and puts a link to `file` at the place.
pub proof fn law_link_never_overwrites(dir: Seq<char>, file: Seq<char>, world: World)
    requires
        spec_file_name(file) is Some,
    ensures
        ({
            let place = spec_join(dir, spec_file_name(file).unwrap());
            let found = world.sound(ActionView::Probe { path: place })->kind;
            match spec_link(dir, file, found) {
                Ok(action) => {
                    &&& !world.tree.contains_key(place)
                    &&& keeps(world.tree, world.changed(action))
                    &&& world.changed(action)[place] == (Node::Symlink { target: file })
                },
                Err(error) => error == Error::FileExists && world.tree.contains_key(place),
            }
        }),
{
}

} // verus!
