//! What the uninstall sweep guarantees on the modelled disk.

use vstd::prelude::*;
use crate::protocol::{ActionView, EntryView, ListedView, ReportView};
use crate::uninstall::{SweepView, UninstallerView};
use crate::world::{keeps, lemma_keeps_on, Tree, World};

verus! {

/// A sweep in the middle of its work: its state, the action it has named, and
/// the world that the action will be performed in.
pub struct Sweep {
    pub state: UninstallerView,
    pub action: ActionView,
    pub world: World,
}

impl Sweep {
    /// The sweep has taken up every entry.
    pub open spec fn finished(self) -> bool {
        self.action is Finish
    }

    /// The driver performs the action and hands the answer to the sweep.
    pub open spec fn step(self) -> Sweep {
        let (state, action) = self.state.next(self.world.respond(self.action));
        Sweep { state, action, world: self.world.after(self.action) }
    }

    /// The driver's loop, for at most `steps` actions: it stops at an action
    /// that ends the sweep.
    pub open spec fn drive(self, steps: nat) -> Sweep
        decreases steps,
    {
        if steps == 0 || self.action.is_terminal() {
            self
        } else {
            self.step().drive((steps - 1) as nat)
        }
    }

    /// The sweep's action is the one its stage calls for, and a removal is
    /// only ever asked for where a link is.
    pub open spec fn careful(self) -> bool {
        &&& coherent(self.state, self.action)
        &&& self.state.stage matches SweepView::Removing { entry } ==> is_link(
            self.world.tree,
            entry.path,
        )
    }
}

/// The sweep of the directory at `dir`, driven in `world` for at most `steps` actions.
pub open spec fn uninstall(dir: Seq<char>, world: World, steps: nat) -> Sweep {
    let (state, action) = UninstallerView::begin(dir);
    Sweep { state, action, world }.drive(steps)
}

/// A symbolic link is at `path`.
pub open spec fn is_link(tree: Tree, path: Seq<char>) -> bool {
    tree.contains_key(path) && tree[path] is Symlink
}

/// The action that a sweep in `state` has named, for each of its stages.
pub open spec fn coherent(state: UninstallerView, action: ActionView) -> bool {
    match state.stage {
        SweepView::Listing => action == (ActionView::List { path: state.dir }),
        SweepView::Probing { entry } => action == (ActionView::Probe { path: entry.path }),
        SweepView::Removing { entry } => action == (ActionView::Remove { path: entry.path }),
        SweepView::Reporting => action is Report,
        SweepView::Finished => action is Finish,
        SweepView::Aborted { error } => action == (ActionView::Abort { error }),
    }
}

/// From `old` to `new` nothing but links went, and nothing came.
pub open spec fn spared(old: Tree, new: Tree) -> bool {
    &&& keeps(new, old)
    &&& forall|path: Seq<char>| #[trigger]
        old.contains_key(path) && !(old[path] is Symlink) ==> new.contains_key(path)
}

/// What is spared twice over is spared.
pub proof fn lemma_spared_on(first: Tree, second: Tree, third: Tree)
    requires
        spared(first, second),
        spared(second, third),
    ensures
        spared(first, third),
{
    lemma_keeps_on(third, second, first);
    assert forall|path: Seq<char>| #[trigger]
        first.contains_key(path) && !(first[path] is Symlink) implies third.contains_key(path) by {
        assert(second.contains_key(path));
    }
}

/// A careful sweep takes a careful step, and the step removes nothing but a link.
pub proof fn lemma_step_careful(sweep: Sweep)
    requires
        sweep.careful(),
    ensures
        sweep.step().careful(),
        spared(sweep.world.tree, sweep.step().world.tree),
{
}

/// A careful sweep stays careful, and nothing but links goes while it is driven.
pub proof fn lemma_drive_careful(sweep: Sweep, steps: nat)
    requires
        sweep.careful(),
    ensures
        sweep.drive(steps).careful(),
        spared(sweep.world.tree, sweep.drive(steps).world.tree),
    decreases steps,
{
    if steps == 0 || sweep.action.is_terminal() {
    } else {
        lemma_step_careful(sweep);
        lemma_drive_careful(sweep.step(), (steps - 1) as nat);
        lemma_spared_on(sweep.world.tree, sweep.step().world.tree, sweep.drive(steps).world.tree);
    }
}

/// Uninstall selectivity, whatever happens: an uninstall leaves every entry
/// that is no link where it was and as it was, and brings nothing new. This
/// holds however far the uninstall got and whatever failed on its way.
pub proof fn law_spares_all_but_links(dir: Seq<char>, world: World, steps: nat)
    ensures
        spared(world.tree, uninstall(dir, world, steps).world.tree),
{
    let (state, action) = UninstallerView::begin(dir);
    lemma_drive_careful(Sweep { state, action, world }, steps);
}

/// `tree` once `entry` was taken up: without it, if it was a link.
pub open spec fn unlinked_one(tree: Tree, entry: EntryView) -> Tree {
    if is_link(tree, entry.path) {
        tree.remove(entry.path)
    } else {
        tree
    }
}

/// `tree` once every entry of `items` was taken up, in order.
pub open spec fn unlinked(tree: Tree, items: Seq<ListedView>) -> Tree
    decreases items.len(),
{
    if items.len() == 0 {
        tree
    } else {
        unlinked(unlinked_one(tree, items[0]->0), items.skip(1))
    }
}

/// The reports of taking up every entry of `items`, in order, from `tree` on.
pub open spec fn removals(tree: Tree, items: Seq<ListedView>) -> Seq<ReportView>
    decreases items.len(),
{
    if items.len() == 0 {
        Seq::empty()
    } else {
        let entry = items[0]->0;
        let later = removals(unlinked_one(tree, entry), items.skip(1));
        if is_link(tree, entry.path) {
            seq![ReportView::Removed { name: entry.name, path: entry.path }] + later
        } else {
            later
        }
    }
}

/// Every item of `items` is an entry that is in the tree when the sweep,
/// begun in `tree`, comes to it.
pub open spec fn all_found(tree: Tree, items: Seq<ListedView>) -> bool
    decreases items.len(),
{
    items.len() > 0 ==> {
        &&& items[0] is Entry
        &&& tree.contains_key((items[0]->0).path)
        &&& all_found(unlinked_one(tree, items[0]->0), items.skip(1))
    }
}

/// A sweep that finishes has found every item that was left, one after the
/// other, has removed those that were links, and has reported each removal.
proof fn lemma_sweep(state: UninstallerView, world: World, steps: nat)
    requires
        (Sweep { state: state.advance().0, action: state.advance().1, world }).drive(
            steps,
        ).finished(),
    ensures
        all_found(world.tree, state.rest),
        (Sweep { state: state.advance().0, action: state.advance().1, world }).drive(
            steps,
        ).world.tree == unlinked(world.tree, state.rest),
        (Sweep { state: state.advance().0, action: state.advance().1, world }).drive(
            steps,
        ).world.log == world.log + removals(world.tree, state.rest),
    decreases state.rest.len(),
{
    let first = Sweep { state: state.advance().0, action: state.advance().1, world };
    let end = first.drive(steps);
    if state.rest.len() == 0 {
        assert(world.log + removals(world.tree, state.rest) =~= world.log);
    } else {
        let tail = state.rest.skip(1);
        assert(!first.action.is_terminal());
        let entry = state.rest[0]->0;
        assert(steps > 0);
        let second = first.step();
        assert(end == second.drive((steps - 1) as nat));
        let left = UninstallerView { stage: SweepView::Reporting, rest: tail, ..state };
        if is_link(world.tree, entry.path) {
            assert(second.action is Remove);
            assert(steps > 1);
            let third = second.step();
            assert(end == third.drive((steps - 2) as nat));
            assert(!third.action.is_terminal());
            assert(steps > 2);
            let fourth = third.step();
            assert(end == fourth.drive((steps - 3) as nat));
            assert(fourth.state == left.advance().0);
            assert(fourth.action == left.advance().1);
            lemma_sweep(left, fourth.world, (steps - 3) as nat);
            assert(fourth.world.log + removals(fourth.world.tree, tail) =~= world.log + removals(
                world.tree,
                state.rest,
            ));
        } else {
            assert(second.state == left.advance().0);
            assert(second.action == left.advance().1);
            lemma_sweep(left, second.world, (steps - 1) as nat);
        }
    }
}

/// An uninstall that finishes has read the listing of the directory in full
/// and has taken up every entry of it.
pub proof fn lemma_uninstall_finished(dir: Seq<char>, world: World, steps: nat)
    requires
        uninstall(dir, world, steps).finished(),
    ensures
        all_found(world.tree, world.listing(dir)),
        uninstall(dir, world, steps).world.tree == unlinked(world.tree, world.listing(dir)),
        uninstall(dir, world, steps).world.log == world.log + removals(
            world.tree,
            world.listing(dir),
        ),
{
    let (state, action) = UninstallerView::begin(dir);
    let first = Sweep { state, action, world };
    let end = first.drive(steps);
    assert(steps > 0);
    let second = first.step();
    assert(end == second.drive((steps - 1) as nat));
    let listed = UninstallerView { rest: world.listing(dir), ..state };
    assert(second.state == listed.advance().0);
    assert(second.action == listed.advance().1);
    lemma_sweep(listed, second.world, (steps - 1) as nat);
}

/// In a calm world, a sweep that finds every item that is left finishes within
/// three actions for each.
proof fn lemma_sweep_completes(state: UninstallerView, world: World, steps: nat)
    requires
        world.calm(),
        all_found(world.tree, state.rest),
        steps >= 3 * state.rest.len(),
    ensures
        (Sweep { state: state.advance().0, action: state.advance().1, world }).drive(
            steps,
        ).finished(),
    decreases state.rest.len(),
{
    let first = Sweep { state: state.advance().0, action: state.advance().1, world };
    let end = first.drive(steps);
    if state.rest.len() > 0 {
        let tail = state.rest.skip(1);
        let entry = state.rest[0]->0;
        let second = first.step();
        assert(end == second.drive((steps - 1) as nat));
        let left = UninstallerView { stage: SweepView::Reporting, rest: tail, ..state };
        assert(!world.faults.contains(world.clock));
        assert(!world.faults.contains(world.clock + 1));
        assert(!world.faults.contains(world.clock + 2));
        if is_link(world.tree, entry.path) {
            let third = second.step();
            assert(end == third.drive((steps - 2) as nat));
            let fourth = third.step();
            assert(end == fourth.drive((steps - 3) as nat));
            assert(fourth.state == left.advance().0);
            assert(fourth.action == left.advance().1);
            lemma_sweep_completes(left, fourth.world, (steps - 3) as nat);
        } else {
            assert(second.state == left.advance().0);
            assert(second.action == left.advance().1);
            lemma_sweep_completes(left, second.world, (steps - 1) as nat);
        }
    }
}

/// An uninstall finishes where nothing disturbs it: in a calm world, with a
/// directory at `dir` and a listing whose every item is found, three actions
/// for each item and one more are enough.
pub proof fn law_uninstall_completes(dir: Seq<char>, world: World, steps: nat)
    requires
        world.calm(),
        world.tree.contains_key(dir) && world.tree[dir] is Directory,
        all_found(world.tree, world.listing(dir)),
        steps >= 3 * world.listing(dir).len() + 1,
    ensures
        uninstall(dir, world, steps).finished(),
{
    let (state, action) = UninstallerView::begin(dir);
    let first = Sweep { state, action, world };
    let end = first.drive(steps);
    assert(!world.faults.contains(world.clock));
    let second = first.step();
    assert(end == second.drive((steps - 1) as nat));
    let listed = UninstallerView { rest: world.listing(dir), ..state };
    assert(second.state == listed.advance().0);
    assert(second.action == listed.advance().1);
    lemma_sweep_completes(listed, second.world, (steps - 1) as nat);
}

/// Taking up entries brings nothing new into the tree.
pub proof fn lemma_unlinked_within(tree: Tree, items: Seq<ListedView>)
    ensures
        keeps(unlinked(tree, items), tree),
    decreases items.len(),
{
    if items.len() > 0 {
        let one = unlinked_one(tree, items[0]->0);
        lemma_unlinked_within(one, items.skip(1));
        lemma_keeps_on(unlinked(one, items.skip(1)), one, tree);
    }
}

/// A path that is not listed is not touched.
pub proof fn lemma_unlinked_elsewhere(tree: Tree, items: Seq<ListedView>, path: Seq<char>)
    requires
        forall|i: int| 0 <= i < items.len() ==> (#[trigger] items[i]->0).path != path,
    ensures
        unlinked(tree, items).contains_key(path) == tree.contains_key(path),
    decreases items.len(),
{
    if items.len() > 0 {
        let tail = items.skip(1);
        assert((items[0]->0).path != path);
        assert forall|i: int| 0 <= i < tail.len() implies (#[trigger] tail[i]->0).path != path by {
            assert(tail[i] == items[i + 1]);
        }
        lemma_unlinked_elsewhere(unlinked_one(tree, items[0]->0), tail, path);
    }
}

/// What taking up `items` does for the `i`-th of them, where each was found:
/// it was in the tree from the start, and if it was a link there, it is gone
/// and its removal was reported.
pub proof fn lemma_unlinked_at(tree: Tree, items: Seq<ListedView>, i: int)
    requires
        all_found(tree, items),
        0 <= i < items.len(),
    ensures
        items[i] is Entry,
        tree.contains_key((items[i]->0).path),
        is_link(tree, (items[i]->0).path) ==> {
            &&& !unlinked(tree, items).contains_key((items[i]->0).path)
            &&& removals(tree, items).contains(
                ReportView::Removed { name: (items[i]->0).name, path: (items[i]->0).path },
            )
        },
    decreases items.len(),
{
    let entry = items[0]->0;
    let one = unlinked_one(tree, entry);
    let tail = items.skip(1);
    let later = removals(one, tail);
    lemma_unlinked_within(one, tail);
    if i == 0 {
        if is_link(tree, entry.path) {
            let report = ReportView::Removed { name: entry.name, path: entry.path };
            assert(removals(tree, items)[0] == report);
        }
    } else {
        assert(tail[i - 1] == items[i]);
        lemma_unlinked_at(one, tail, i - 1);
        let report = ReportView::Removed { name: (items[i]->0).name, path: (items[i]->0).path };
        if is_link(tree, (items[i]->0).path) {
            assert(later.contains(report));
            let k = choose|k: int| 0 <= k < later.len() && later[k] == report;
            if is_link(tree, entry.path) {
                assert(removals(tree, items)[k + 1] == report);
            } else {
                assert(removals(tree, items)[k] == report);
            }
        }
    }
}

/// Uninstall selectivity: an uninstall that finishes has removed exactly the
/// listed entries that were symbolic links, and has reported each. Every
/// other entry is where it was and as it was, and nothing new has come.
pub proof fn law_removes_exactly_links(dir: Seq<char>, world: World, steps: nat)
    requires
        uninstall(dir, world, steps).finished(),
    ensures
        ({
            let items = world.listing(dir);
            let end = uninstall(dir, world, steps);
            &&& keeps(end.world.tree, world.tree)
            &&& forall|i: int| 0 <= i < items.len() ==> #[trigger] items[i] is Entry
            &&& forall|path: Seq<char>| #[trigger]
                end.world.tree.contains_key(path) <==> world.tree.contains_key(path) && !(is_link(
                    world.tree,
                    path,
                ) && exists|i: int| 0 <= i < items.len() && (#[trigger] items[i]->0).path == path)
            &&& forall|i: int|
                0 <= i < items.len() && is_link(world.tree, (#[trigger] items[i]->0).path)
                    ==> end.world.log.subrange(
                    world.log.len() as int,
                    end.world.log.len() as int,
                ).contains(
                    ReportView::Removed { name: (items[i]->0).name, path: (items[i]->0).path },
                )
        }),
{
    let items = world.listing(dir);
    let end = uninstall(dir, world, steps);
    lemma_uninstall_finished(dir, world, steps);
    law_spares_all_but_links(dir, world, steps);
    assert forall|i: int| 0 <= i < items.len() implies #[trigger] items[i] is Entry by {
        lemma_unlinked_at(world.tree, items, i);
    }
    assert forall|path: Seq<char>| #[trigger]
        end.world.tree.contains_key(path) <==> world.tree.contains_key(path) && !(is_link(
            world.tree,
            path,
        ) && exists|i: int| 0 <= i < items.len() && (#[trigger] items[i]->0).path == path) by {
        if exists|i: int| 0 <= i < items.len() && (#[trigger] items[i]->0).path == path {
            let i = choose|i: int| 0 <= i < items.len() && (#[trigger] items[i]->0).path == path;
            lemma_unlinked_at(world.tree, items, i);
        } else {
            lemma_unlinked_elsewhere(world.tree, items, path);
        }
    }
    assert forall|i: int|
        0 <= i < items.len() && is_link(
            world.tree,
            (#[trigger] items[i]->0).path,
        ) implies end.world.log.subrange(
        world.log.len() as int,
        end.world.log.len() as int,
    ).contains(ReportView::Removed { name: (items[i]->0).name, path: (items[i]->0).path }) by {
        lemma_unlinked_at(world.tree, items, i);
        assert(end.world.log.subrange(world.log.len() as int, end.world.log.len() as int)
            =~= removals(world.tree, items));
    }
}

} // verus!
