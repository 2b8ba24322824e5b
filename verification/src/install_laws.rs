//! What the install walk guarantees on the modelled disk.

use vstd::prelude::*;
use crate::install::{InstallerView, StageView};
use crate::paths::{
    is_entry_name,
    lemma_file_name_is_entry_name,
    lemma_join_injective,
    spec_file_name,
    spec_join,
};
use crate::protocol::{ActionView, EntryView, ListedView, ReportView};
use crate::world::{
    blocked,
    keeps,
    lemma_keeps_on,
    lemma_with_dirs_again,
    lemma_with_dirs_keeps,
    lemma_with_dirs_settles,
    on_way,
    with_dirs,
    Node,
    Tree,
    World,
};

verus! {

/// A walk in the middle of its work: its state, the action it has named, and
/// the world that the action will be performed in.
pub struct Run {
    pub state: InstallerView,
    pub action: ActionView,
    pub world: World,
}

impl Run {
    /// The walk has taken up every entry.
    pub open spec fn finished(self) -> bool {
        self.action is Finish
    }

    /// The driver performs the action and hands the answer to the walk.
    pub open spec fn step(self) -> Run {
        let (state, action) = self.state.next(self.world.respond(self.action));
        Run { state, action, world: self.world.after(self.action) }
    }

    /// The driver's loop, for at most `steps` actions: it stops at an action
    /// that ends the walk.
    pub open spec fn drive(self, steps: nat) -> Run
        decreases steps,
    {
        if steps == 0 || self.action.is_terminal() {
            self
        } else {
            self.step().drive((steps - 1) as nat)
        }
    }
}

/// The walk over the subdirectory `name` of `source_root` into that of
/// `dest_root`, driven in `world` for at most `steps` actions.
pub open spec fn install(
    source_root: Seq<char>,
    dest_root: Seq<char>,
    name: Seq<char>,
    world: World,
    steps: nat,
) -> Run {
    let (state, action) = InstallerView::begin(source_root, dest_root, name);
    Run { state, action, world }.drive(steps)
}

/// Where in `dest` the link to `entry` belongs.
pub open spec fn place(dest: Seq<char>, entry: EntryView) -> Seq<char> {
    spec_join(dest, spec_file_name(entry.path).unwrap())
}

/// The action that a walk in `state` has named, for each of its stages.
pub open spec fn coherent(state: InstallerView, action: ActionView) -> bool {
    match state.stage {
        StageView::EnsuringSource => action == (ActionView::MakeDir { path: state.source }),
        StageView::EnsuringDest => action == (ActionView::MakeDir { path: state.dest }),
        StageView::Listing => action == (ActionView::List { path: state.source }),
        StageView::Probing { entry, link } => {
            &&& spec_file_name(entry.path) is Some
            &&& link == place(state.dest, entry)
            &&& action == (ActionView::Probe { path: link })
        },
        StageView::Linking { entry, link } => {
            &&& spec_file_name(entry.path) is Some
            &&& link == place(state.dest, entry)
            &&& action == (ActionView::Symlink { target: entry.path, link })
        },
        StageView::Reporting => action is Report,
        StageView::Finished => action is Finish,
        StageView::Aborted { error } => action == (ActionView::Abort { error }),
    }
}

impl Run {
    /// The run's action is the one its stage calls for, and a link is only
    /// ever asked for at a place that holds nothing.
    pub open spec fn careful(self) -> bool {
        &&& coherent(self.state, self.action)
        &&& self.state.stage matches StageView::Linking { entry, link }
            ==> !self.world.tree.contains_key(link)
    }
}

/// A careful run takes a careful step, and the step changes no entry.
pub proof fn lemma_step_careful(run: Run)
    requires
        run.careful(),
    ensures
        run.step().careful(),
        keeps(run.world.tree, run.step().world.tree),
        run.step().world.listings == run.world.listings,
        run.step().world.faults == run.world.faults,
{
    match run.action {
        ActionView::MakeDir { path } => {
            lemma_with_dirs_keeps(run.world.tree, path);
        },
        _ => {},
    }
}

/// A careful run stays careful, and no entry is changed while it is driven.
pub proof fn lemma_drive_careful(run: Run, steps: nat)
    requires
        run.careful(),
    ensures
        run.drive(steps).careful(),
        keeps(run.world.tree, run.drive(steps).world.tree),
        run.drive(steps).world.listings == run.world.listings,
        run.drive(steps).world.faults == run.world.faults,
    decreases steps,
{
    if steps == 0 || run.action.is_terminal() {
    } else {
        lemma_step_careful(run);
        lemma_drive_careful(run.step(), (steps - 1) as nat);
    }
}

/// No-clobber: whatever is on disk before an install is there after it,
/// unchanged. This holds of every install, however far it got and whatever
/// failed on its way.
pub proof fn law_no_clobber(
    source_root: Seq<char>,
    dest_root: Seq<char>,
    name: Seq<char>,
    world: World,
    steps: nat,
)
    ensures
        keeps(world.tree, install(source_root, dest_root, name, world, steps).world.tree),
{
    let (state, action) = InstallerView::begin(source_root, dest_root, name);
    lemma_drive_careful(Run { state, action, world }, steps);
}

/// An item that the walk can take up: an entry whose path has a file name.
pub open spec fn named(item: ListedView) -> bool {
    item matches ListedView::Entry(entry) && spec_file_name(entry.path) is Some
}

/// Every item of the listing can be taken up.
pub open spec fn readable(items: Seq<ListedView>) -> bool {
    forall|i: int| 0 <= i < items.len() ==> named(#[trigger] items[i])
}

/// Where in `dest` the link to the `i`-th listed entry belongs.
pub open spec fn spot(dest: Seq<char>, items: Seq<ListedView>, i: int) -> Seq<char> {
    place(dest, items[i]->0)
}

/// `tree` once `entry` was taken up: with a link to it, unless its place was taken.
pub open spec fn linked_one(tree: Tree, dest: Seq<char>, entry: EntryView) -> Tree {
    if tree.contains_key(place(dest, entry)) {
        tree
    } else {
        tree.insert(place(dest, entry), Node::Symlink { target: entry.path })
    }
}

/// What is reported of `entry` when it is taken up in `tree`.
pub open spec fn report_one(tree: Tree, dest: Seq<char>, entry: EntryView) -> ReportView {
    if tree.contains_key(place(dest, entry)) {
        ReportView::Skipped { name: entry.name, path: place(dest, entry) }
    } else {
        ReportView::Created { name: entry.name, path: place(dest, entry) }
    }
}

/// `tree` once every entry of `items` was taken up, in order.
pub open spec fn linked(tree: Tree, dest: Seq<char>, items: Seq<ListedView>) -> Tree
    decreases items.len(),
{
    if items.len() == 0 {
        tree
    } else {
        linked(linked_one(tree, dest, items[0]->0), dest, items.skip(1))
    }
}

/// The reports of taking up every entry of `items`, in order, from `tree` on.
pub open spec fn reported(tree: Tree, dest: Seq<char>, items: Seq<ListedView>) -> Seq<ReportView>
    decreases items.len(),
{
    if items.len() == 0 {
        Seq::empty()
    } else {
        seq![report_one(tree, dest, items[0]->0)] + reported(
            linked_one(tree, dest, items[0]->0),
            dest,
            items.skip(1),
        )
    }
}

/// A walk that finishes has taken up every item that was left, one after the
/// other, and has reported each.
proof fn lemma_walk(state: InstallerView, world: World, steps: nat)
    requires
        (Run { state: state.advance().0, action: state.advance().1, world }).drive(
            steps,
        ).finished(),
    ensures
        readable(state.rest),
        (Run { state: state.advance().0, action: state.advance().1, world }).drive(
            steps,
        ).world.tree == linked(world.tree, state.dest, state.rest),
        (Run { state: state.advance().0, action: state.advance().1, world }).drive(
            steps,
        ).world.log == world.log + reported(world.tree, state.dest, state.rest),
    decreases state.rest.len(),
{
    let first = Run { state: state.advance().0, action: state.advance().1, world };
    let end = first.drive(steps);
    if state.rest.len() == 0 {
        assert(world.log + reported(world.tree, state.dest, state.rest) =~= world.log);
    } else {
        let tail = state.rest.skip(1);
        assert(!first.action.is_terminal());
        assert(named(state.rest[0]));
        let entry = state.rest[0]->0;
        let link = place(state.dest, entry);
        assert(steps > 0);
        let second = first.step();
        assert(end == second.drive((steps - 1) as nat));
        assert(!second.action.is_terminal());
        assert(!world.faults.contains(world.clock));
        assert(steps > 1);
        let third = second.step();
        assert(end == third.drive((steps - 2) as nat));
        let left = InstallerView { stage: StageView::Reporting, rest: tail, ..state };
        if world.tree.contains_key(link) {
            assert(second.action is Report);
            assert(third.state == left.advance().0);
            assert(third.action == left.advance().1);
            lemma_walk(left, third.world, (steps - 2) as nat);
            assert(third.world.log + reported(third.world.tree, state.dest, tail) =~= world.log
                + reported(world.tree, state.dest, state.rest));
        } else {
            assert(second.action is Symlink);
            assert(!third.action.is_terminal());
            assert(steps > 2);
            let fourth = third.step();
            assert(end == fourth.drive((steps - 3) as nat));
            assert(fourth.state == left.advance().0);
            assert(fourth.action == left.advance().1);
            lemma_walk(left, fourth.world, (steps - 3) as nat);
            assert(fourth.world.log + reported(fourth.world.tree, state.dest, tail) =~= world.log
                + reported(world.tree, state.dest, state.rest));
        }
        assert forall|i: int| 0 <= i < state.rest.len() implies named(#[trigger] state.rest[i]) by {
            if i > 0 {
                assert(state.rest[i] == tail[i - 1]);
            }
        }
    }
}

/// The tree that an install works on once both subdirectories were made.
pub open spec fn prepared(tree: Tree, source: Seq<char>, dest: Seq<char>) -> Tree {
    with_dirs(with_dirs(tree, source), dest)
}

/// Nothing stands in the way of making first `source` and then `dest` in `tree`.
pub open spec fn unblocked(tree: Tree, source: Seq<char>, dest: Seq<char>) -> bool {
    !blocked(tree, source) && !blocked(with_dirs(tree, source), dest)
}

/// One report for each listed entry, in order: that it was skipped.
pub open spec fn all_skipped(dest: Seq<char>, items: Seq<ListedView>) -> Seq<ReportView> {
    Seq::new(
        items.len(),
        |i: int| ReportView::Skipped { name: (items[i]->0).name, path: spot(dest, items, i) },
    )
}

/// An install that finishes has made both subdirectories, has read the
/// listing of the source side in full, and has taken up every entry of it.
pub proof fn lemma_install_finished(
    source_root: Seq<char>,
    dest_root: Seq<char>,
    name: Seq<char>,
    world: World,
    steps: nat,
)
    requires
        install(source_root, dest_root, name, world, steps).finished(),
    ensures
        ({
            let source = spec_join(source_root, name);
            let dest = spec_join(dest_root, name);
            let items = world.listing(source);
            let base = prepared(world.tree, source, dest);
            let end = install(source_root, dest_root, name, world, steps);
            &&& unblocked(world.tree, source, dest)
            &&& readable(items)
            &&& end.world.tree == linked(base, dest, items)
            &&& end.world.log == world.log + reported(base, dest, items)
            &&& end.world.listings == world.listings
        }),
{
    let source = spec_join(source_root, name);
    let dest = spec_join(dest_root, name);
    let items = world.listing(source);
    let (state, action) = InstallerView::begin(source_root, dest_root, name);
    let first = Run { state, action, world };
    let end = first.drive(steps);
    lemma_drive_careful(first, steps);
    assert(steps > 0);
    let second = first.step();
    assert(end == second.drive((steps - 1) as nat));
    assert(!second.action.is_terminal());
    assert(steps > 1);
    let third = second.step();
    assert(end == third.drive((steps - 2) as nat));
    assert(!third.action.is_terminal());
    assert(steps > 2);
    let fourth = third.step();
    assert(end == fourth.drive((steps - 3) as nat));
    let listed = InstallerView { rest: items, ..third.state };
    assert(fourth.state == listed.advance().0);
    assert(fourth.action == listed.advance().1);
    lemma_walk(listed, fourth.world, (steps - 3) as nat);
}

/// In a calm world, a walk that can take up every item that is left finishes
/// within three actions for each.
proof fn lemma_walk_completes(state: InstallerView, world: World, steps: nat)
    requires
        world.calm(),
        readable(state.rest),
        steps >= 3 * state.rest.len(),
    ensures
        (Run { state: state.advance().0, action: state.advance().1, world }).drive(
            steps,
        ).finished(),
    decreases state.rest.len(),
{
    let first = Run { state: state.advance().0, action: state.advance().1, world };
    let end = first.drive(steps);
    if state.rest.len() > 0 {
        let tail = state.rest.skip(1);
        assert(named(state.rest[0]));
        assert forall|i: int| 0 <= i < tail.len() implies named(#[trigger] tail[i]) by {
            assert(tail[i] == state.rest[i + 1]);
        }
        let entry = state.rest[0]->0;
        let link = place(state.dest, entry);
        let second = first.step();
        assert(end == second.drive((steps - 1) as nat));
        let third = second.step();
        assert(end == third.drive((steps - 2) as nat));
        let left = InstallerView { stage: StageView::Reporting, rest: tail, ..state };
        assert(!world.faults.contains(world.clock));
        assert(!world.faults.contains(world.clock + 1));
        assert(!world.faults.contains(world.clock + 2));
        if world.tree.contains_key(link) {
            assert(third.state == left.advance().0);
            assert(third.action == left.advance().1);
            lemma_walk_completes(left, third.world, (steps - 2) as nat);
        } else {
            let fourth = third.step();
            assert(end == fourth.drive((steps - 3) as nat));
            assert(fourth.state == left.advance().0);
            assert(fourth.action == left.advance().1);
            lemma_walk_completes(left, fourth.world, (steps - 3) as nat);
        }
    }
}

/// An install finishes where nothing disturbs it: in a calm world, with
/// nothing in the way of either subdirectory and a listing whose every item
/// can be taken up, three actions for each item and three more are enough.
pub proof fn law_install_completes(
    source_root: Seq<char>,
    dest_root: Seq<char>,
    name: Seq<char>,
    world: World,
    steps: nat,
)
    requires
        world.calm(),
        !blocked(world.tree, spec_join(source_root, name)),
        !blocked(
            with_dirs(world.tree, spec_join(source_root, name)),
            spec_join(dest_root, name),
        ),
        readable(world.listing(spec_join(source_root, name))),
        steps >= 3 * world.listing(spec_join(source_root, name)).len() + 3,
    ensures
        install(source_root, dest_root, name, world, steps).finished(),
{
    let source = spec_join(source_root, name);
    let dest = spec_join(dest_root, name);
    let items = world.listing(source);
    let (state, action) = InstallerView::begin(source_root, dest_root, name);
    let first = Run { state, action, world };
    let end = first.drive(steps);
    assert(!world.faults.contains(world.clock));
    assert(!world.faults.contains(world.clock + 1));
    assert(!world.faults.contains(world.clock + 2));
    let second = first.step();
    assert(end == second.drive((steps - 1) as nat));
    let third = second.step();
    assert(end == third.drive((steps - 2) as nat));
    lemma_with_dirs_settles(world.tree, source);
    lemma_with_dirs_keeps(with_dirs(world.tree, source), dest);
    let fourth = third.step();
    assert(end == fourth.drive((steps - 3) as nat));
    let listed = InstallerView { rest: items, ..third.state };
    assert(fourth.state == listed.advance().0);
    assert(fourth.action == listed.advance().1);
    lemma_walk_completes(listed, fourth.world, (steps - 3) as nat);
}

/// The link to an entry does not stand where its directory, or a directory
/// above that one, stands.
pub proof fn lemma_place_below(dest: Seq<char>, name: Seq<char>)
    requires
        is_entry_name(name),
    ensures
        !on_way(spec_join(dest, name), dest),
{
    assert(name[0] != '/') by {
        assert(name.contains(name[0]));
    }
}

/// Taking up entries changes no entry of the tree, and reports once for each.
pub proof fn lemma_linked_keeps(tree: Tree, dest: Seq<char>, items: Seq<ListedView>)
    ensures
        keeps(tree, linked(tree, dest, items)),
        reported(tree, dest, items).len() == items.len(),
    decreases items.len(),
{
    if items.len() > 0 {
        let one = linked_one(tree, dest, items[0]->0);
        lemma_linked_keeps(one, dest, items.skip(1));
        lemma_keeps_on(tree, one, linked(one, dest, items.skip(1)));
    }
}

/// What taking up `items` does for the `i`-th of them: its place holds
/// something afterwards; where it held something before, that is reported as
/// skipped; where it held nothing and no earlier entry belongs there, it now
/// holds a link to the entry, reported as created.
pub proof fn lemma_linked_at(tree: Tree, dest: Seq<char>, items: Seq<ListedView>, i: int)
    requires
        0 <= i < items.len(),
    ensures
        reported(tree, dest, items).len() == items.len(),
        linked(tree, dest, items).contains_key(spot(dest, items, i)),
        tree.contains_key(spot(dest, items, i)) ==> reported(tree, dest, items)[i] == (
        ReportView::Skipped { name: (items[i]->0).name, path: spot(dest, items, i) }),
        !tree.contains_key(spot(dest, items, i)) && (forall|j: int|
            0 <= j < i ==> spot(dest, items, j) != spot(dest, items, i)) ==> {
            &&& linked(tree, dest, items)[spot(dest, items, i)] == (Node::Symlink {
                target: (items[i]->0).path,
            })
            &&& reported(tree, dest, items)[i] == (ReportView::Created {
                name: (items[i]->0).name,
                path: spot(dest, items, i),
            })
        },
    decreases items.len(),
{
    let one = linked_one(tree, dest, items[0]->0);
    let tail = items.skip(1);
    lemma_linked_keeps(one, dest, tail);
    if i == 0 {
        assert(one.contains_key(spot(dest, items, 0)));
    } else {
        assert(spot(dest, tail, i - 1) == spot(dest, items, i));
        lemma_linked_at(one, dest, tail, i - 1);
        if !tree.contains_key(spot(dest, items, i)) && (forall|j: int|
            0 <= j < i ==> spot(dest, items, j) != spot(dest, items, i)) {
            assert(spot(dest, items, 0) != spot(dest, items, i));
            assert forall|j: int| 0 <= j < i - 1 implies #[trigger] spot(dest, tail, j) != spot(
                dest,
                tail,
                i - 1,
            ) by {
                assert(spot(dest, tail, j) == spot(dest, items, j + 1));
            }
        }
    }
}

/// Where every place is taken, taking up the entries changes nothing and
/// reports each entry as skipped.
pub proof fn lemma_linked_settled(tree: Tree, dest: Seq<char>, items: Seq<ListedView>)
    requires
        forall|i: int| 0 <= i < items.len() ==> tree.contains_key(#[trigger] spot(dest, items, i)),
    ensures
        linked(tree, dest, items) == tree,
        reported(tree, dest, items) == all_skipped(dest, items),
    decreases items.len(),
{
    if items.len() > 0 {
        let tail = items.skip(1);
        assert(tree.contains_key(spot(dest, items, 0)));
        assert forall|i: int| 0 <= i < tail.len() implies tree.contains_key(
            #[trigger] spot(dest, tail, i),
        ) by {
            assert(spot(dest, tail, i) == spot(dest, items, i + 1));
        }
        lemma_linked_settled(tree, dest, tail);
        assert forall|i: int| 0 <= i < items.len() implies #[trigger] reported(
            tree,
            dest,
            items,
        )[i] == all_skipped(dest, items)[i] by {
            if i > 0 {
                assert(spot(dest, tail, i - 1) == spot(dest, items, i));
                assert(reported(tree, dest, items)[i] == all_skipped(dest, tail)[i - 1]);
            }
        }
        assert(reported(tree, dest, items) =~= all_skipped(dest, items));
    } else {
        assert(reported(tree, dest, items) =~= all_skipped(dest, items));
    }
}

/// In a tree that keeps all that a walk has left, the same walk changes
/// nothing: both subdirectories are there, every place is taken, and every
/// entry is reported as skipped.
pub proof fn lemma_walked_again(
    tree: Tree,
    later: Tree,
    source: Seq<char>,
    dest: Seq<char>,
    items: Seq<ListedView>,
)
    requires
        unblocked(tree, source, dest),
        keeps(linked(prepared(tree, source, dest), dest, items), later),
    ensures
        unblocked(later, source, dest),
        prepared(later, source, dest) == later,
        linked(later, dest, items) == later,
        reported(later, dest, items) == all_skipped(dest, items),
{
    let made = with_dirs(tree, source);
    let base = prepared(tree, source, dest);
    lemma_with_dirs_settles(tree, source);
    lemma_with_dirs_settles(made, dest);
    lemma_with_dirs_keeps(made, dest);
    lemma_linked_keeps(base, dest, items);
    lemma_keeps_on(base, linked(base, dest, items), later);
    assert forall|at: Seq<char>| #[trigger] on_way(at, source) implies base.contains_key(at)
        && base[at] is Directory by {
        if made.contains_key(at) && !(made[at] is Directory) {
            assert(blocked(made, source));
        }
    }
    assert forall|at: Seq<char>| #[trigger] on_way(at, dest) implies base.contains_key(at)
        && base[at] is Directory by {
        if base.contains_key(at) && !(base[at] is Directory) {
            assert(blocked(base, dest));
        }
    }
    lemma_with_dirs_again(base, later, source);
    lemma_with_dirs_again(base, later, dest);
    assert forall|i: int| 0 <= i < items.len() implies later.contains_key(
        #[trigger] spot(dest, items, i),
    ) by {
        lemma_linked_at(base, dest, items, i);
    }
    lemma_linked_settled(later, dest, items);
}

/// No-clobber, the report: an install that finishes reports each entry whose
/// place in the destination was taken before it began as skipped. (That the
/// entry at that place is unchanged is `law_no_clobber`.)
pub proof fn law_taken_is_skipped(
    source_root: Seq<char>,
    dest_root: Seq<char>,
    name: Seq<char>,
    world: World,
    steps: nat,
    i: int,
)
    requires
        install(source_root, dest_root, name, world, steps).finished(),
        0 <= i < world.listing(spec_join(source_root, name)).len(),
        world.tree.contains_key(
            spot(spec_join(dest_root, name), world.listing(spec_join(source_root, name)), i),
        ),
    ensures
        ({
            let dest = spec_join(dest_root, name);
            let items = world.listing(spec_join(source_root, name));
            let end = install(source_root, dest_root, name, world, steps);
            &&& end.world.log.len() == world.log.len() + items.len()
            &&& end.world.log[world.log.len() + i] == (ReportView::Skipped {
                name: (items[i]->0).name,
                path: spot(dest, items, i),
            })
        }),
{
    let source = spec_join(source_root, name);
    let dest = spec_join(dest_root, name);
    let items = world.listing(source);
    let base = prepared(world.tree, source, dest);
    lemma_install_finished(source_root, dest_root, name, world, steps);
    lemma_linked_at(base, dest, items, i);
}

/// New-link correctness: an install that finishes leaves, for each entry of
/// the source whose place in the destination held nothing before it began, a
/// link at that place that points at the entry, and reports it as linked.
///
/// The listing is taken to name each entry once. An entry whose place is the
/// source subdirectory itself, or a directory above it, is left out: that
/// place holds a directory by the time the entry is taken up.
pub proof fn law_new_links(
    source_root: Seq<char>,
    dest_root: Seq<char>,
    name: Seq<char>,
    world: World,
    steps: nat,
    i: int,
)
    requires
        install(source_root, dest_root, name, world, steps).finished(),
        0 <= i < world.listing(spec_join(source_root, name)).len(),
        forall|j: int, k: int|
            #![trigger world.listing(spec_join(source_root, name))[j], world.listing(spec_join(source_root, name))[k]]
            0 <= j < k < world.listing(spec_join(source_root, name)).len() ==> spec_file_name(
                (world.listing(spec_join(source_root, name))[j]->0).path,
            ) != spec_file_name((world.listing(spec_join(source_root, name))[k]->0).path),
        !world.tree.contains_key(
            spot(spec_join(dest_root, name), world.listing(spec_join(source_root, name)), i),
        ),
        !on_way(
            spot(spec_join(dest_root, name), world.listing(spec_join(source_root, name)), i),
            spec_join(source_root, name),
        ),
    ensures
        ({
            let dest = spec_join(dest_root, name);
            let items = world.listing(spec_join(source_root, name));
            let end = install(source_root, dest_root, name, world, steps);
            &&& end.world.tree.contains_key(spot(dest, items, i))
            &&& end.world.tree[spot(dest, items, i)] == (Node::Symlink {
                target: (items[i]->0).path,
            })
            &&& end.world.log.len() == world.log.len() + items.len()
            &&& end.world.log[world.log.len() + i] == (ReportView::Created {
                name: (items[i]->0).name,
                path: spot(dest, items, i),
            })
        }),
{
    let source = spec_join(source_root, name);
    let dest = spec_join(dest_root, name);
    let items = world.listing(source);
    let base = prepared(world.tree, source, dest);
    lemma_install_finished(source_root, dest_root, name, world, steps);
    assert(named(items[i]));
    let own = spec_file_name((items[i]->0).path).unwrap();
    lemma_file_name_is_entry_name((items[i]->0).path);
    lemma_place_below(dest, own);
    assert(own[0] != '/') by {
        assert(own.contains(own[0]));
    }
    assert forall|j: int| 0 <= j < i implies spot(dest, items, j) != spot(dest, items, i) by {
        assert(named(items[j]));
        let other = spec_file_name((items[j]->0).path).unwrap();
        lemma_file_name_is_entry_name((items[j]->0).path);
        assert(other[0] != '/') by {
            assert(other.contains(other[0]));
        }
        if spot(dest, items, j) == spot(dest, items, i) {
            lemma_join_injective(dest, other, own);
        }
    }
    lemma_linked_at(base, dest, items, i);
}

/// Idempotent reinstall: where an install has finished, a second one that
/// finishes leaves the tree as the first left it, and reports every entry as
/// skipped.
pub proof fn law_reinstall(
    source_root: Seq<char>,
    dest_root: Seq<char>,
    name: Seq<char>,
    world: World,
    steps: nat,
    again: nat,
)
    requires
        install(source_root, dest_root, name, world, steps).finished(),
        install(
            source_root,
            dest_root,
            name,
            install(source_root, dest_root, name, world, steps).world,
            again,
        ).finished(),
    ensures
        ({
            let dest = spec_join(dest_root, name);
            let items = world.listing(spec_join(source_root, name));
            let first = install(source_root, dest_root, name, world, steps);
            let second = install(source_root, dest_root, name, first.world, again);
            &&& second.world.tree == first.world.tree
            &&& second.world.log == first.world.log + all_skipped(dest, items)
        }),
{
    let source = spec_join(source_root, name);
    let dest = spec_join(dest_root, name);
    let items = world.listing(source);
    let first = install(source_root, dest_root, name, world, steps);
    lemma_install_finished(source_root, dest_root, name, world, steps);
    lemma_install_finished(source_root, dest_root, name, first.world, again);
    lemma_walked_again(world.tree, first.world.tree, source, dest, items);
}

} // verus!
