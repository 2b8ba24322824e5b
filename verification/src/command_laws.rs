//! What the install command guarantees on the modelled disk.

use vstd::prelude::*;
use crate::command::{
    spec_config_root,
    spec_repo_path,
    ArgsView,
    CommandView,
    SourceView,
    StageView,
};
use crate::install::InstallerView;
use crate::install_laws::{
    all_skipped,
    lemma_linked_keeps,
    lemma_walked_again,
    linked,
    named,
    place,
    prepared,
    readable,
    reported,
    unblocked,
    Run,
};
use crate::paths::spec_join;
use crate::protocol::{ActionView, ReportView};
use crate::url::parsed_url;
use crate::world::{
    keeps,
    lemma_keeps_on,
    lemma_with_dirs_keeps,
    lemma_with_dirs_settles,
    with_dirs,
    Tree,
    World,
};

verus! {

/// An install command in the middle of its work: its state, the action it has
/// named, and the world that the action will be performed in.
pub struct CommandRun {
    pub state: CommandView,
    pub action: ActionView,
    pub world: World,
}

impl CommandRun {
    /// The driver performs the action and hands the answer to the command.
    pub open spec fn step(self) -> CommandRun {
        let (state, action) = self.state.next(self.world.respond(self.action));
        CommandRun { state, action, world: self.world.after(self.action) }
    }

    /// The driver's loop, for at most `steps` actions: it stops at an action
    /// that ends the command.
    pub open spec fn drive(self, steps: nat) -> CommandRun
        decreases steps,
    {
        if steps == 0 || self.action.is_terminal() {
            self
        } else {
            self.step().drive((steps - 1) as nat)
        }
    }

    /// The command has walked both subdirectories to their ends.
    pub open spec fn finished(self) -> bool {
        self.action is Finish
    }

    /// The command's action is one that its stage calls for, and the walk it
    /// is in, if any, is careful.
    pub open spec fn careful(self) -> bool {
        match self.state.stage {
            StageView::CheckingPath { source } => self.action is Probe,
            StageView::MakingRoot { repo, url } => self.action is MakeDir,
            StageView::MakingRepo { repo, url } => self.action is MakeDir,
            StageView::Cloning { repo } => self.action is Clone,
            StageView::Merging { walk, source, last } => {
                &&& (Run { state: walk, action: self.action, world: self.world }).careful()
                &&& !self.action.is_terminal()
            },
            StageView::Finished => self.action is Finish,
            StageView::Aborted { error } => self.action is Abort,
        }
    }
}

/// The install command with the arguments `args` into the home directory
/// `home`, driven in `world` for at most `steps` actions.
pub open spec fn install_command(
    args: ArgsView,
    home: Option<Seq<char>>,
    world: World,
    steps: nat,
) -> CommandRun {
    let (state, action) = CommandView::begin(args, home);
    CommandRun { state, action, world }.drive(steps)
}

/// A careful command takes a careful step, and the step changes no entry.
pub proof fn lemma_command_step_careful(run: CommandRun)
    requires
        run.careful(),
    ensures
        run.step().careful(),
        keeps(run.world.tree, run.step().world.tree),
{
    match run.state.stage {
        StageView::Merging { walk, source, last } => {
            crate::install_laws::lemma_step_careful(
                Run { state: walk, action: run.action, world: run.world },
            );
        },
        _ => {
            match run.action {
                ActionView::MakeDir { path } => {
                    lemma_with_dirs_keeps(run.world.tree, path);
                },
                _ => {},
            }
        },
    }
}

/// A careful command stays careful, and no entry is changed while it is driven.
pub proof fn lemma_command_drive_careful(run: CommandRun, steps: nat)
    requires
        run.careful(),
    ensures
        run.drive(steps).careful(),
        keeps(run.world.tree, run.drive(steps).world.tree),
    decreases steps,
{
    if steps == 0 || run.action.is_terminal() {
    } else {
        lemma_command_step_careful(run);
        lemma_command_drive_careful(run.step(), (steps - 1) as nat);
        lemma_keeps_on(run.world.tree, run.step().world.tree, run.drive(steps).world.tree);
    }
}

/// No-clobber, for the whole command: whatever is on disk before an install
/// command is there after it, unchanged. This holds whatever the arguments
/// are, however far the command got, and whatever failed on its way.
pub proof fn law_command_no_clobber(
    args: ArgsView,
    home: Option<Seq<char>>,
    world: World,
    steps: nat,
)
    ensures
        keeps(world.tree, install_command(args, home, world, steps).world.tree),
{
    let (state, action) = CommandView::begin(args, home);
    lemma_command_drive_careful(CommandRun { state, action, world }, steps);
}

/// `tree` once the subdirectory `name` of `source` was walked into that of
/// `home`, in a world with the listings of `world`.
pub open spec fn walk_tree(
    world: World,
    tree: Tree,
    source: Seq<char>,
    home: Seq<char>,
    name: Seq<char>,
) -> Tree {
    linked(
        prepared(tree, spec_join(source, name), spec_join(home, name)),
        spec_join(home, name),
        world.listing(spec_join(source, name)),
    )
}

/// The reports of that walk.
pub open spec fn walk_log(
    world: World,
    tree: Tree,
    source: Seq<char>,
    home: Seq<char>,
    name: Seq<char>,
) -> Seq<ReportView> {
    reported(
        prepared(tree, spec_join(source, name), spec_join(home, name)),
        spec_join(home, name),
        world.listing(spec_join(source, name)),
    )
}

/// Nothing stands in the way of making the subdirectory `name` of `source`
/// and then that of `home`.
pub open spec fn walk_clear(tree: Tree, source: Seq<char>, home: Seq<char>, name: Seq<char>) -> bool {
    unblocked(tree, spec_join(source, name), spec_join(home, name))
}

/// The command at the moment its walk, in `state`, takes up the next item.
pub open spec fn at_item(
    command: CommandView,
    source: Seq<char>,
    last: bool,
    state: InstallerView,
    world: World,
) -> CommandRun {
    let (onward, action) = state.advance();
    let (state, action) = command.carry(source, last, onward, action);
    CommandRun { state, action, world }
}

/// The command at the moment its walk over the subdirectory `name` begins.
pub open spec fn at_walk(
    command: CommandView,
    source: Seq<char>,
    name: Seq<char>,
    last: bool,
    world: World,
) -> CommandRun {
    let (state, action) = command.merge(source, name, last);
    CommandRun { state, action, world }
}

/// What a command that finishes has done from the moment its walk takes up
/// the next item: it has taken up every item that was left, and after a walk
/// that was not the last, it has walked `files` as well.
proof fn lemma_command_items(
    command: CommandView,
    source: Seq<char>,
    last: bool,
    state: InstallerView,
    world: World,
    steps: nat,
)
    requires
        at_item(command, source, last, state, world).drive(steps).finished(),
    ensures
        readable(state.rest),
        ({
            let end = at_item(command, source, last, state, world).drive(steps).world;
            let mid = linked(world.tree, state.dest, state.rest);
            let said = world.log + reported(world.tree, state.dest, state.rest);
            &&& end.listings == world.listings
            &&& last ==> end.tree == mid && end.log == said
            &&& !last ==> {
                &&& readable(world.listing(spec_join(source, "files"@)))
                &&& walk_clear(mid, source, command.home, "files"@)
                &&& end.tree == walk_tree(world, mid, source, command.home, "files"@)
                &&& end.log == said + walk_log(world, mid, source, command.home, "files"@)
            }
        }),
    decreases
            (if last {
                0int
            } else {
                1int
            }),
            0int,
            state.rest.len(),
{
    let first = at_item(command, source, last, state, world);
    let end = first.drive(steps);
    if state.rest.len() == 0 {
        assert(world.log + reported(world.tree, state.dest, state.rest) =~= world.log);
        if !last {
            lemma_command_walk(command, source, "files"@, true, world, steps);
        }
    } else {
        let tail = state.rest.skip(1);
        assert(!first.action.is_terminal());
        assert(named(state.rest[0]));
        let entry = state.rest[0]->0;
        let link = place(state.dest, entry);
        assert(steps > 0);
        let second = first.step();
        assert(end == second.drive((steps - 1) as nat));
        assert(!second.action.is_terminal());
        assert(!world.faults.contains(world.clock));
        assert(steps > 1);
        let third = second.step();
        assert(end == third.drive((steps - 2) as nat));
        let left = InstallerView {
            stage: crate::install::StageView::Reporting,
            rest: tail,
            ..state
        };
        if world.tree.contains_key(link) {
            assert(second.action is Report);
            assert(third == at_item(command, source, last, left, third.world));
            lemma_command_items(command, source, last, left, third.world, (steps - 2) as nat);
            assert(third.world.log + reported(third.world.tree, state.dest, tail) =~= world.log
                + reported(world.tree, state.dest, state.rest));
        } else {
            assert(second.action is Symlink);
            assert(!third.action.is_terminal());
            assert(steps > 2);
            let fourth = third.step();
            assert(end == fourth.drive((steps - 3) as nat));
            assert(fourth == at_item(command, source, last, left, fourth.world));
            lemma_command_items(command, source, last, left, fourth.world, (steps - 3) as nat);
            assert(fourth.world.log + reported(fourth.world.tree, state.dest, tail) =~= world.log
                + reported(world.tree, state.dest, state.rest));
        }
        assert forall|i: int| 0 <= i < state.rest.len() implies named(#[trigger] state.rest[i]) by {
            if i > 0 {
                assert(state.rest[i] == tail[i - 1]);
            }
        }
    }
}

/// What a command that finishes has done from the moment its walk over the
/// subdirectory `name` begins: it has made both subdirectories, has read
/// the listing in full and has taken up every entry of it, and after a walk
/// that was not the last, it has walked `files` as well.
proof fn lemma_command_walk(
    command: CommandView,
    source: Seq<char>,
    name: Seq<char>,
    last: bool,
    world: World,
    steps: nat,
)
    requires
        at_walk(command, source, name, last, world).drive(steps).finished(),
    ensures
        readable(world.listing(spec_join(source, name))),
        walk_clear(world.tree, source, command.home, name),
        ({
            let end = at_walk(command, source, name, last, world).drive(steps).world;
            let mid = walk_tree(world, world.tree, source, command.home, name);
            let said = world.log + walk_log(world, world.tree, source, command.home, name);
            &&& end.listings == world.listings
            &&& last ==> end.tree == mid && end.log == said
            &&& !last ==> {
                &&& readable(world.listing(spec_join(source, "files"@)))
                &&& walk_clear(mid, source, command.home, "files"@)
                &&& end.tree == walk_tree(world, mid, source, command.home, "files"@)
                &&& end.log == said + walk_log(world, mid, source, command.home, "files"@)
            }
        }),
    decreases
            (if last {
                0int
            } else {
                1int
            }),
            1int,
            0nat,
{
    let first = at_walk(command, source, name, last, world);
    let end = first.drive(steps);
    let walk = first.state.stage->Merging_walk;
    assert(steps > 0);
    let second = first.step();
    assert(end == second.drive((steps - 1) as nat));
    assert(!second.action.is_terminal());
    assert(steps > 1);
    let third = second.step();
    assert(end == third.drive((steps - 2) as nat));
    assert(!third.action.is_terminal());
    assert(steps > 2);
    let fourth = third.step();
    assert(end == fourth.drive((steps - 3) as nat));
    let listed = InstallerView {
        stage: crate::install::StageView::Listing,
        rest: world.listing(spec_join(source, name)),
        ..walk
    };
    assert(fourth == at_item(command, source, last, listed, fourth.world));
    lemma_command_items(command, source, last, listed, fourth.world, (steps - 3) as nat);
}

/// A finished install of a literal path has found something at the path and
/// has walked its `bin` and then its `files` into the home directory: the
/// tree and the reports are those of the two walks, one after the other.
pub proof fn law_command_walks_path(
    args: ArgsView,
    home: Seq<char>,
    path: Seq<char>,
    world: World,
    steps: nat,
)
    requires
        args.source() == Ok::<SourceView, crate::error::Error>(SourceView::Path(path)),
        install_command(args, Some(home), world, steps).finished(),
    ensures
        world.tree.contains_key(path),
        readable(world.listing(spec_join(path, "bin"@))),
        readable(world.listing(spec_join(path, "files"@))),
        ({
            let end = install_command(args, Some(home), world, steps).world;
            let mid = walk_tree(world, world.tree, path, home, "bin"@);
            &&& walk_clear(world.tree, path, home, "bin"@)
            &&& walk_clear(mid, path, home, "files"@)
            &&& end.listings == world.listings
            &&& end.tree == walk_tree(world, mid, path, home, "files"@)
            &&& end.log == world.log + walk_log(world, world.tree, path, home, "bin"@) + walk_log(
                world,
                mid,
                path,
                home,
                "files"@,
            )
        }),
{
    let (state, action) = CommandView::begin(args, Some(home));
    let first = CommandRun { state, action, world };
    let end = first.drive(steps);
    assert(steps > 0);
    let second = first.step();
    assert(end == second.drive((steps - 1) as nat));
    assert(!second.action.is_terminal());
    assert(second == at_walk(state, path, "bin"@, false, second.world));
    lemma_command_walk(state, path, "bin"@, false, second.world, (steps - 1) as nat);
}

/// In a calm world, a command whose walk can take up every item that is
/// left, and whose walk over `files`, if that is still to come, meets
/// nothing in its way and a listing that it can take up, finishes: within
/// three actions for each item, and three more for the walk to come.
proof fn lemma_command_items_complete(
    command: CommandView,
    source: Seq<char>,
    last: bool,
    state: InstallerView,
    world: World,
    steps: nat,
)
    requires
        world.calm(),
        readable(state.rest),
        !last ==> {
            &&& walk_clear(
                linked(world.tree, state.dest, state.rest),
                source,
                command.home,
                "files"@,
            )
            &&& readable(world.listing(spec_join(source, "files"@)))
        },
        steps >= 3 * state.rest.len() + (if last {
            0
        } else {
            3 * world.listing(spec_join(source, "files"@)).len() + 3
        }),
    ensures
        at_item(command, source, last, state, world).drive(steps).finished(),
    decreases
            (if last {
                0int
            } else {
                1int
            }),
            0int,
            state.rest.len(),
{
    let first = at_item(command, source, last, state, world);
    let end = first.drive(steps);
    if state.rest.len() == 0 {
        if !last {
            lemma_command_walk_complete(command, source, "files"@, true, world, steps);
        }
    } else {
        let tail = state.rest.skip(1);
        assert(named(state.rest[0]));
        assert forall|i: int| 0 <= i < tail.len() implies named(#[trigger] tail[i]) by {
            assert(tail[i] == state.rest[i + 1]);
        }
        let entry = state.rest[0]->0;
        let link = place(state.dest, entry);
        let second = first.step();
        assert(end == second.drive((steps - 1) as nat));
        let third = second.step();
        assert(end == third.drive((steps - 2) as nat));
        let left = InstallerView {
            stage: crate::install::StageView::Reporting,
            rest: tail,
            ..state
        };
        assert(!world.faults.contains(world.clock));
        assert(!world.faults.contains(world.clock + 1));
        assert(!world.faults.contains(world.clock + 2));
        if world.tree.contains_key(link) {
            assert(third == at_item(command, source, last, left, third.world));
            lemma_command_items_complete(
                command,
                source,
                last,
                left,
                third.world,
                (steps - 2) as nat,
            );
        } else {
            let fourth = third.step();
            assert(end == fourth.drive((steps - 3) as nat));
            assert(fourth == at_item(command, source, last, left, fourth.world));
            lemma_command_items_complete(
                command,
                source,
                last,
                left,
                fourth.world,
                (steps - 3) as nat,
            );
        }
    }
}

/// In a calm world, a command whose walk over the subdirectory `name` meets
/// nothing in its way and a listing that it can take up, and likewise for
/// the walk over `files`, if that is still to come, finishes.
proof fn lemma_command_walk_complete(
    command: CommandView,
    source: Seq<char>,
    name: Seq<char>,
    last: bool,
    world: World,
    steps: nat,
)
    requires
        world.calm(),
        walk_clear(world.tree, source, command.home, name),
        readable(world.listing(spec_join(source, name))),
        !last ==> {
            &&& walk_clear(
                walk_tree(world, world.tree, source, command.home, name),
                source,
                command.home,
                "files"@,
            )
            &&& readable(world.listing(spec_join(source, "files"@)))
        },
        steps >= 3 * world.listing(spec_join(source, name)).len() + 3 + (if last {
            0
        } else {
            3 * world.listing(spec_join(source, "files"@)).len() + 3
        }),
    ensures
        at_walk(command, source, name, last, world).drive(steps).finished(),
    decreases
            (if last {
                0int
            } else {
                1int
            }),
            1int,
            0nat,
{
    let first = at_walk(command, source, name, last, world);
    let end = first.drive(steps);
    let walk = first.state.stage->Merging_walk;
    let from = spec_join(source, name);
    let into = spec_join(command.home, name);
    assert(!world.faults.contains(world.clock));
    assert(!world.faults.contains(world.clock + 1));
    assert(!world.faults.contains(world.clock + 2));
    let second = first.step();
    assert(end == second.drive((steps - 1) as nat));
    let third = second.step();
    assert(end == third.drive((steps - 2) as nat));
    lemma_with_dirs_settles(world.tree, from);
    lemma_with_dirs_keeps(with_dirs(world.tree, from), into);
    let fourth = third.step();
    assert(end == fourth.drive((steps - 3) as nat));
    let listed = InstallerView {
        stage: crate::install::StageView::Listing,
        rest: world.listing(from),
        ..walk
    };
    assert(fourth == at_item(command, source, last, listed, fourth.world));
    lemma_command_items_complete(command, source, last, listed, fourth.world, (steps - 3) as nat);
}

/// An install of a literal path finishes where nothing disturbs it: in a
/// calm world with something at the path, with nothing in the way of the
/// four subdirectories, and with two listings whose every item can be taken
/// up, three actions for each item and seven more are enough.
pub proof fn law_command_completes(
    args: ArgsView,
    home: Seq<char>,
    path: Seq<char>,
    world: World,
    steps: nat,
)
    requires
        args.source() == Ok::<SourceView, crate::error::Error>(SourceView::Path(path)),
        world.calm(),
        world.tree.contains_key(path),
        walk_clear(world.tree, path, home, "bin"@),
        walk_clear(walk_tree(world, world.tree, path, home, "bin"@), path, home, "files"@),
        readable(world.listing(spec_join(path, "bin"@))),
        readable(world.listing(spec_join(path, "files"@))),
        steps >= 3 * world.listing(spec_join(path, "bin"@)).len() + 3 * world.listing(
            spec_join(path, "files"@),
        ).len() + 7,
    ensures
        install_command(args, Some(home), world, steps).finished(),
{
    let (state, action) = CommandView::begin(args, Some(home));
    let first = CommandRun { state, action, world };
    let end = first.drive(steps);
    assert(!world.faults.contains(world.clock));
    let second = first.step();
    assert(end == second.drive((steps - 1) as nat));
    assert(second == at_walk(state, path, "bin"@, false, second.world));
    lemma_command_walk_complete(state, path, "bin"@, false, second.world, (steps - 1) as nat);
}

/// Idempotent reinstall, for the whole command: where an install of a
/// literal path has finished, a second one that finishes leaves the tree as
/// the first left it, and reports every entry of `bin` and then every entry
/// of `files` as skipped.
pub proof fn law_command_reinstall(
    args: ArgsView,
    home: Seq<char>,
    path: Seq<char>,
    world: World,
    steps: nat,
    again: nat,
)
    requires
        args.source() == Ok::<SourceView, crate::error::Error>(SourceView::Path(path)),
        install_command(args, Some(home), world, steps).finished(),
        install_command(
            args,
            Some(home),
            install_command(args, Some(home), world, steps).world,
            again,
        ).finished(),
    ensures
        ({
            let first = install_command(args, Some(home), world, steps).world;
            let second = install_command(args, Some(home), first, again).world;
            &&& second.tree == first.tree
            &&& second.log == first.log + all_skipped(
                spec_join(home, "bin"@),
                world.listing(spec_join(path, "bin"@)),
            ) + all_skipped(spec_join(home, "files"@), world.listing(spec_join(path, "files"@)))
        }),
{
    let first = install_command(args, Some(home), world, steps).world;
    law_command_walks_path(args, home, path, world, steps);
    law_command_walks_path(args, home, path, first, again);
    let mid = walk_tree(world, world.tree, path, home, "bin"@);
    lemma_linked_keeps(
        prepared(mid, spec_join(path, "files"@), spec_join(home, "files"@)),
        spec_join(home, "files"@),
        world.listing(spec_join(path, "files"@)),
    );
    lemma_with_dirs_keeps(mid, spec_join(path, "files"@));
    lemma_with_dirs_keeps(
        with_dirs(mid, spec_join(path, "files"@)),
        spec_join(home, "files"@),
    );
    lemma_keeps_on(
        mid,
        with_dirs(mid, spec_join(path, "files"@)),
        prepared(mid, spec_join(path, "files"@), spec_join(home, "files"@)),
    );
    lemma_keeps_on(
        mid,
        prepared(mid, spec_join(path, "files"@), spec_join(home, "files"@)),
        first.tree,
    );
    lemma_walked_again(
        world.tree,
        first.tree,
        spec_join(path, "bin"@),
        spec_join(home, "bin"@),
        world.listing(spec_join(path, "bin"@)),
    );
    lemma_walked_again(
        mid,
        first.tree,
        spec_join(path, "files"@),
        spec_join(home, "files"@),
        world.listing(spec_join(path, "files"@)),
    );
}

/// The tree once the directory for a repository was made under the
/// configuration root in `home` and the repository was cloned into it.
pub open spec fn cloned(world: World, home: Seq<char>, url: Seq<char>, url_path: Seq<char>) -> Tree {
    let root = spec_config_root(home);
    let repo = spec_join(root, spec_repo_path(url_path));
    world.remotes[(url, repo)].union_prefer_right(with_dirs(with_dirs(world.tree, root), repo))
}

/// A finished install of a repository has made the repository's directory
/// under the configuration root, has cloned into it, and has walked the `bin`
/// and then the `files` of the clone into the home directory.
pub proof fn law_command_walks_clone(
    args: ArgsView,
    home: Seq<char>,
    reference: Seq<char>,
    world: World,
    steps: nat,
)
    requires
        args.source() == Ok::<SourceView, crate::error::Error>(SourceView::Git(reference)),
        install_command(args, Some(home), world, steps).finished(),
    ensures
        parsed_url(reference) is Some,
        ({
            let (url, url_path) = parsed_url(reference).unwrap();
            let repo = spec_join(spec_config_root(home), spec_repo_path(url_path));
            let end = install_command(args, Some(home), world, steps).world;
            let start = cloned(world, home, url, url_path);
            let mid = walk_tree(world, start, repo, home, "bin"@);
            &&& world.remotes.contains_key((url, repo))
            &&& readable(world.listing(spec_join(repo, "bin"@)))
            &&& readable(world.listing(spec_join(repo, "files"@)))
            &&& end.tree == walk_tree(world, mid, repo, home, "files"@)
            &&& end.log == world.log + walk_log(world, start, repo, home, "bin"@) + walk_log(
                world,
                mid,
                repo,
                home,
                "files"@,
            )
        }),
{
    let (state, action) = CommandView::begin(args, Some(home));
    let first = CommandRun { state, action, world };
    let end = first.drive(steps);
    let (url, url_path) = parsed_url(reference).unwrap();
    let repo = spec_join(spec_config_root(home), spec_repo_path(url_path));
    assert(steps > 0);
    let second = first.step();
    assert(end == second.drive((steps - 1) as nat));
    assert(!second.action.is_terminal());
    assert(steps > 1);
    let third = second.step();
    assert(end == third.drive((steps - 2) as nat));
    assert(!third.action.is_terminal());
    assert(steps > 2);
    let fourth = third.step();
    assert(end == fourth.drive((steps - 3) as nat));
    assert(!fourth.action.is_terminal());
    assert(fourth == at_walk(state, repo, "bin"@, false, fourth.world));
    lemma_command_walk(state, repo, "bin"@, false, fourth.world, (steps - 3) as nat);
}

} // verus!
