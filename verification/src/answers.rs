//! What an operation answers where the file system does not fail: the conflict, the path error, or
//! that nothing is left to do.

use vstd::prelude::*;

use crate::disk;
use crate::guarantees;
use crate::guarantees::Scene;
use crate::history;
use crate::history::SnapshotSide;
use crate::io::IoErrorKind;
use crate::journal;
use crate::paths;
use crate::progress;

verus! {

pub open spec fn fails_with(op: journal::OperationView, e: history::HistoryErrorView) -> bool {
    op.stage == journal::StageView::Done(Err(e))
}

// ---------------------------------------------------------------------------------------------
// Conflicts

/// The conflict that names every file which is not as expected.
pub open spec fn the_conflict(
    d: disk::Disk,
    p: history::PendingView,
) -> history::HistoryErrorView {
    history::HistoryErrorView::Conflict(
        guarantees::mismatches(
            d,
            p,
            p.change_set.files.len() as int,
            SnapshotSide::Expected,
        ),
    )
}

/// What holds on the way to a conflict.
pub open spec fn colliding(
    start: disk::Disk,
    p: history::PendingView,
    op: journal::OperationView,
) -> bool {
    match op.stage {
        journal::StageView::ReadPending => true,
        journal::StageView::LoadState { .. } => true,
        journal::StageView::LoadTurn { .. } => true,
        journal::StageView::Check { pending, index, part, .. } => pending == p
            && progress::comparable(p, index, SnapshotSide::Expected, part),
        journal::StageView::Done(_) => fails_with(op, the_conflict(start, p)),
        _ => false,
    }
}

proof fn lemma_check_collides(
    start: disk::Disk,
    p: history::PendingView,
    op: journal::OperationView,
    i: int,
    conflicts: Seq<Seq<char>>,
)
    requires
        progress::workable(start, p),
        !guarantees::all_on(start, p, SnapshotSide::Expected),
        0 <= i <= p.change_set.files.len(),
        conflicts == guarantees::mismatches(start, p, i, SnapshotSide::Expected),
    ensures
        colliding(start, p, op.check_from(p, i, conflicts)),
{
    reveal(journal::OperationView::check_from);
    guarantees::lemma_no_mismatch(start, p, i, SnapshotSide::Expected);
    if i < p.change_set.files.len() {
        assert(paths::normalized(p.change_set.files[i].path) is Some);
    }
}

proof fn lemma_colliding(
    store: history::StoreView,
    start: disk::Disk,
    goal: journal::GoalView,
    p: history::PendingView,
    now: Scene,
    reply: journal::ReplyView,
    after: Scene,
)
    requires
        guarantees::quiet(start, goal),
        start.legible(),
        goal is Undo || goal is Redo,
        guarantees::plan(start, start, goal, p),
        progress::workable(start, p),
        !guarantees::all_on(start, p, SnapshotSide::Expected),
        now.disk == start,
        guarantees::sound(start, goal, now.disk, now.op),
        colliding(start, p, now.op),
        now.steps(store, reply, after),
        progress::fine(reply),
    ensures
        colliding(start, p, after.op),
{
    let op = now.op;
    match op.stage {
        journal::StageView::ReadPending => {
            reveal(journal::OperationView::on_read_pending);
        },
        journal::StageView::LoadState { .. } => {
            reveal(journal::OperationView::on_load_state);
            reveal(journal::OperationView::loaded);
        },
        journal::StageView::LoadTurn { kind, id, target, primary } => {
            reveal(journal::OperationView::on_load_turn);
            if reply->Turn_0 is Ok {
                assert(journal::replay(kind, reply->Turn_0->Ok_0, target) == p);
                lemma_check_collides(start, p, op, 0, Seq::empty());
            }
        },
        journal::StageView::Check { pending, index, conflicts, part } => {
            reveal(journal::OperationView::on_check);
            let change = p.change_set.files[index];
            let snapshot = p.side(change, SnapshotSide::Expected);
            assert(progress::way_clear(start, progress::place(p, index)));
            guarantees::lemma_probed(start, change.path, snapshot, part, reply, after.disk);
            progress::lemma_probe_succeeds(start, change.path, snapshot, part, reply, after.disk);
            if let Ok(Some(same)) = journal::probed(change.path, snapshot, part, reply) {
                let list = if same {
                    conflicts
                } else {
                    conflicts.push(change.path)
                };
                lemma_check_collides(start, p, op, index + 1, list);
            }
        },
        _ => {},
    }
}

proof fn lemma_colliding_run(
    store: history::StoreView,
    goal: journal::GoalView,
    scenes: Seq<Scene>,
    p: history::PendingView,
    bad: int,
    i: int,
)
    requires
        progress::is_smooth_run(store, scenes),
        guarantees::quiet(scenes[0].disk, goal),
        scenes[0].disk.legible(),
        scenes[0].op == guarantees::beginning(goal),
        goal is Undo || goal is Redo,
        guarantees::plan(scenes[0].disk, scenes[0].disk, goal, p),
        progress::workable(scenes[0].disk, p),
        0 <= bad < p.change_set.files.len(),
        !scenes[0].disk.on_side(p, bad, SnapshotSide::Expected),
        0 <= i < scenes.len(),
    ensures
        scenes[i].disk == scenes[0].disk,
        colliding(scenes[0].disk, p, scenes[i].op),
    decreases i,
{
    progress::lemma_smooth(store, scenes);
    guarantees::conflicts_touch_nothing(store, goal, scenes, p, bad, i);
    if i > 0 {
        lemma_colliding_run(store, goal, scenes, p, bad, i - 1);
        guarantees::lemma_run(store, scenes[0].disk, goal, scenes, i - 1);
        assert(progress::leads_smoothly(store, scenes[i - 1], scenes[i - 1 + 1]));
        let reply = choose|reply: journal::ReplyView| #[trigger]
            scenes[i - 1].steps(store, reply, scenes[i]) && progress::fine(reply);
        lemma_colliding(store, scenes[0].disk, goal, p, scenes[i - 1], reply, scenes[i]);
    }
}

/// Where the file system does not fail and the ways to the files are clear, an undo or redo ends
/// with a conflict exactly if a file is not as the transaction left it: the conflict names these
/// files, in their order, and nothing has changed. Else it succeeds, given files that can be
/// changed one after the other and blobs that are as long as recorded.
pub proof fn undisturbed_operations_conflict_exactly_on_mismatches(
    store: history::StoreView,
    goal: journal::GoalView,
    scenes: Seq<Scene>,
    p: history::PendingView,
    i: int,
)
    requires
        progress::is_smooth_run(store, scenes),
        guarantees::quiet(scenes[0].disk, goal),
        scenes[0].disk.legible(),
        scenes[0].op == guarantees::beginning(goal),
        goal is Undo || goal is Redo,
        guarantees::plan(scenes[0].disk, scenes[0].disk, goal, p),
        progress::workable(scenes[0].disk, p),
        0 <= i < scenes.len(),
        scenes[i].op.stage is Done,
    ensures
        !guarantees::all_on(scenes[0].disk, p, SnapshotSide::Expected) ==> fails_with(
            scenes[i].op,
            the_conflict(scenes[0].disk, p),
        ) && scenes[i].disk == scenes[0].disk,
        guarantees::all_on(scenes[0].disk, p, SnapshotSide::Expected) && progress::compatible(
            scenes[0].disk,
            p,
        ) && progress::all_measured(scenes[0].disk, p) ==> scenes[i].op.stage
            == journal::StageView::Done(Ok(journal::OutcomeView::Applied(p.change_set))),
{
    let start = scenes[0].disk;
    if !guarantees::all_on(start, p, SnapshotSide::Expected) {
        let bad = choose|bad: int|
            0 <= bad < p.change_set.files.len() && !#[trigger] start.on_side(
                p,
                bad,
                SnapshotSide::Expected,
            );
        lemma_colliding_run(store, goal, scenes, p, bad, i);
    } else if progress::compatible(start, p) && progress::all_measured(start, p) {
        assert(progress::ready(start, p));
        assert forall|x: history::PendingView| #[trigger]
            guarantees::plan(start, start, goal, x) implies progress::ready(start, x) by {
            assert(x == p);
        }
        progress::undisturbed_operations_do_not_fail(store, goal, scenes, i);
        progress::lemma_smooth(store, scenes);
        guarantees::lemma_run(store, start, goal, scenes, i);
    }
}

// ---------------------------------------------------------------------------------------------
// Nothing left to do

/// The answer where nothing is left to do.
pub open spec fn nothing_left(goal: journal::GoalView) -> history::HistoryErrorView {
    if goal is Undo {
        history::HistoryErrorView::NothingToUndo
    } else {
        history::HistoryErrorView::NothingToRedo
    }
}

/// Where no transaction is left to take back, or none to apply again, and the file system does not
/// fail, the operation ends with exactly that error, and changes nothing.
pub proof fn undisturbed_operations_say_that_nothing_is_left(
    store: history::StoreView,
    goal: journal::GoalView,
    scenes: Seq<Scene>,
    i: int,
)
    requires
        progress::is_smooth_run(store, scenes),
        scenes[0].op == guarantees::beginning(goal),
        scenes[0].disk.pending is None,
        scenes[0].disk.legible(),
        (goal is Undo && scenes[0].disk.history_state().cursor == 0) || (goal is Redo
            && scenes[0].disk.history_state().cursor >= scenes[0].disk.history_state().tip),
        0 <= i < scenes.len(),
    ensures
        scenes[i].disk == scenes[0].disk,
        scenes[i].op.goal == goal,
        match scenes[i].op.stage {
            journal::StageView::ReadPending => true,
            journal::StageView::LoadState { primary } => primary matches Some(e)
                ==> scenes[0].disk.state is None && (e.kind == IoErrorKind::NotFound
                <==> !scenes[0].disk.state_damaged),
            journal::StageView::Done(_) => fails_with(scenes[i].op, nothing_left(goal)),
            _ => false,
        },
    decreases i,
{
    if i > 0 {
        undisturbed_operations_say_that_nothing_is_left(store, goal, scenes, i - 1);
        reveal(journal::OperationView::on_read_pending);
        reveal(journal::OperationView::on_load_state);
        reveal(journal::OperationView::loaded);
        assert(progress::leads_smoothly(store, scenes[i - 1], scenes[i - 1 + 1]));
        let reply = choose|reply: journal::ReplyView| #[trigger]
            scenes[i - 1].steps(store, reply, scenes[i]) && progress::fine(reply);
        assert(scenes[i - 1].steps(store, reply, scenes[i]));
    }
}

/// A redo right after a commit ends with the error that nothing is left to redo, and changes
/// nothing, where the file system does not fail.
pub proof fn undisturbed_redos_after_commits_find_nothing(
    store: history::StoreView,
    mutations: Seq<journal::MutationView>,
    commit: Seq<Scene>,
    redo: Seq<Scene>,
    c: history::ChangeSetView,
    i: int,
)
    requires
        guarantees::accomplishes(store, journal::GoalView::Record(mutations), commit, c),
        progress::is_smooth_run(store, redo),
        redo[0].op == guarantees::beginning(journal::GoalView::Redo),
        redo[0].disk == commit.last().disk,
        0 <= i < redo.len(),
    ensures
        redo[i].disk == redo[0].disk,
        redo[i].op.stage is Done ==> fails_with(
            redo[i].op,
            history::HistoryErrorView::NothingToRedo,
        ),
{
    guarantees::commits_apply_and_record(store, mutations, commit, c);
    undisturbed_operations_say_that_nothing_is_left(store, journal::GoalView::Redo, redo, i);
}

} // verus!
