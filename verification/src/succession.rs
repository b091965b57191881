//! That an undo right after a commit, and a redo right after an undo, succeed where nothing
//! disturbs them.

use vstd::prelude::*;

use crate::disk;
use crate::guarantees;
use crate::guarantees::Scene;
use crate::history;
use crate::history::{HistoryState, PendingKind, SnapshotSide};
use crate::journal;
use crate::paths;
use crate::progress;

verus! {

/// What has to be done to take a transaction back that has just been committed.
pub open spec fn undo_of(c: history::ChangeSetView) -> history::PendingView {
    journal::replay(
        PendingKind::Undo,
        c,
        HistoryState { cursor: (c.id - 1) as u64, tip: c.id },
    )
}

/// The way to a file stays clear where no symbolic link is new.
proof fn lemma_way_stays_clear(before: disk::Disk, after: disk::Disk, plain: Seq<char>)
    requires
        progress::way_clear(before, plain),
        progress::no_new_links(before, after),
    ensures
        progress::way_clear(after, plain),
{
    assert forall|k: int| 0 <= k < paths::ancestry(plain).len() implies {
        let q = #[trigger] paths::ancestry(plain)[k];
        !(after.work.contains_key(q) && after.work[q] is Symlink)
    } by {
        let q = paths::ancestry(plain)[k];
        assert(!(before.work.contains_key(q) && before.work[q] is Symlink));
    }
}

/// After a commit that nothing disturbed, nothing stands in the way of an undo whose files can be
/// changed one after the other.
pub proof fn commits_leave_the_way_to_an_undo_clear(
    store: history::StoreView,
    mutations: Seq<journal::MutationView>,
    commit: Seq<Scene>,
    c: history::ChangeSetView,
)
    requires
        progress::is_smooth_run(store, commit),
        guarantees::accomplishes(store, journal::GoalView::Record(mutations), commit, c),
        progress::calm(commit[0].disk, journal::GoalView::Record(mutations)),
        progress::compatible(commit.last().disk, undo_of(c)),
    ensures
        guarantees::quiet(commit.last().disk, journal::GoalView::Undo),
        progress::calm(commit.last().disk, journal::GoalView::Undo),
{
    let goal = journal::GoalView::Record(mutations);
    let first = commit[0].disk;
    let middle = commit.last().disk;
    let u = undo_of(c);
    guarantees::commits_apply_and_record(store, mutations, commit, c);
    guarantees::lemma_run(store, first, goal, commit, commit.len() - 1);
    progress::lemma_no_new_links(store, goal, commit, commit.len() - 1);
    let p = choose|p: history::PendingView|
        journal::OutcomeView::Applied(c) == journal::OutcomeView::Applied(p.change_set)
            && #[trigger] guarantees::settled(first, middle, goal, p);
    assert forall|j: int| 0 <= j < c.files.len() implies {
        &&& paths::normalized((#[trigger] c.files[j]).path) is Some
        &&& progress::way_clear(middle, progress::place(u, j))
        &&& middle.on_side(u, j, SnapshotSide::Expected)
        &&& progress::measured(middle, u, j)
    } by {
        assert(guarantees::captured_file(first, middle, mutations[j], c.files[j]));
        paths::plain_paths_are_plain(mutations[j].path);
        assert(progress::way_clear(first, journal::plain_path(mutations[j].path)));
        lemma_way_stays_clear(first, middle, progress::place(u, j));
        assert(middle.on_side(p, j, SnapshotSide::Desired));
        assert(guarantees::back_then(first, middle).on_side(p, j, SnapshotSide::Expected));
    }
    assert forall|j: int| 0 <= j < u.change_set.files.len() implies progress::way_clear(
        middle,
        #[trigger] progress::place(u, j),
    ) by {
        assert(paths::normalized(c.files[j].path) is Some);
    }
    assert forall|j: int| 0 <= j < u.change_set.files.len() implies #[trigger] middle.on_side(
        u,
        j,
        SnapshotSide::Expected,
    ) by {
        assert(paths::normalized(c.files[j].path) is Some);
    }
    assert forall|j: int|
        0 <= j < u.change_set.files.len() implies #[trigger] progress::measured(
        middle,
        u,
        j,
    ) by {
        assert(paths::normalized(c.files[j].path) is Some);
    }
    assert(progress::ready(middle, u));
    assert forall|x: history::PendingView| #[trigger]
        guarantees::plan(middle, middle, journal::GoalView::Undo, x) implies progress::ready(
        middle,
        x,
    ) by {
        assert(x == u);
    }
}

/// The undo right after a commit succeeds and gives the transaction that was committed, where
/// nothing disturbs either and the files can be changed one after the other.
pub proof fn undos_right_after_commits_succeed(
    store: history::StoreView,
    mutations: Seq<journal::MutationView>,
    commit: Seq<Scene>,
    undo: Seq<Scene>,
    c: history::ChangeSetView,
    i: int,
)
    requires
        progress::is_smooth_run(store, commit),
        guarantees::accomplishes(store, journal::GoalView::Record(mutations), commit, c),
        progress::calm(commit[0].disk, journal::GoalView::Record(mutations)),
        progress::compatible(commit.last().disk, undo_of(c)),
        progress::is_smooth_run(store, undo),
        undo[0].op == guarantees::beginning(journal::GoalView::Undo),
        undo[0].disk == commit.last().disk,
        0 <= i < undo.len(),
    ensures
        undo[i].op.stage matches journal::StageView::Done(r) ==> r == Ok::<
            journal::OutcomeView,
            history::HistoryErrorView,
        >(journal::OutcomeView::Applied(c)),
{
    let goal = journal::GoalView::Undo;
    commits_leave_the_way_to_an_undo_clear(store, mutations, commit, c);
    guarantees::commits_apply_and_record(store, mutations, commit, c);
    progress::undisturbed_operations_do_not_fail(store, goal, undo, i);
    progress::lemma_smooth(store, undo);
    guarantees::lemma_run(store, undo[0].disk, goal, undo, i);
}

/// The undo right after a commit, once it has ended, has succeeded, has brought every file that
/// the commit changed back to its exact contents before, has left the other files as they were
/// before the commit, and counts all transactions but the one committed as applied; where nothing
/// disturbs either and the files can be changed one after the other.
pub proof fn undos_right_after_commits_restore_everything(
    store: history::StoreView,
    mutations: Seq<journal::MutationView>,
    commit: Seq<Scene>,
    undo: Seq<Scene>,
    c: history::ChangeSetView,
    q: Seq<char>,
)
    requires
        progress::is_smooth_run(store, commit),
        guarantees::accomplishes(store, journal::GoalView::Record(mutations), commit, c),
        progress::calm(commit[0].disk, journal::GoalView::Record(mutations)),
        progress::compatible(commit.last().disk, undo_of(c)),
        progress::is_smooth_run(store, undo),
        undo[0].op == guarantees::beginning(journal::GoalView::Undo),
        undo[0].disk == commit.last().disk,
        undo.last().op.stage is Done,
        (exists|j: int| 0 <= j < c.files.len() && (#[trigger] c.files[j]).path == q)
            || !guarantees::touched(
            commit[0].disk,
            journal::commit_of(commit[0].disk.history_state(), c.files),
            q,
        ),
    ensures
        undo.last().op.stage == journal::StageView::Done(Ok(journal::OutcomeView::Applied(c))),
        disk::same_at(commit[0].disk.work, undo.last().disk.work, q),
        undo.last().disk.history_state() == (HistoryState {
            cursor: (c.id - 1) as u64,
            tip: c.id,
        }),
{
    commits_leave_the_way_to_an_undo_clear(store, mutations, commit, c);
    undos_right_after_commits_succeed(store, mutations, commit, undo, c, undo.len() - 1);
    progress::lemma_smooth(store, undo);
    guarantees::commits_apply_and_record(store, mutations, commit, c);
    guarantees::undo_takes_the_last_transaction_back(store, undo, c);
    guarantees::undo_restores_what_a_commit_changed(store, mutations, commit, undo, c, c, q);
}

/// After an undo that nothing disturbed, nothing stands in the way of a redo whose files can be
/// changed one after the other.
pub proof fn undos_leave_the_way_to_a_redo_clear(
    store: history::StoreView,
    undo: Seq<Scene>,
    c: history::ChangeSetView,
)
    requires
        progress::is_smooth_run(store, undo),
        guarantees::accomplishes(store, journal::GoalView::Undo, undo, c),
        progress::calm(undo[0].disk, journal::GoalView::Undo),
        guarantees::in_order(undo[0].disk.history_state()),
        progress::compatible(
            undo.last().disk,
            journal::replay(PendingKind::Redo, c, undo[0].disk.history_state()),
        ),
    ensures
        guarantees::quiet(undo.last().disk, journal::GoalView::Redo),
        progress::calm(undo.last().disk, journal::GoalView::Redo),
{
    let goal = journal::GoalView::Undo;
    let first = undo[0].disk;
    let middle = undo.last().disk;
    let u = journal::replay(PendingKind::Redo, c, first.history_state());
    guarantees::undo_takes_the_last_transaction_back(store, undo, c);
    guarantees::lemma_run(store, first, goal, undo, undo.len() - 1);
    progress::lemma_no_new_links(store, goal, undo, undo.len() - 1);
    let p = choose|p: history::PendingView|
        journal::OutcomeView::Applied(c) == journal::OutcomeView::Applied(p.change_set)
            && #[trigger] guarantees::settled(first, middle, goal, p);
    assert(guarantees::plan(first, first, goal, p));
    assert(progress::ready(first, p));
    assert forall|j: int| 0 <= j < c.files.len() implies {
        &&& paths::normalized((#[trigger] c.files[j]).path) is Some
        &&& progress::way_clear(middle, progress::place(u, j))
        &&& middle.on_side(u, j, SnapshotSide::Expected)
        &&& progress::measured(middle, u, j)
    } by {
        assert(paths::normalized(p.change_set.files[j].path) is Some);
        assert(progress::way_clear(first, progress::place(p, j)));
        lemma_way_stays_clear(first, middle, progress::place(u, j));
        assert(middle.on_side(p, j, SnapshotSide::Desired));
        assert(first.on_side(p, j, SnapshotSide::Expected));
    }
    assert forall|j: int| 0 <= j < u.change_set.files.len() implies progress::way_clear(
        middle,
        #[trigger] progress::place(u, j),
    ) by {
        assert(paths::normalized(c.files[j].path) is Some);
    }
    assert forall|j: int| 0 <= j < u.change_set.files.len() implies #[trigger] middle.on_side(
        u,
        j,
        SnapshotSide::Expected,
    ) by {
        assert(paths::normalized(c.files[j].path) is Some);
    }
    assert forall|j: int|
        0 <= j < u.change_set.files.len() implies #[trigger] progress::measured(
        middle,
        u,
        j,
    ) by {
        assert(paths::normalized(c.files[j].path) is Some);
    }
    assert(progress::ready(middle, u));
    assert forall|x: history::PendingView| #[trigger]
        guarantees::plan(middle, middle, journal::GoalView::Redo, x) implies progress::ready(
        middle,
        x,
    ) by {
        assert(x == u);
    }
}

/// The redo right after an undo succeeds and gives the transaction that was taken back, where
/// nothing disturbs either and the files can be changed one after the other.
pub proof fn redos_right_after_undos_succeed(
    store: history::StoreView,
    undo: Seq<Scene>,
    redo: Seq<Scene>,
    c: history::ChangeSetView,
    i: int,
)
    requires
        progress::is_smooth_run(store, undo),
        guarantees::accomplishes(store, journal::GoalView::Undo, undo, c),
        progress::calm(undo[0].disk, journal::GoalView::Undo),
        guarantees::in_order(undo[0].disk.history_state()),
        progress::compatible(
            undo.last().disk,
            journal::replay(PendingKind::Redo, c, undo[0].disk.history_state()),
        ),
        progress::is_smooth_run(store, redo),
        redo[0].op == guarantees::beginning(journal::GoalView::Redo),
        redo[0].disk == undo.last().disk,
        0 <= i < redo.len(),
    ensures
        redo[i].op.stage matches journal::StageView::Done(r) ==> r == Ok::<
            journal::OutcomeView,
            history::HistoryErrorView,
        >(journal::OutcomeView::Applied(c)),
{
    let goal = journal::GoalView::Redo;
    undos_leave_the_way_to_a_redo_clear(store, undo, c);
    guarantees::undo_takes_the_last_transaction_back(store, undo, c);
    progress::undisturbed_operations_do_not_fail(store, goal, redo, i);
    progress::lemma_smooth(store, redo);
    guarantees::lemma_run(store, redo[0].disk, goal, redo, i);
}

/// The redo right after an undo, once it has ended, has succeeded and has brought every file that
/// the transaction changed, and the state, back to what they were before the undo, while the other
/// files are as they were; where nothing disturbs either and the files can be changed one after
/// the other.
pub proof fn redos_right_after_undos_restore_everything(
    store: history::StoreView,
    undo: Seq<Scene>,
    redo: Seq<Scene>,
    c: history::ChangeSetView,
    q: Seq<char>,
)
    requires
        progress::is_smooth_run(store, undo),
        guarantees::accomplishes(store, journal::GoalView::Undo, undo, c),
        progress::calm(undo[0].disk, journal::GoalView::Undo),
        guarantees::in_order(undo[0].disk.history_state()),
        progress::compatible(
            undo.last().disk,
            journal::replay(PendingKind::Redo, c, undo[0].disk.history_state()),
        ),
        progress::is_smooth_run(store, redo),
        redo[0].op == guarantees::beginning(journal::GoalView::Redo),
        redo[0].disk == undo.last().disk,
        redo.last().op.stage is Done,
        (exists|j: int|
            0 <= j < c.files.len() && journal::plain_path((#[trigger] c.files[j]).path) == q)
            || !guarantees::touched(
            undo[0].disk,
            journal::replay(PendingKind::Undo, c, undo.last().disk.history_state()),
            q,
        ),
    ensures
        redo.last().op.stage == journal::StageView::Done(Ok(journal::OutcomeView::Applied(c))),
        disk::same_at(undo[0].disk.work, redo.last().disk.work, q),
        redo.last().disk.history_state() == undo[0].disk.history_state(),
{
    undos_leave_the_way_to_a_redo_clear(store, undo, c);
    redos_right_after_undos_succeed(store, undo, redo, c, redo.len() - 1);
    progress::lemma_smooth(store, redo);
    guarantees::redo_restores_what_an_undo_took_back(store, undo, redo, c, c, q);
}

} // verus!
