//! That the state of the journal is in order at every moment, that it is read as it is recorded,
//! and that outdated transactions go.

use vstd::prelude::*;

use crate::course;
use crate::disk;
use crate::guarantees;
use crate::guarantees::Scene;
use crate::history;
use crate::history::{HistoryState, PendingKind};
use crate::io::IoErrorKind;
use crate::journal;
use crate::progress;

verus! {

// ---------------------------------------------------------------------------------------------
// The state is in order

/// That the state on the disk is in order, and so is the one that a pending operation leads to.
pub open spec fn orderly(d: disk::Disk) -> bool {
    &&& guarantees::in_order(d.history_state())
    &&& d.pending matches Some(p) ==> guarantees::in_order(p.target)
}

/// That an operation leads to a state in order.
pub open spec fn aims_well(op: journal::OperationView) -> bool {
    &&& course::held(op) matches Some(p) ==> guarantees::in_order(p.target)
    &&& op.stage matches journal::StageView::LoadTurn { target, .. } ==> guarantees::in_order(
        target,
    )
}

/// That an operation turns to the backup of the state only where the state is not there.
pub open spec fn reads_well(d: disk::Disk, op: journal::OperationView) -> bool {
    op.stage matches journal::StageView::LoadState { primary } ==> primary is Some ==> d.state
        is None
}

proof fn lemma_orderly_step(
    store: history::StoreView,
    before: Scene,
    reply: journal::ReplyView,
    after: Scene,
)
    requires
        before.steps(store, reply, after),
        orderly(before.disk),
        aims_well(before.op),
        reads_well(before.disk, before.op),
    ensures
        orderly(after.disk),
        aims_well(after.op),
        reads_well(after.disk, after.op),
{
    course::lemma_follows(store, before.op, reply);
}

/// An operation at its beginning, whatever it is for.
pub open spec fn fresh(op: journal::OperationView) -> bool {
    ||| op.stage is MakeDirectories
    ||| op.stage is ReadPending
    ||| op.stage == journal::StageView::LoadState { primary: None }
}

/// The state is in order at every moment of every operation, whether it succeeds, fails or is
/// interrupted.
pub proof fn states_are_always_in_order(
    store: history::StoreView,
    scenes: Seq<Scene>,
    i: int,
)
    requires
        guarantees::is_run(store, scenes),
        fresh(scenes[0].op),
        orderly(scenes[0].disk),
        0 <= i < scenes.len(),
    ensures
        orderly(scenes[i].disk),
{
    lemma_orderly_run(store, scenes, i);
}

proof fn lemma_orderly_run(store: history::StoreView, scenes: Seq<Scene>, i: int)
    requires
        guarantees::is_run(store, scenes),
        fresh(scenes[0].op),
        orderly(scenes[0].disk),
        0 <= i < scenes.len(),
    ensures
        orderly(scenes[i].disk),
        aims_well(scenes[i].op),
        reads_well(scenes[i].disk, scenes[i].op),
    decreases i,
{
    if i > 0 {
        lemma_orderly_run(store, scenes, i - 1);
        assert(scenes[i - 1].leads_to(store, scenes[i - 1 + 1]));
        let reply = choose|reply: journal::ReplyView| #[trigger]
            scenes[i - 1].steps(store, reply, scenes[i]);
        lemma_orderly_step(store, scenes[i - 1], reply, scenes[i]);
    }
}

/// The life of a journal: operation after operation, each from its beginning as far as it came,
/// on the disk that the one before it left.
pub open spec fn is_life(store: history::StoreView, runs: Seq<Seq<Scene>>) -> bool {
    &&& forall|k: int|
        0 <= k < runs.len() ==> guarantees::is_run(store, #[trigger] runs[k]) && fresh(
            runs[k][0].op,
        )
    &&& forall|k: int|
        0 <= k < runs.len() - 1 ==> (#[trigger] runs[k + 1])[0].disk == runs[k].last().disk
}

/// That nothing is recorded on the disk.
pub open spec fn is_new(d: disk::Disk) -> bool {
    d.state is None && !d.state_damaged && d.state_backup is None && d.pending is None
}

/// A new journal has neither applied nor recorded anything; from then on the number of the
/// transactions that are applied is at most that of those recorded, at every moment of its life,
/// whatever fails or is interrupted.
pub proof fn journals_are_in_order_all_their_life(
    store: history::StoreView,
    runs: Seq<Seq<Scene>>,
    k: int,
    i: int,
)
    requires
        is_life(store, runs),
        runs.len() > 0,
        is_new(runs[0][0].disk),
        0 <= k < runs.len(),
        0 <= i < runs[k].len(),
    ensures
        runs[0][0].disk.history_state() == (HistoryState { cursor: 0, tip: 0 }),
        guarantees::in_order(runs[k][i].disk.history_state()),
        orderly(runs[k][i].disk),
    decreases k,
{
    if k > 0 {
        assert(guarantees::is_run(store, runs[k - 1]));
        journals_are_in_order_all_their_life(store, runs, k - 1, runs[k - 1].len() - 1);
        assert(runs[k - 1 + 1][0].disk == runs[k - 1].last().disk);
    }
    assert(guarantees::is_run(store, runs[k]));
    lemma_orderly_run(store, runs[k], i);
}

// ---------------------------------------------------------------------------------------------
// The state is read

/// The reading of the state at its beginning.
pub open spec fn asking() -> journal::OperationView {
    journal::OperationView {
        goal: journal::GoalView::State,
        recovering: false,
        stage: journal::StageView::LoadState { primary: None },
    }
}

/// The reading of the state changes nothing, and gives the state as it is recorded: from its
/// backup where the state is missing or damaged, and where neither is there, that of a new journal.
/// Where the state is damaged and its backup cannot be read, it ends with an error.
pub proof fn the_state_is_read_as_recorded(store: history::StoreView, scenes: Seq<Scene>, i: int)
    requires
        guarantees::is_run(store, scenes),
        scenes[0].op == asking(),
        0 <= i < scenes.len(),
    ensures
        scenes[i].disk == scenes[0].disk,
        scenes[i].op.stage matches journal::StageView::Done(r) ==> if scenes[0].disk.legible() {
            r == Ok::<journal::OutcomeView, history::HistoryErrorView>(
                journal::OutcomeView::State(scenes[0].disk.history_state()),
            )
        } else {
            r matches Err(e) && e is Io
        },
        scenes[i].op.goal is State,
        scenes[i].op.stage is Done || (scenes[i].op.stage matches journal::StageView::LoadState {
            primary,
        } && (primary matches Some(e) ==> scenes[0].disk.state is None && (e.kind
            == IoErrorKind::NotFound <==> !scenes[0].disk.state_damaged))),
    decreases i,
{
    if i > 0 {
        the_state_is_read_as_recorded(store, scenes, i - 1);
        reveal(journal::OperationView::on_load_state);
        reveal(journal::OperationView::loaded);
        assert(scenes[i - 1].leads_to(store, scenes[i - 1 + 1]));
        let reply = choose|reply: journal::ReplyView| #[trigger]
            scenes[i - 1].steps(store, reply, scenes[i]);
        assert(scenes[i - 1].steps(store, reply, scenes[i]));
    }
}

/// A state that is damaged is read from its backup.
pub proof fn damaged_states_are_read_from_their_backups(
    store: history::StoreView,
    scenes: Seq<Scene>,
    s: HistoryState,
    i: int,
)
    requires
        guarantees::is_run(store, scenes),
        scenes[0].op == asking(),
        scenes[0].disk.state is None,
        scenes[0].disk.state_damaged,
        scenes[0].disk.state_backup == Some(s),
        0 <= i < scenes.len(),
    ensures
        scenes[i].disk == scenes[0].disk,
        scenes[i].op.stage matches journal::StageView::Done(r) ==> r == Ok::<
            journal::OutcomeView,
            history::HistoryErrorView,
        >(journal::OutcomeView::State(s)),
{
    the_state_is_read_as_recorded(store, scenes, i);
}

/// A transaction whose record is damaged is read from its backup: an undo or redo that succeeds
/// has taken it back or applied it again as the backup says.
pub proof fn damaged_transactions_are_read_from_their_backups(
    store: history::StoreView,
    goal: journal::GoalView,
    scenes: Seq<Scene>,
    c: history::ChangeSetView,
    id: u64,
)
    requires
        guarantees::accomplishes(store, goal, scenes, c),
        goal is Undo && id == scenes[0].disk.history_state().cursor || (goal is Redo && id
            == scenes[0].disk.history_state().cursor + 1),
        scenes[0].disk.damaged_turns.contains(history::turn_name(id)),
        !scenes[0].disk.turns.contains_key(history::turn_name(id)),
    ensures
        scenes[0].disk.turn_backups.contains_key(history::turn_name(id)),
        c == scenes[0].disk.turn_backups[history::turn_name(id)],
{
    if goal is Undo {
        guarantees::undo_takes_the_last_transaction_back(store, scenes, c);
    } else {
        guarantees::redo_applies_the_next_transaction(store, scenes, c);
    }
}

/// Where the state is damaged and its backup cannot be read, no operation goes past the reading of
/// the state: it ends with an error of the file system and changes nothing.
pub proof fn illegible_states_stop_every_operation(
    store: history::StoreView,
    goal: journal::GoalView,
    scenes: Seq<Scene>,
    i: int,
)
    requires
        guarantees::is_run(store, scenes),
        scenes[0].op == guarantees::beginning(goal),
        scenes[0].disk.pending is None,
        !scenes[0].disk.legible(),
        0 <= i < scenes.len(),
    ensures
        scenes[i].disk == scenes[0].disk,
        match scenes[i].op.stage {
            journal::StageView::ReadPending => true,
            journal::StageView::LoadState { primary } => primary matches Some(e) ==> e.kind
                != IoErrorKind::NotFound,
            journal::StageView::Done(r) => r matches Err(e) && e is Io,
            _ => false,
        },
    decreases i,
{
    if i > 0 {
        illegible_states_stop_every_operation(store, goal, scenes, i - 1);
        reveal(journal::OperationView::on_read_pending);
        reveal(journal::OperationView::on_load_state);
        assert(scenes[i - 1].leads_to(store, scenes[i - 1 + 1]));
        let reply = choose|reply: journal::ReplyView| #[trigger]
            scenes[i - 1].steps(store, reply, scenes[i]);
        assert(scenes[i - 1].steps(store, reply, scenes[i]));
    }
}

// ---------------------------------------------------------------------------------------------
// Outdated transactions go

/// That a file of that name records a transaction after the last one.
pub open spec fn outdated(name: Seq<char>, tip: u64) -> bool {
    history::turn_id(name) matches Some(id) && id > tip
}

/// That no transaction after the last one is recorded.
pub open spec fn clean(d: disk::Disk) -> bool {
    forall|name: Seq<char>|
        #[trigger] d.on_record(name) ==> !outdated(name, d.history_state().tip)
}

/// That what is outdated is among the entries from `i` on.
pub open spec fn listed(
    d: disk::Disk,
    tip: u64,
    entries: Seq<journal::EntryResultView>,
    i: int,
) -> bool {
    &&& tip == d.history_state().tip
    &&& disk::all_read(entries)
    &&& forall|name: Seq<char>| #[trigger]
        d.on_record(name) && outdated(name, tip) ==> listed_from(entries, i, name)
}

pub open spec fn listed_from(
    entries: Seq<journal::EntryResultView>,
    i: int,
    name: Seq<char>,
) -> bool {
    exists|k: int|
        i <= k < entries.len() && (#[trigger] entries[k]) is Ok && entries[k]->Ok_0.name == name
            && entries[k]->Ok_0.is_file
}

/// What holds on the way to the removal of outdated transactions.
pub open spec fn clearing(d: disk::Disk, op: journal::OperationView) -> bool {
    match op.stage {
        journal::StageView::ClearPending { pending, .. } => d.state == Some(pending.target),
        journal::StageView::DropReplaced { pending, .. } => d.state == Some(pending.target),
        journal::StageView::ListTurns { tip, .. } => tip == d.history_state().tip,
        journal::StageView::PruneRead { tip, entries, index, .. } => 0 <= index < entries.len()
            && listed(d, tip, entries, index),
        journal::StageView::PruneBlobs { tip, entries, index, .. } => 0 <= index < entries.len()
            && listed(d, tip, entries, index),
        journal::StageView::PruneRemove { tip, entries, index, .. } => 0 <= index < entries.len()
            && listed(d, tip, entries, index),
        journal::StageView::Done(Ok(outcome)) => outcome is Opened || op.goal is Record ==> clean(
            d,
        ),
        _ => true,
    }
}

proof fn lemma_clearing_from(
    d: disk::Disk,
    op: journal::OperationView,
    tip: u64,
    entries: Seq<journal::EntryResultView>,
    i: int,
    after: journal::AfterView,
)
    requires
        listed(d, tip, entries, i),
        0 <= i <= entries.len(),
    ensures
        clearing(d, op.prune_from(tip, entries, i, after)),
    decreases entries.len() - i,
{
    reveal(journal::OperationView::pruned);
    reveal(journal::OperationView::finished);
    if i < entries.len() {
        assert(entries[i] is Ok);
        if !journal::is_outdated(entries[i]->Ok_0, tip) {
            assert forall|name: Seq<char>| #[trigger]
                d.on_record(name) && outdated(name, tip) implies listed_from(
                entries,
                i + 1,
                name,
            ) by {
                assert(listed_from(entries, i, name));
            }
            lemma_clearing_from(d, op, tip, entries, i + 1, after);
        }
    }
}

#[verifier::rlimit(50)]
proof fn lemma_clearing(
    store: history::StoreView,
    before: Scene,
    reply: journal::ReplyView,
    after: Scene,
)
    requires
        before.steps(store, reply, after),
        progress::fine(reply),
        clearing(before.disk, before.op),
        reads_well(before.disk, before.op),
        !before.op.recovering && before.op.goal is Record ==> (
        before.op.stage matches journal::StageView::ClearPending { pending, .. } ==> pending.kind
            == PendingKind::Commit),
    ensures
        clearing(after.disk, after.op),
{
    let op = before.op;
    let d = before.disk;
    let v = after.disk;
    course::lemma_follows(store, op, reply);
    match op.stage {
        journal::StageView::LoadState { .. } => {
            reveal(journal::OperationView::on_load_state);
            reveal(journal::OperationView::loaded);
            reveal(journal::OperationView::validate_from);
            reveal(journal::OperationView::capture_from);
            reveal(journal::OperationView::check_from);
        },
        journal::StageView::ClearPending { .. } => {
            reveal(journal::OperationView::on_clear_pending);
            reveal(journal::OperationView::cleared);
            reveal(journal::OperationView::finished);
        },
        journal::StageView::ListTurns { tip, after: then } => {
            reveal(journal::OperationView::on_list_turns);
            let entries = reply->Turns_0->Ok_0;
            assert forall|name: Seq<char>| #[trigger]
                d.on_record(name) && outdated(name, tip) implies listed_from(
                entries,
                0,
                name,
            ) by {
                assert(disk::has_file(entries, name));
            }
            lemma_clearing_from(d, op, tip, entries, 0, then);
        },
        journal::StageView::PruneRead { tip, entries, index, after: then } => {
            reveal(journal::OperationView::on_prune_read);
        },
        journal::StageView::PruneBlobs { tip, entries, index, after: then, outdated: _ } => {
            assert(v.turns == d.turns && v.history_state() == d.history_state());
            assert forall|name: Seq<char>| #[trigger]
                v.on_record(name) && outdated(name, tip) implies listed_from(
                entries,
                index,
                name,
            ) by {
                assert(d.on_record(name));
            }
        },
        journal::StageView::PruneRemove { tip, entries, index, after: then } => {
            reveal(journal::OperationView::on_prune_remove);
            assert forall|name: Seq<char>| #[trigger]
                v.on_record(name) && outdated(name, tip) implies listed_from(
                entries,
                index + 1,
                name,
            ) by {
                assert(d.on_record(name));
                assert(listed_from(entries, index, name));
            }
            lemma_clearing_from(v, op, tip, entries, index + 1, then);
        },
        _ => {},
    }
}

/// That a commit is about to be completed where one was asked for.
pub open spec fn completes_a_commit(op: journal::OperationView) -> bool {
    !op.recovering && op.goal is Record ==> (op.stage matches journal::StageView::ClearPending {
        pending,
        ..
    } ==> pending.kind == PendingKind::Commit)
}

proof fn lemma_clearing_run(store: history::StoreView, scenes: Seq<Scene>, i: int)
    requires
        progress::is_smooth_run(store, scenes),
        fresh(scenes[0].op),
        forall|k: int| 0 <= k < i ==> completes_a_commit((#[trigger] scenes[k]).op),
        0 <= i < scenes.len(),
    ensures
        clearing(scenes[i].disk, scenes[i].op),
        reads_well(scenes[i].disk, scenes[i].op),
    decreases i,
{
    if i > 0 {
        lemma_clearing_run(store, scenes, i - 1);
        assert(completes_a_commit(scenes[i - 1].op));
        assert(progress::leads_smoothly(store, scenes[i - 1], scenes[i - 1 + 1]));
        let reply = choose|reply: journal::ReplyView| #[trigger]
            scenes[i - 1].steps(store, reply, scenes[i]) && progress::fine(reply);
        lemma_clearing(store, scenes[i - 1], reply, scenes[i]);
        course::lemma_follows(store, scenes[i - 1].op, reply);
    }
}

/// Where the file system does not fail, a commit leaves no transaction after its own: what was
/// undone before it is gone.
pub proof fn undisturbed_commits_remove_what_was_undone(
    store: history::StoreView,
    mutations: Seq<journal::MutationView>,
    scenes: Seq<Scene>,
    c: history::ChangeSetView,
)
    requires
        progress::is_smooth_run(store, scenes),
        guarantees::accomplishes(store, journal::GoalView::Record(mutations), scenes, c),
    ensures
        clean(scenes.last().disk),
        scenes.last().disk.history_state().tip == c.id,
{
    let goal = journal::GoalView::Record(mutations);
    let last = scenes.len() - 1;
    assert forall|k: int| 0 <= k < last implies completes_a_commit((#[trigger] scenes[k]).op) by {
        guarantees::lemma_run(store, scenes[0].disk, goal, scenes, k);
    }
    guarantees::lemma_run(store, scenes[0].disk, goal, scenes, last);
    lemma_clearing_run(store, scenes, last);
    guarantees::commits_apply_and_record(store, mutations, scenes, c);
}

/// Where the file system does not fail, the opening of a journal leaves no transaction after the
/// last one that the state speaks of.
pub proof fn undisturbed_openings_remove_what_is_outdated(
    store: history::StoreView,
    scenes: Seq<Scene>,
    i: int,
)
    requires
        progress::is_smooth_run(store, scenes),
        scenes[0].op == opening(),
        0 <= i < scenes.len(),
    ensures
        scenes[i].op.stage == journal::StageView::Done(Ok(journal::OutcomeView::Opened)) ==> clean(
            scenes[i].disk,
        ),
{
    progress::lemma_smooth(store, scenes);
    assert forall|k: int| 0 <= k < i implies completes_a_commit((#[trigger] scenes[k]).op) by {
        lemma_goal_kept(store, scenes, k);
    }
    lemma_clearing_run(store, scenes, i);
}

pub proof fn lemma_goal_kept(store: history::StoreView, scenes: Seq<Scene>, i: int)
    requires
        guarantees::is_run(store, scenes),
        0 <= i < scenes.len(),
    ensures
        scenes[i].op.goal == scenes[0].op.goal,
    decreases i,
{
    if i > 0 {
        lemma_goal_kept(store, scenes, i - 1);
        assert(scenes[i - 1].leads_to(store, scenes[i - 1 + 1]));
        let reply = choose|reply: journal::ReplyView| #[trigger]
            scenes[i - 1].steps(store, reply, scenes[i]);
        course::lemma_follows(store, scenes[i - 1].op, reply);
    }
}

/// The opening of a journal at its beginning.
pub open spec fn opening() -> journal::OperationView {
    journal::OperationView {
        goal: journal::GoalView::Open,
        recovering: true,
        stage: journal::StageView::MakeDirectories,
    }
}

} // verus!
