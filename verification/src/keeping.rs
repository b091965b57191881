//! What the journal keeps: every transaction that counts as recorded, with all its blobs.

use vstd::prelude::*;

use crate::course;
use crate::disk;
use crate::guarantees;
use crate::guarantees::Scene;
use crate::history;
use crate::history::SnapshotSide;
use crate::journal;
use crate::progress;

verus! {

/// That the blob of a snapshot is there.
pub open spec fn has_blob(d: disk::Disk, s: history::SnapshotView) -> bool {
    s matches history::SnapshotView::Blob { id, len } ==> d.blobs.contains_key(id)
        && d.blobs[id].len() == len
}

/// That the blobs of all changes are there.
pub open spec fn whole(d: disk::Disk, files: Seq<history::FileChangeView>) -> bool {
    forall|j: int|
        0 <= j < files.len() ==> has_blob(d, (#[trigger] files[j]).before) && has_blob(
            d,
            files[j].after,
        )
}

/// That no two transactions share a blob.
pub open spec fn unshared(d: disk::Disk) -> bool {
    forall|a: Seq<char>, b: Seq<char>, id: Seq<char>|
        a != b && d.turns.contains_key(a) && d.turns.contains_key(b)
            && #[trigger] disk::files_refer(d.turns[a].files, id)
            ==> !#[trigger] disk::files_refer(d.turns[b].files, id)
}

/// That transaction `n` is recorded with all its blobs.
pub open spec fn kept(d: disk::Disk, n: u64) -> bool {
    &&& d.turns.contains_key(history::turn_name(n))
    &&& whole(d, d.turns[history::turn_name(n)].files)
}

/// That a journal at rest is intact: its state can be read and is in order, and every transaction
/// up to the last is recorded with all its blobs, which it shares with no other.
pub open spec fn intact(d: disk::Disk) -> bool {
    let state = d.history_state();
    &&& d.pending is None
    &&& d.legible()
    &&& guarantees::in_order(state)
    &&& unshared(d)
    &&& forall|n: u64| 1 <= n <= state.tip ==> #[trigger] kept(d, n)
}

/// That a blob which an earlier transaction needs is as at the start.
pub open spec fn blobs_last(
    start: disk::Disk,
    now: disk::Disk,
    p: history::PendingView,
) -> bool {
    forall|name: Seq<char>, id: Seq<char>|
        guarantees::lasting(p, name) && start.turns.contains_key(name) && start.blobs.contains_key(
            id,
        ) && #[trigger] disk::files_refer(start.turns[name].files, id)
            ==> now.blobs.contains_key(id) && now.blobs[id] == start.blobs[id]
}

/// What holds of the blobs at each stage of a commit.
pub open spec fn preserving(
    start: disk::Disk,
    now: disk::Disk,
    op: journal::OperationView,
) -> bool {
    match op.stage {
        journal::StageView::DropReplaced { .. } => start.blobs.submap_of(now.blobs),
        journal::StageView::ListTurns { tip: _, after } => after
            matches journal::AfterView::Finish(p) && blobs_last(start, now, p),
        journal::StageView::PruneRead { tip: _, entries: _, index: _, after } => after
            matches journal::AfterView::Finish(p) && blobs_last(start, now, p),
        journal::StageView::PruneBlobs { tip: _, entries: _, index: _, after, outdated: _ } => after
            matches journal::AfterView::Finish(p) && blobs_last(start, now, p),
        journal::StageView::PruneRemove { tip: _, entries: _, index: _, after } => after
            matches journal::AfterView::Finish(p) && blobs_last(start, now, p),
        journal::StageView::Done(Ok(journal::OutcomeView::Applied(c))) => blobs_last(
            start,
            now,
            journal::commit_of(start.history_state(), c.files),
        ),
        _ => true,
    }
}

proof fn lemma_submap_lasts(start: disk::Disk, now: disk::Disk, p: history::PendingView)
    requires
        start.blobs.submap_of(now.blobs),
    ensures
        blobs_last(start, now, p),
{
    assert forall|name: Seq<char>, id: Seq<char>|
        guarantees::lasting(p, name) && start.turns.contains_key(name) && start.blobs.contains_key(
            id,
        ) && #[trigger] disk::files_refer(start.turns[name].files, id) implies
        now.blobs.contains_key(id) && now.blobs[id] == start.blobs[id] by {
        assert(now.blobs.contains_key(id));
    }
}

/// Discarding the blobs of a transaction that does not last takes none that one which lasts needs.
proof fn lemma_discard_lasts(
    start: disk::Disk,
    now: disk::Disk,
    after: disk::Disk,
    p: history::PendingView,
    name: Seq<char>,
    reply: journal::ReplyView,
)
    requires
        unshared(start),
        blobs_last(start, now, p),
        start.turns.contains_key(name),
        !guarantees::lasting(p, name),
        now.performs(
            journal::RequestView::Discard { blobs: history::files_blobs(start.turns[name].files) },
            reply,
            after,
        ),
    ensures
        blobs_last(start, after, p),
{
    let gone = history::files_blobs(start.turns[name].files);
    assert forall|x: Seq<char>, id: Seq<char>|
        guarantees::lasting(p, x) && start.turns.contains_key(x) && start.blobs.contains_key(id)
            && #[trigger] disk::files_refer(start.turns[x].files, id) implies
        after.blobs.contains_key(id) && after.blobs[id] == start.blobs[id] by {
        if gone.contains(id) {
            guarantees::lemma_blobs_refer(start.turns[name].files, id);
            assert(disk::files_refer(start.turns[name].files, id));
            assert(false);
        }
        assert(disk::same_at(now.blobs, after.blobs, id));
    }
}

proof fn lemma_prune_from(
    start: disk::Disk,
    now: disk::Disk,
    op: journal::OperationView,
    tip: u64,
    entries: Seq<journal::EntryResultView>,
    i: int,
    p: history::PendingView,
)
    requires
        !op.recovering,
        p == journal::commit_of(start.history_state(), p.change_set.files),
        blobs_last(start, now, p),
    ensures
        preserving(start, now, op.prune_from(tip, entries, i, journal::AfterView::Finish(p))),
    decreases entries.len() - i,
{
    reveal(journal::OperationView::pruned);
    reveal(journal::OperationView::finished);
    if i < entries.len() {
        lemma_prune_from(start, now, op, tip, entries, i + 1, p);
    }
}

proof fn lemma_preserving_late(
    store: history::StoreView,
    start: disk::Disk,
    goal: journal::GoalView,
    now: Scene,
    reply: journal::ReplyView,
    after: Scene,
)
    requires
        goal is Record,
        unshared(start),
        guarantees::sound(start, goal, now.disk, now.op),
        preserving(start, now.disk, now.op),
        now.steps(store, reply, after),
        now.op.stage is ClearPending || now.op.stage is DropReplaced || now.op.stage is ListTurns
            || now.op.stage is PruneRead || now.op.stage is PruneBlobs
            || now.op.stage is PruneRemove,
    ensures
        preserving(start, after.disk, after.op),
{
    let d = now.disk;
    let v = after.disk;
    let op = now.op;
    match op.stage {
        journal::StageView::ClearPending { pending, replaced } => {
            reveal(journal::OperationView::on_clear_pending);
            reveal(journal::OperationView::cleared);
            lemma_submap_lasts(start, v, pending);
        },
        journal::StageView::DropReplaced { pending, replaced } => {
            let name = history::turn_name(pending.change_set.id);
            lemma_submap_lasts(start, d, pending);
            lemma_discard_lasts(start, d, v, pending, name, reply);
        },
        journal::StageView::ListTurns { tip, after: then } => {
            reveal(journal::OperationView::on_list_turns);
            reveal(journal::OperationView::pruned);
            reveal(journal::OperationView::finished);
            if reply is Turns && reply->Turns_0 is Ok {
                lemma_prune_from(start, v, op, tip, reply->Turns_0->Ok_0, 0, then->Finish_0);
            }
        },
        journal::StageView::PruneRead { tip, entries, index, after: then } => {
            reveal(journal::OperationView::on_prune_read);
        },
        journal::StageView::PruneBlobs { tip, entries, index, after: then, outdated } => {
            let name = entries[index]->Ok_0.name;
            assert(!guarantees::lasting(then->Finish_0, name));
            lemma_discard_lasts(start, d, v, then->Finish_0, name, reply);
        },
        journal::StageView::PruneRemove { tip, entries, index, after: then } => {
            reveal(journal::OperationView::on_prune_remove);
            lemma_prune_from(start, v, op, tip, entries, index + 1, then->Finish_0);
        },
        _ => {},
    }
}

proof fn lemma_preserving(
    store: history::StoreView,
    start: disk::Disk,
    goal: journal::GoalView,
    now: Scene,
    reply: journal::ReplyView,
    after: Scene,
)
    requires
        goal is Record,
        start.pending is None,
        unshared(start),
        guarantees::sound(start, goal, now.disk, now.op),
        preserving(start, now.disk, now.op),
        now.steps(store, reply, after),
    ensures
        preserving(start, after.disk, after.op),
{
    let op = now.op;
    if op.stage is ClearPending || op.stage is DropReplaced || op.stage is ListTurns
        || op.stage is PruneRead || op.stage is PruneBlobs || op.stage is PruneRemove {
        lemma_preserving_late(store, start, goal, now, reply, after);
    } else {
        course::lemma_follows(store, op, reply);
        reveal(journal::OperationView::on_load_state);
        reveal(journal::OperationView::loaded);
        reveal(journal::OperationView::validate_from);
        reveal(journal::OperationView::capture_from);
        reveal(journal::OperationView::check_from);
    }
}

proof fn lemma_preserving_run(
    store: history::StoreView,
    goal: journal::GoalView,
    scenes: Seq<Scene>,
    i: int,
)
    requires
        goal is Record,
        guarantees::is_run(store, scenes),
        guarantees::quiet(scenes[0].disk, goal),
        scenes[0].op == guarantees::beginning(goal),
        unshared(scenes[0].disk),
        0 <= i < scenes.len(),
    ensures
        preserving(scenes[0].disk, scenes[i].disk, scenes[i].op),
    decreases i,
{
    if i > 0 {
        let start = scenes[0].disk;
        lemma_preserving_run(store, goal, scenes, i - 1);
        guarantees::lemma_run(store, start, goal, scenes, i - 1);
        assert(scenes[i - 1].leads_to(store, scenes[i - 1 + 1]));
        let reply = choose|reply: journal::ReplyView| #[trigger]
            scenes[i - 1].steps(store, reply, scenes[i]);
        lemma_preserving(store, start, goal, scenes[i - 1], reply, scenes[i]);
    }
}

proof fn lemma_commit_keeps(
    start: disk::Disk,
    end: disk::Disk,
    goal: journal::GoalView,
    p: history::PendingView,
)
    requires
        goal is Record,
        intact(start),
        guarantees::settled(start, end, goal, p),
        blobs_last(start, end, p),
    ensures
        intact(end),
{
    let id = p.change_set.id;
    let own = history::turn_name(id);
    let mutations = goal->Record_0;
    assert forall|x: Seq<char>| disk::files_refer(p.change_set.files, x) implies start.unknown(
        x,
    ) by {
        let j = choose|j: int|
            0 <= j < p.change_set.files.len() && (disk::refers(
                (#[trigger] p.change_set.files[j]).before,
                x,
            ) || disk::refers(p.change_set.files[j].after, x));
        assert(guarantees::captured_file(start, end, mutations[j], p.change_set.files[j]));
    }
    assert forall|a: Seq<char>, b: Seq<char>, x: Seq<char>|
        a != b && end.turns.contains_key(a) && end.turns.contains_key(b)
            && #[trigger] disk::files_refer(end.turns[a].files, x) implies
        !#[trigger] disk::files_refer(end.turns[b].files, x) by {
        if a != own {
            assert(disk::same_at(start.turns, end.turns, a));
        }
        if b != own {
            assert(disk::same_at(start.turns, end.turns, b));
        }
        if a == own {
            assert(start.unknown(x));
        }
        if b == own && disk::files_refer(end.turns[b].files, x) {
            assert(start.unknown(x));
        }
    }
    assert forall|n: u64| 1 <= n <= end.history_state().tip implies #[trigger] kept(end, n) by {
        if n == id {
            assert forall|j: int| 0 <= j < p.change_set.files.len() implies has_blob(
                end,
                (#[trigger] p.change_set.files[j]).before,
            ) && has_blob(end, p.change_set.files[j].after) by {
                assert(guarantees::captured_file(start, end, mutations[j], p.change_set.files[j]));
            }
        } else {
            let name = history::turn_name(n);
            assert(kept(start, n));
            history::turn_names_read_back(n);
            if name == own {
                history::turn_names_are_distinct(n, id);
            }
            assert(guarantees::lasting(p, name));
            assert(disk::same_at(start.turns, end.turns, name));
            let files = start.turns[name].files;
            assert forall|j: int| 0 <= j < files.len() implies has_blob(
                end,
                (#[trigger] files[j]).before,
            ) && has_blob(end, files[j].after) by {
                assert(has_blob(start, files[j].before) && has_blob(start, files[j].after));
                if let history::SnapshotView::Blob { id: x, len: _ } = files[j].before {
                    assert(disk::files_refer(start.turns[name].files, x));
                }
                if let history::SnapshotView::Blob { id: x, len: _ } = files[j].after {
                    assert(disk::files_refer(start.turns[name].files, x));
                }
            }
        }
    }
}

/// Every operation that succeeds keeps the journal intact: no commit, undo or redo takes a
/// recorded transaction or one of its blobs away, as long as the transaction counts.
pub proof fn intact_journals_stay_intact(
    store: history::StoreView,
    goal: journal::GoalView,
    scenes: Seq<Scene>,
    c: history::ChangeSetView,
)
    requires
        guarantees::accomplishes(store, goal, scenes, c),
        intact(scenes[0].disk),
    ensures
        intact(scenes.last().disk),
{
    let start = scenes[0].disk;
    let end = scenes.last().disk;
    match goal {
        journal::GoalView::Record(mutations) => {
            guarantees::lemma_run(store, start, goal, scenes, scenes.len() - 1);
            lemma_preserving_run(store, goal, scenes, scenes.len() - 1);
            let p = choose|p: history::PendingView|
                journal::OutcomeView::Applied(c) == journal::OutcomeView::Applied(p.change_set)
                    && #[trigger] guarantees::settled(start, end, goal, p);
            lemma_commit_keeps(start, end, goal, p);
        },
        journal::GoalView::Undo => {
            guarantees::undo_takes_the_last_transaction_back(store, scenes, c);
            lemma_same_journal(start, end);
        },
        journal::GoalView::Redo => {
            guarantees::redo_applies_the_next_transaction(store, scenes, c);
            lemma_same_journal(start, end);
        },
        _ => {},
    }
}

proof fn lemma_same_journal(start: disk::Disk, end: disk::Disk)
    requires
        intact(start),
        end.pending is None,
        end.legible(),
        end.turns == start.turns,
        end.blobs == start.blobs,
        end.history_state().tip == start.history_state().tip,
        guarantees::in_order(end.history_state()),
    ensures
        intact(end),
{
    assert forall|n: u64| 1 <= n <= end.history_state().tip implies #[trigger] kept(end, n) by {
        assert(kept(start, n));
        let files = start.turns[history::turn_name(n)].files;
        assert forall|j: int| 0 <= j < files.len() implies has_blob(
            end,
            (#[trigger] files[j]).before,
        ) && has_blob(end, files[j].after) by {
            assert(has_blob(start, files[j].before));
        }
    }
}

/// In an intact journal everything that is applied can be taken back and everything that was
/// taken back can be applied again, as far as the journal is concerned: the transaction is
/// recorded, and the contents that the files are to get are there.
pub proof fn intact_journals_lack_nothing(
    d: disk::Disk,
    goal: journal::GoalView,
    p: history::PendingView,
)
    requires
        intact(d),
        goal is Undo || goal is Redo,
    ensures
        guarantees::quiet(d, goal),
        guarantees::plan(d, d, goal, p) ==> progress::all_measured(d, p) && forall|j: int|
            0 <= j < p.change_set.files.len() ==> has_blob(
                d,
                p.side(#[trigger] p.change_set.files[j], SnapshotSide::Desired),
            ),
{
    let state = d.history_state();
    let n = if goal is Undo {
        state.cursor
    } else {
        (state.cursor + 1) as u64
    };
    if 1 <= n <= state.tip {
        assert(kept(d, n));
    }
    if guarantees::plan(d, d, goal, p) {
        assert forall|j: int| 0 <= j < p.change_set.files.len() implies
            #[trigger] progress::measured(d, p, j) && has_blob(
            d,
            p.side(p.change_set.files[j], SnapshotSide::Desired),
        ) by {
            assert(has_blob(d, p.change_set.files[j].before));
            assert(has_blob(d, p.change_set.files[j].after));
        }
    }
}

/// A journal without anything in it is intact.
pub proof fn new_journals_are_intact(d: disk::Disk)
    requires
        d.pending is None,
        d.state is None,
        !d.state_damaged,
        d.state_backup is None,
        d.turns == Map::<Seq<char>, history::ChangeSetView>::empty(),
    ensures
        intact(d),
{
}

} // verus!
