//! How the recovery of an interrupted operation ends where the file system does not fail.

use vstd::prelude::*;

use crate::answers;
use crate::disk;
use crate::guarantees;
use crate::guarantees::Scene;
use crate::history;
use crate::history::SnapshotSide;
use crate::io;
use crate::io::IoErrorKind;
use crate::journal;
use crate::journal::ApplyPart;
use crate::order;
use crate::paths;
use crate::progress;
use crate::recovery;

verus! {

// ---------------------------------------------------------------------------------------------
// Recovery succeeds

/// That nothing has come of an interrupted operation, though it has something to do.
pub open spec fn untouched(d: disk::Disk, p: history::PendingView) -> bool {
    &&& guarantees::all_on(d, p, SnapshotSide::Expected)
    &&& !guarantees::all_on(d, p, SnapshotSide::Desired)
}

/// That nothing stands in the way of the recovery of an interrupted operation: its files are on
/// its sides, and nothing had come of it, or everything, or its files can be changed one after the
/// other and its blobs are as long as recorded.
pub open spec fn mendable(d: disk::Disk, p: history::PendingView) -> bool {
    &&& progress::workable(d, p)
    &&& recovery::all_on_a_side(d, p)
    &&& {
        ||| untouched(d, p)
        ||| guarantees::all_on(d, p, SnapshotSide::Desired)
        ||| progress::compatible(d, p) && progress::all_measured(d, p)
    }
}

/// What holds of the files while the interrupted operation is completed.
pub open spec fn applying(
    start: disk::Disk,
    p: history::PendingView,
    now: disk::Disk,
    done: int,
    turn: int,
) -> bool {
    &&& progress::workable(now, p)
    &&& recovery::all_on_a_side(now, p)
    &&& progress::all_measured(now, p)
    &&& progress::compatible(start, p)
    &&& progress::advanced(now, p, done)
    &&& progress::untainted(start, p, now, turn)
}

/// What holds at each stage of a recovery that nothing disturbs.
pub open spec fn mending(
    start: disk::Disk,
    p: history::PendingView,
    now: disk::Disk,
    op: journal::OperationView,
) -> bool {
    match op.stage {
        journal::StageView::MakeDirectories => true,
        journal::StageView::ReadPending => true,
        journal::StageView::Recover { index, expected, part, .. } => progress::comparable(
            p,
            index,
            if expected is None {
                SnapshotSide::Expected
            } else {
                SnapshotSide::Desired
            },
            part,
        ),
        journal::StageView::DropBlobs { .. } => untouched(start, p),
        journal::StageView::DropPending => untouched(start, p),
        journal::StageView::Apply { index, part, .. } => {
            &&& !untouched(start, p)
            &&& applying(
                start,
                p,
                now,
                index,
                if part is Verify {
                    index + 1
                } else {
                    index
                },
            )
            &&& match part {
                ApplyPart::Desired(q) => progress::comparable(p, index, SnapshotSide::Desired, q),
                ApplyPart::Expected(q) => !now.on_side(p, index, SnapshotSide::Desired)
                    && progress::comparable(p, index, SnapshotSide::Expected, q),
                ApplyPart::Write => !now.on_side(p, index, SnapshotSide::Desired),
                ApplyPart::Verify(q) => now.on_side(p, index, SnapshotSide::Desired)
                    && progress::comparable(p, index, SnapshotSide::Desired, q),
            }
        },
        journal::StageView::Confirm { index, conflicts, part, .. } => {
            &&& !untouched(start, p)
            &&& progress::workable(now, p)
            &&& progress::comparable(p, index, SnapshotSide::Desired, part)
            &&& guarantees::all_on(now, p, SnapshotSide::Desired)
            &&& conflicts.len() == 0
        },
        journal::StageView::PruneRead { entries, .. } => !untouched(start, p) && disk::all_read(
            entries,
        ),
        journal::StageView::PruneBlobs { entries, .. } => !untouched(start, p) && disk::all_read(
            entries,
        ),
        journal::StageView::PruneRemove { entries, .. } => !untouched(start, p) && disk::all_read(
            entries,
        ),
        journal::StageView::Done(_) => false,
        _ => !untouched(start, p),
    }
}

/// How a recovery that nothing disturbs ends.
pub open spec fn mended(
    start: disk::Disk,
    p: history::PendingView,
    now: disk::Disk,
    op: journal::OperationView,
) -> bool {
    &&& recovery::resolved(start, p, now, op)
    &&& if untouched(start, p) {
        recovery::taken_back(start, now, p)
    } else {
        recovery::completed(start, now, p)
    }
}

proof fn lemma_confirm_mends(
    start: disk::Disk,
    p: history::PendingView,
    now: disk::Disk,
    op: journal::OperationView,
    i: int,
)
    requires
        !untouched(start, p),
        progress::workable(now, p),
        guarantees::all_on(now, p, SnapshotSide::Desired),
        0 <= i <= p.change_set.files.len(),
    ensures
        mending(start, p, now, op.confirm_from(p, i, Seq::empty())),
{
    reveal(journal::OperationView::confirm_from);
    if i < p.change_set.files.len() {
        assert(paths::normalized(p.change_set.files[i].path) is Some);
    }
}

proof fn lemma_apply_mends(
    start: disk::Disk,
    p: history::PendingView,
    now: disk::Disk,
    op: journal::OperationView,
    i: int,
)
    requires
        !untouched(start, p),
        applying(start, p, now, i, i),
        0 <= i <= p.change_set.files.len(),
    ensures
        mending(start, p, now, op.apply_from(p, i)),
{
    reveal(journal::OperationView::apply_from);
    if i >= p.change_set.files.len() {
        lemma_confirm_mends(start, p, now, op, 0);
    } else {
        assert(paths::normalized(p.change_set.files[i].path) is Some);
    }
}

proof fn lemma_recover_mends(
    start: disk::Disk,
    p: history::PendingView,
    op: journal::OperationView,
    i: int,
    tally: journal::TallyView,
)
    requires
        mendable(start, p),
        0 <= i <= p.change_set.files.len(),
        recovery::tallied(start, p, i, tally),
    ensures
        mending(start, p, start, op.recover_from(p, i, tally)),
{
    reveal(journal::OperationView::recover_from);
    reveal(journal::OperationView::decided);
    if i >= p.change_set.files.len() {
        recovery::lemma_foreign(start, p, i);
        if tally.all_desired {
            lemma_confirm_mends(start, p, start, op, 0);
        } else if !tally.all_expected {
            lemma_apply_mends(start, p, start, op, 0);
        }
    } else {
        assert(paths::normalized(p.change_set.files[i].path) is Some);
    }
}

proof fn lemma_prune_mends(
    start: disk::Disk,
    p: history::PendingView,
    now: disk::Disk,
    op: journal::OperationView,
    tip: u64,
    entries: Seq<journal::EntryResultView>,
    i: int,
    after: journal::AfterView,
)
    requires
        !untouched(start, p),
        disk::all_read(entries),
        0 <= i <= entries.len(),
        op.recovering,
        after is Finish,
    ensures
        ({
            let next = op.prune_from(tip, entries, i, after);
            mending(start, p, now, next)
        }),
    decreases entries.len() - i,
{
    reveal(journal::OperationView::pruned);
    reveal(journal::OperationView::finished);
    if i < entries.len() {
        assert(entries[i] is Ok);
        lemma_prune_mends(start, p, now, op, tip, entries, i + 1, after);
    }
}

proof fn lemma_mending_apply(
    store: history::StoreView,
    start: disk::Disk,
    p: history::PendingView,
    now: Scene,
    reply: journal::ReplyView,
    after: Scene,
)
    requires
        now.op.stage is Apply,
        recovery::recovering(start, p, now.disk, now.op),
        mending(start, p, now.disk, now.op),
        now.steps(store, reply, after),
        progress::fine(reply),
        progress::tidied(now, after),
    ensures
        mending(start, p, after.disk, after.op),
{
    reveal(journal::OperationView::on_apply);
    let d = now.disk;
    let v = after.disk;
    let op = now.op;
    if let journal::StageView::Apply { pending, index, part } = op.stage {
        let change = p.change_set.files[index];
        let desired = p.side(change, SnapshotSide::Desired);
        let expected = p.side(change, SnapshotSide::Expected);
        assert(progress::way_clear(d, progress::place(p, index)));
        assert(recovery::on_a_side(d, p, index));
        match part {
            ApplyPart::Desired(q) => {
                guarantees::lemma_probed(d, change.path, desired, q, reply, v);
                progress::lemma_probe_succeeds(d, change.path, desired, q, reply, v);
                if d.on_side(p, index, SnapshotSide::Desired) {
                    lemma_apply_mends(start, p, d, op, index + 1);
                }
            },
            ApplyPart::Expected(q) => {
                guarantees::lemma_probed(d, change.path, expected, q, reply, v);
                progress::lemma_probe_succeeds(d, change.path, expected, q, reply, v);
            },
            ApplyPart::Write => {
                assert(progress::measured(d, p, index));
                progress::lemma_swept(store, now, reply, after);
                progress::lemma_write_no_links(now, reply, after, store);
                progress::lemma_workable_stays(d, v, p);
                assert forall|q: Seq<char>|
                    q != progress::place(p, index) && !disk::beside(
                        progress::place(p, index),
                        q,
                    ) implies #[trigger] disk::same_at(d.work, v.work, q) by {}
                assert(v.on_side(p, index, SnapshotSide::Desired));
                assert forall|j: int|
                    0 <= j < p.change_set.files.len() implies #[trigger] recovery::on_a_side(
                    v,
                    p,
                    j,
                ) by {
                    assert(recovery::on_a_side(d, p, j));
                    if j != index {
                        progress::lemma_write(start, now, after, j);
                    }
                }
                assert forall|j: int| 0 <= j < index implies #[trigger] v.on_side(
                    p,
                    j,
                    SnapshotSide::Desired,
                ) by {
                    assert(d.on_side(p, j, SnapshotSide::Desired));
                    progress::lemma_write(start, now, after, j);
                }
                assert forall|j: int| index < j < p.change_set.files.len() implies {
                    ||| disk::same_at(start.work, v.work, #[trigger] progress::place(p, j))
                    ||| !v.work.contains_key(progress::place(p, j)) && progress::removed(
                        start,
                        p,
                        j,
                        index + 1,
                    )
                } by {
                    progress::lemma_write(start, now, after, j);
                }
                assert forall|j: int|
                    0 <= j < p.change_set.files.len() implies #[trigger] progress::measured(
                    v,
                    p,
                    j,
                ) by {
                    assert(progress::measured(d, p, j));
                }
            },
            ApplyPart::Verify(q) => {
                guarantees::lemma_probed(d, change.path, desired, q, reply, v);
                progress::lemma_probe_succeeds(d, change.path, desired, q, reply, v);
                lemma_apply_mends(start, p, d, op, index + 1);
            },
        }
    }
}

proof fn lemma_mending(
    store: history::StoreView,
    start: disk::Disk,
    p: history::PendingView,
    now: Scene,
    reply: journal::ReplyView,
    after: Scene,
)
    requires
        start.pending == Some(p),
        recovery::proper(p),
        mendable(start, p),
        recovery::recovering(start, p, now.disk, now.op),
        mending(start, p, now.disk, now.op),
        now.steps(store, reply, after),
        progress::fine(reply),
        progress::tidied(now, after),
    ensures
        recovery::recovering(start, p, after.disk, after.op) && mending(
            start,
            p,
            after.disk,
            after.op,
        ) || mended(start, p, after.disk, after.op),
{
    let d = now.disk;
    let v = after.disk;
    let op = now.op;
    recovery::lemma_step(store, start, p, now, reply, after);
    match op.stage {
        journal::StageView::MakeDirectories => {
            reveal(journal::OperationView::on_directories);
        },
        journal::StageView::ReadPending => {
            reveal(journal::OperationView::on_read_pending);
            lemma_recover_mends(start, p, op, 0, journal::TallyView::start());
        },
        journal::StageView::Recover { pending, index, tally, expected, part } => {
            reveal(journal::OperationView::on_recover);
            let change = p.change_set.files[index];
            let side = if expected is None {
                SnapshotSide::Expected
            } else {
                SnapshotSide::Desired
            };
            let snapshot = p.side(change, side);
            assert(progress::way_clear(d, progress::place(p, index)));
            guarantees::lemma_probed(d, change.path, snapshot, part, reply, v);
            progress::lemma_probe_succeeds(d, change.path, snapshot, part, reply, v);
            if let Ok(Some(same)) = journal::probed(change.path, snapshot, part, reply) {
                if let Some(e) = expected {
                    let next = tally.counted(change.path, e, same);
                    recovery::lemma_tallied(start, p, index, tally, e, same);
                    lemma_recover_mends(start, p, op, index + 1, next);
                }
            }
        },
        journal::StageView::DropBlobs { .. } => {},
        journal::StageView::DropPending => {
            reveal(journal::OperationView::on_drop_pending);
        },
        journal::StageView::Apply { .. } => {
            lemma_mending_apply(store, start, p, now, reply, after);
        },
        journal::StageView::Confirm { pending, index, conflicts, part } => {
            reveal(journal::OperationView::on_confirm);
            let change = p.change_set.files[index];
            let snapshot = p.side(change, SnapshotSide::Desired);
            assert(progress::way_clear(d, progress::place(p, index)));
            assert(d.on_side(p, index, SnapshotSide::Desired));
            guarantees::lemma_probed(d, change.path, snapshot, part, reply, v);
            progress::lemma_probe_succeeds(d, change.path, snapshot, part, reply, v);
            assert(conflicts =~= Seq::empty());
            lemma_confirm_mends(start, p, d, op, index + 1);
        },
        journal::StageView::ReadReplaced { .. } => {
            reveal(journal::OperationView::on_read_replaced);
        },
        journal::StageView::SaveTurn { .. } => {
            reveal(journal::OperationView::on_save_turn);
        },
        journal::StageView::SaveState { .. } => {
            reveal(journal::OperationView::on_save_state);
        },
        journal::StageView::ClearPending { .. } => {
            reveal(journal::OperationView::on_clear_pending);
            reveal(journal::OperationView::cleared);
            reveal(journal::OperationView::finished);
        },
        journal::StageView::ListTurns { tip, after: then } => {
            reveal(journal::OperationView::on_list_turns);
            lemma_prune_mends(start, p, d, op, tip, reply->Turns_0->Ok_0, 0, then);
        },
        journal::StageView::PruneRead { .. } => {
            reveal(journal::OperationView::on_prune_read);
        },
        journal::StageView::PruneRemove { tip, entries, index, after: then } => {
            reveal(journal::OperationView::on_prune_remove);
            lemma_prune_mends(start, p, v, op, tip, entries, index + 1, then);
        },
        _ => {},
    }
}

proof fn lemma_mending_run(
    store: history::StoreView,
    scenes: Seq<Scene>,
    p: history::PendingView,
    i: int,
)
    requires
        progress::is_smooth_run(store, scenes),
        recovery::starting(scenes[0].op),
        scenes[0].disk.pending == Some(p),
        recovery::proper(p),
        mendable(scenes[0].disk, p),
        0 <= i < scenes.len(),
        forall|k: int| 0 <= k < i ==> (#[trigger] scenes[k]).op.recovering,
    ensures
        recovery::recovering(scenes[0].disk, p, scenes[i].disk, scenes[i].op) && mending(
            scenes[0].disk,
            p,
            scenes[i].disk,
            scenes[i].op,
        ) || mended(scenes[0].disk, p, scenes[i].disk, scenes[i].op),
    decreases i,
{
    if i > 0 {
        lemma_mending_run(store, scenes, p, i - 1);
        assert(scenes[i - 1].op.recovering);
        assert(progress::leads_smoothly(store, scenes[i - 1], scenes[i - 1 + 1]));
        let reply = choose|reply: journal::ReplyView| #[trigger]
            scenes[i - 1].steps(store, reply, scenes[i]) && progress::fine(reply);
        lemma_mending(store, scenes[0].disk, p, scenes[i - 1], reply, scenes[i]);
    }
}

/// Where the file system does not fail and nothing stands in the way, the recovery of an
/// interrupted operation does not fail either: the operation is taken back if nothing had come of
/// it though it has something to do, and completed else.
pub proof fn undisturbed_recoveries_succeed(
    store: history::StoreView,
    scenes: Seq<Scene>,
    p: history::PendingView,
    i: int,
)
    requires
        progress::is_smooth_run(store, scenes),
        recovery::starting(scenes[0].op),
        scenes[0].disk.pending == Some(p),
        recovery::proper(p),
        mendable(scenes[0].disk, p),
        0 <= i < scenes.len(),
        forall|k: int| 0 <= k < i ==> (#[trigger] scenes[k]).op.recovering,
    ensures
        scenes[i].op.recovering ==> !(scenes[i].op.stage is Done),
        !scenes[i].op.recovering ==> if untouched(scenes[0].disk, p) {
            recovery::taken_back(scenes[0].disk, scenes[i].disk, p)
        } else {
            recovery::completed(scenes[0].disk, scenes[i].disk, p)
        },
{
    lemma_mending_run(store, scenes, p, i);
}

// ---------------------------------------------------------------------------------------------
// Foreign edits

/// What holds on the way to the conflict of a recovery.
pub open spec fn at_odds(
    start: disk::Disk,
    p: history::PendingView,
    op: journal::OperationView,
) -> bool {
    match op.stage {
        journal::StageView::MakeDirectories => true,
        journal::StageView::ReadPending => true,
        journal::StageView::Recover { index, expected, part, .. } => progress::comparable(
            p,
            index,
            if expected is None {
                SnapshotSide::Expected
            } else {
                SnapshotSide::Desired
            },
            part,
        ),
        journal::StageView::Done(_) => answers::fails_with(
            op,
            history::HistoryErrorView::Conflict(
                recovery::foreign(start, p, p.change_set.files.len() as int),
            ),
        ),
        _ => false,
    }
}

proof fn lemma_recover_at_odds(
    start: disk::Disk,
    p: history::PendingView,
    op: journal::OperationView,
    i: int,
    tally: journal::TallyView,
)
    requires
        progress::workable(start, p),
        !recovery::all_on_a_side(start, p),
        0 <= i <= p.change_set.files.len(),
        recovery::tallied(start, p, i, tally),
    ensures
        at_odds(start, p, op.recover_from(p, i, tally)),
{
    reveal(journal::OperationView::recover_from);
    reveal(journal::OperationView::decided);
    recovery::lemma_foreign(start, p, i);
    if i < p.change_set.files.len() {
        assert(paths::normalized(p.change_set.files[i].path) is Some);
    }
}

/// Where the file system does not fail, the ways to the files are clear and a file of the
/// interrupted operation is on neither of its sides, the recovery ends with a conflict that names
/// exactly these files, in their order, and nothing has changed.
pub proof fn undisturbed_recoveries_name_foreign_edits(
    store: history::StoreView,
    scenes: Seq<Scene>,
    p: history::PendingView,
    bad: int,
    i: int,
)
    requires
        progress::is_smooth_run(store, scenes),
        recovery::starting(scenes[0].op),
        scenes[0].disk.pending == Some(p),
        recovery::proper(p),
        progress::workable(scenes[0].disk, p),
        0 <= bad < p.change_set.files.len(),
        !recovery::on_a_side(scenes[0].disk, p, bad),
        0 <= i < scenes.len(),
    ensures
        scenes[i].disk == scenes[0].disk,
        at_odds(scenes[0].disk, p, scenes[i].op),
        scenes[i].op.stage is Done ==> answers::fails_with(
            scenes[i].op,
            history::HistoryErrorView::Conflict(
                recovery::foreign(scenes[0].disk, p, p.change_set.files.len() as int),
            ),
        ),
    decreases i,
{
    let start = scenes[0].disk;
    progress::lemma_smooth(store, scenes);
    recovery::recovery_leaves_foreign_edits_alone(store, scenes, p, bad, i);
    if i > 0 {
        undisturbed_recoveries_name_foreign_edits(store, scenes, p, bad, i - 1);
        assert forall|k: int| 0 <= k < i - 1 implies (#[trigger] scenes[k]).op.recovering by {
            recovery::recovery_leaves_foreign_edits_alone(store, scenes, p, bad, k);
        }
        recovery::recovery_leaves_foreign_edits_alone(store, scenes, p, bad, i - 1);
        recovery::lemma_recovery(store, scenes, p, i - 1);
        let now = scenes[i - 1];
        let v = scenes[i].disk;
        let op = now.op;
        assert(progress::leads_smoothly(store, now, scenes[i - 1 + 1]));
        let reply = choose|reply: journal::ReplyView| #[trigger]
            now.steps(store, reply, scenes[i]) && progress::fine(reply);
        assert(!recovery::all_on_a_side(start, p));
        match op.stage {
            journal::StageView::MakeDirectories => {
                reveal(journal::OperationView::on_directories);
            },
            journal::StageView::ReadPending => {
                reveal(journal::OperationView::on_read_pending);
                lemma_recover_at_odds(start, p, op, 0, journal::TallyView::start());
            },
            journal::StageView::Recover { pending, index, tally, expected, part } => {
                reveal(journal::OperationView::on_recover);
                let change = p.change_set.files[index];
                let side = if expected is None {
                    SnapshotSide::Expected
                } else {
                    SnapshotSide::Desired
                };
                let snapshot = p.side(change, side);
                assert(progress::way_clear(start, progress::place(p, index)));
                guarantees::lemma_probed(start, change.path, snapshot, part, reply, v);
                progress::lemma_probe_succeeds(start, change.path, snapshot, part, reply, v);
                if let Ok(Some(same)) = journal::probed(change.path, snapshot, part, reply) {
                    if let Some(e) = expected {
                        let next = tally.counted(change.path, e, same);
                        recovery::lemma_tallied(start, p, index, tally, e, same);
                        lemma_recover_at_odds(start, p, op, index + 1, next);
                    }
                }
            },
            _ => {},
        }
    }
}

// ---------------------------------------------------------------------------------------------
// After the recovery

/// Where nothing is pending, the beginning leads to the reading of the state.
proof fn lemma_nothing_pending(store: history::StoreView, first: Scene, second: Scene)
    requires
        first.disk.pending is None,
        first.op == guarantees::beginning(first.op.goal),
        second == (Scene { disk: first.disk, op: first.op.recovered() }),
    ensures
        first.leads_to(store, second),
        progress::leads_smoothly(store, first, second),
{
    reveal(journal::OperationView::on_read_pending);
    let gone = io::IoErrorView { kind: IoErrorKind::NotFound, message: Seq::empty() };
    let reply = journal::ReplyView::Pending(Err(gone));
    assert(first.steps(store, reply, second) && progress::fine(reply));
}

/// The end of a run, after a scene that leads to it, is a run.
proof fn lemma_rest(store: history::StoreView, first: Scene, scenes: Seq<Scene>, i: int)
    requires
        guarantees::is_run(store, scenes),
        0 <= i < scenes.len(),
        first.leads_to(store, scenes[i]),
    ensures
        guarantees::is_run(store, seq![first] + scenes.skip(i)),
{
    let rest = seq![first] + scenes.skip(i);
    assert forall|k: int| 0 <= k < rest.len() - 1 implies (#[trigger] rest[k]).leads_to(
        store,
        rest[k + 1],
    ) by {
        if k > 0 {
            let n = i + k - 1;
            assert(rest[k] == scenes[n]);
            assert(rest[k + 1] == scenes[n + 1]);
            assert(scenes[n].leads_to(store, scenes[n + 1]));
        }
    }
}

proof fn lemma_smooth_rest(store: history::StoreView, first: Scene, scenes: Seq<Scene>, i: int)
    requires
        progress::is_smooth_run(store, scenes),
        0 <= i < scenes.len(),
        progress::leads_smoothly(store, first, scenes[i]),
    ensures
        progress::is_smooth_run(store, seq![first] + scenes.skip(i)),
{
    let rest = seq![first] + scenes.skip(i);
    assert forall|k: int| 0 <= k < rest.len() - 1 implies progress::leads_smoothly(
        store,
        #[trigger] rest[k],
        rest[k + 1],
    ) by {
        if k > 0 {
            let n = i + k - 1;
            assert(rest[k] == scenes[n]);
            assert(rest[k + 1] == scenes[n + 1]);
            assert(progress::leads_smoothly(store, scenes[n], scenes[n + 1]));
        }
    }
}

/// Once the operation of an earlier process is dealt with, nothing is pending, and the operation
/// reads the state.
proof fn lemma_recovered(
    store: history::StoreView,
    scenes: Seq<Scene>,
    p: history::PendingView,
    i: int,
)
    requires
        guarantees::is_run(store, scenes),
        scenes[0].op == guarantees::beginning(scenes[0].op.goal),
        scenes[0].disk.pending == Some(p),
        recovery::proper(p),
        0 <= i < scenes.len(),
        forall|k: int| 0 <= k < i ==> (#[trigger] scenes[k]).op.recovering,
        !scenes[i].op.recovering,
    ensures
        scenes[i].disk.pending is None,
        scenes[i].op == guarantees::beginning(scenes[0].op.goal).recovered(),
{
    recovery::lemma_recovery(store, scenes, p, i);
    order::lemma_goal_kept(store, scenes, i);
}

/// An operation that finds another pending goes on, once that is dealt with, just as one that
/// finds none: what follows is the rest of a run from the beginning on a disk with nothing
/// pending, and all that holds of such runs holds of it.
pub proof fn recovered_operations_begin_afresh(
    store: history::StoreView,
    scenes: Seq<Scene>,
    p: history::PendingView,
    i: int,
)
    requires
        guarantees::is_run(store, scenes),
        scenes[0].op == guarantees::beginning(scenes[0].op.goal),
        scenes[0].disk.pending == Some(p),
        recovery::proper(p),
        0 <= i < scenes.len(),
        forall|k: int| 0 <= k < i ==> (#[trigger] scenes[k]).op.recovering,
        !scenes[i].op.recovering,
    ensures
        ({
            let first = Scene {
                disk: scenes[i].disk,
                op: guarantees::beginning(scenes[0].op.goal),
            };
            let rest = seq![first] + scenes.skip(i);
            &&& first.disk.pending is None
            &&& guarantees::is_run(store, rest)
            &&& progress::is_smooth_run(store, scenes) ==> progress::is_smooth_run(store, rest)
        }),
{
    let goal = scenes[0].op.goal;
    let first = Scene { disk: scenes[i].disk, op: guarantees::beginning(goal) };
    lemma_recovered(store, scenes, p, i);
    lemma_nothing_pending(store, first, scenes[i]);
    lemma_rest(store, first, scenes, i);
    if progress::is_smooth_run(store, scenes) {
        lemma_smooth_rest(store, first, scenes, i);
    }
}

} // verus!
