//! What becomes of an operation that was interrupted.

use vstd::prelude::*;

use crate::disk;
use crate::guarantees;
use crate::guarantees::Scene;
use crate::history;
use crate::history::{PendingKind, SnapshotSide};
use crate::io::IoErrorKind;
use crate::journal;
use crate::journal::ApplyPart;

verus! {

// ---------------------------------------------------------------------------------------------
// Completing an operation or taking it back

/// That file `j` of an operation is on one of its sides.
pub open spec fn on_a_side(d: disk::Disk, p: history::PendingView, j: int) -> bool {
    d.on_side(p, j, SnapshotSide::Expected) || d.on_side(p, j, SnapshotSide::Desired)
}

pub open spec fn all_on_a_side(d: disk::Disk, p: history::PendingView) -> bool {
    forall|j: int| 0 <= j < p.change_set.files.len() ==> #[trigger] on_a_side(d, p, j)
}

/// That a commit makes its own transaction the last.
pub open spec fn proper(p: history::PendingView) -> bool {
    p.kind == PendingKind::Commit ==> p.target.tip == p.change_set.id
}

/// That the operation `p` is complete: the journal is in the target state, every file holds what
/// the operation leaves, a commit is recorded, and no other file has changed.
pub open spec fn completed(start: disk::Disk, now: disk::Disk, p: history::PendingView) -> bool {
    &&& now.pending is None
    &&& now.state == Some(p.target)
    &&& guarantees::all_on(
        disk::Disk { blobs: start.blobs, ..now },
        p,
        SnapshotSide::Desired,
    )
    &&& guarantees::framed(start, now, p)
    &&& p.kind == PendingKind::Commit ==> {
        &&& now.turns.contains_key(history::turn_name(p.change_set.id))
        &&& now.turns[history::turn_name(p.change_set.id)] == p.change_set
    }
}

/// That the operation `p` is taken back: nothing had come of it, and nothing does.
pub open spec fn taken_back(start: disk::Disk, now: disk::Disk, p: history::PendingView) -> bool {
    &&& guarantees::all_on(start, p, SnapshotSide::Expected)
    &&& now == (disk::Disk { pending: None, blobs: now.blobs, ..start })
    &&& p.kind != PendingKind::Commit ==> now.blobs == start.blobs
}

pub open spec fn tallied(
    d: disk::Disk,
    p: history::PendingView,
    n: int,
    tally: journal::TallyView,
) -> bool {
    &&& tally.all_expected <==> forall|j: int|
        0 <= j < n ==> #[trigger] d.on_side(p, j, SnapshotSide::Expected)
    &&& tally.all_desired <==> forall|j: int|
        0 <= j < n ==> #[trigger] d.on_side(p, j, SnapshotSide::Desired)
    &&& tally.conflicts == foreign(d, p, n)
}

/// The paths among the first `n` files that are on neither side of an operation.
pub open spec fn foreign(d: disk::Disk, p: history::PendingView, n: int) -> Seq<Seq<char>>
    decreases n,
{
    if n <= 0 {
        Seq::empty()
    } else if on_a_side(d, p, n - 1) {
        foreign(d, p, n - 1)
    } else {
        foreign(d, p, n - 1).push(p.change_set.files[n - 1].path)
    }
}

pub proof fn lemma_foreign(d: disk::Disk, p: history::PendingView, n: int)
    ensures
        foreign(d, p, n).len() == 0 <==> forall|j: int|
            0 <= j < n ==> #[trigger] on_a_side(d, p, j),
    decreases n,
{
    if n > 0 {
        lemma_foreign(d, p, n - 1);
        if foreign(d, p, n).len() != 0 && forall|j: int|
            0 <= j < n ==> #[trigger] on_a_side(d, p, j) {
            assert(on_a_side(d, p, n - 1));
        }
    }
}

pub open spec fn rewinding(
    start: disk::Disk,
    now: disk::Disk,
    p: history::PendingView,
    tip: u64,
    after: journal::AfterView,
) -> bool {
    &&& p.kind == PendingKind::Commit
    &&& after == journal::AfterView::Finish(p)
    &&& tip == p.target.tip
    &&& completed(start, now, p)
    &&& all_on_a_side(start, p)
}

/// The tally with one more file counted.
pub proof fn lemma_tallied(
    d: disk::Disk,
    p: history::PendingView,
    n: int,
    tally: journal::TallyView,
    expected: bool,
    desired: bool,
)
    requires
        0 <= n < p.change_set.files.len(),
        tallied(d, p, n, tally),
        expected == d.on_side(p, n, SnapshotSide::Expected),
        desired == d.on_side(p, n, SnapshotSide::Desired),
    ensures
        tallied(d, p, n + 1, tally.counted(p.change_set.files[n].path, expected, desired)),
{
    let next = tally.counted(p.change_set.files[n].path, expected, desired);
    assert(on_a_side(d, p, n) == (expected || desired));
    assert forall|j: int| 0 <= j < n + 1 && next.all_expected implies #[trigger] d.on_side(
        p,
        j,
        SnapshotSide::Expected,
    ) by {}
    assert forall|j: int| 0 <= j < n + 1 && next.all_desired implies #[trigger] d.on_side(
        p,
        j,
        SnapshotSide::Desired,
    ) by {}
}

/// What holds at each stage while the operation `p` of an earlier process is dealt with.
pub open spec fn recovering(
    start: disk::Disk,
    p: history::PendingView,
    now: disk::Disk,
    op: journal::OperationView,
) -> bool {
    &&& op.recovering
    &&& op.wf()
    &&& match op.stage {
        journal::StageView::MakeDirectories => now == start,
        journal::StageView::ReadPending => now == start,
        journal::StageView::Recover { pending, index, tally, expected, part: _ } => {
            &&& now == start
            &&& pending == p
            &&& tallied(start, p, index, tally)
            &&& expected matches Some(e) ==> e == start.on_side(p, index, SnapshotSide::Expected)
        },
        journal::StageView::DropBlobs { pending } => {
            &&& now == start
            &&& pending == p
            &&& p.kind == PendingKind::Commit
            &&& guarantees::all_on(start, p, SnapshotSide::Expected)
        },
        journal::StageView::DropPending => {
            &&& start.but_for_blobs(now)
            &&& p.kind != PendingKind::Commit ==> now.blobs == start.blobs
            &&& guarantees::all_on(start, p, SnapshotSide::Expected)
        },
        journal::StageView::Apply { pending, index: _, part: _ } => {
            &&& pending == p
            &&& now == (disk::Disk { work: now.work, ..start })
            &&& guarantees::framed(start, now, p)
            &&& all_on_a_side(start, p)
        },
        journal::StageView::Confirm { pending, index, conflicts, part: _ } => {
            &&& pending == p
            &&& now == (disk::Disk { work: now.work, ..start })
            &&& guarantees::framed(start, now, p)
            &&& all_on_a_side(start, p)
            &&& conflicts == guarantees::mismatches(now, p, index, SnapshotSide::Desired)
        },
        journal::StageView::ReadReplaced { pending } => {
            &&& pending == p
            &&& p.kind == PendingKind::Commit
            &&& now == (disk::Disk { work: now.work, ..start })
            &&& guarantees::framed(start, now, p)
            &&& all_on_a_side(start, p)
            &&& guarantees::all_on(now, p, SnapshotSide::Desired)
        },
        journal::StageView::SaveTurn { pending, replaced: _ } => {
            &&& pending == p
            &&& p.kind == PendingKind::Commit
            &&& now == (disk::Disk { work: now.work, ..start })
            &&& guarantees::framed(start, now, p)
            &&& all_on_a_side(start, p)
            &&& guarantees::all_on(now, p, SnapshotSide::Desired)
        },
        journal::StageView::SaveState { pending, replaced: _ } => {
            &&& pending == p
            &&& now == (disk::Disk { work: now.work, ..start }).with_turns_of(now)
            &&& now.turns == guarantees::recorded(start, p)
            &&& guarantees::framed(start, now, p)
            &&& all_on_a_side(start, p)
            &&& guarantees::all_on(now, p, SnapshotSide::Desired)
        },
        journal::StageView::ClearPending { pending, replaced: _ } => {
            &&& pending == p
            &&& now.pending == Some(p)
            &&& now.state == Some(p.target)
            &&& now.blobs == start.blobs
            &&& now.turns == guarantees::recorded(start, p)
            &&& guarantees::framed(start, now, p)
            &&& all_on_a_side(start, p)
            &&& guarantees::all_on(now, p, SnapshotSide::Desired)
        },
        journal::StageView::DropReplaced { pending, replaced: _ } => {
            &&& pending == p
            &&& p.kind == PendingKind::Commit
            &&& completed(start, now, p)
            &&& all_on_a_side(start, p)
        },
        journal::StageView::ListTurns { tip, after } => rewinding(start, now, p, tip, after),
        journal::StageView::PruneRead { tip, entries, index, after } => {
            &&& rewinding(start, now, p, tip, after)
            &&& journal::is_outdated(entries[index]->Ok_0, tip)
        },
        journal::StageView::PruneBlobs { tip, entries, index, after, outdated: _ } => {
            &&& rewinding(start, now, p, tip, after)
            &&& journal::is_outdated(entries[index]->Ok_0, tip)
        },
        journal::StageView::PruneRemove { tip, entries, index, after } => {
            &&& rewinding(start, now, p, tip, after)
            &&& journal::is_outdated(entries[index]->Ok_0, tip)
        },
        journal::StageView::Done(r) => {
            &&& r is Err
            &&& now == start || all_on_a_side(start, p)
        },
        _ => false,
    }
}

/// What holds once the earlier operation is dealt with, at the first stage of the operation's own
/// work.
pub open spec fn resolved(
    start: disk::Disk,
    p: history::PendingView,
    now: disk::Disk,
    op: journal::OperationView,
) -> bool {
    &&& !op.recovering
    &&& op.stage == journal::StageView::LoadState { primary: None }
    &&& taken_back(start, now, p) || completed(start, now, p)
    &&& all_on_a_side(start, p)
}

proof fn lemma_sides(d: disk::Disk, p: history::PendingView, side: SnapshotSide)
    requires
        guarantees::all_on(d, p, side),
    ensures
        all_on_a_side(d, p),
{
    assert forall|j: int| 0 <= j < p.change_set.files.len() implies
        #[trigger] on_a_side(d, p, j) by {
        assert(d.on_side(p, j, side));
    }
}

proof fn lemma_confirm_from(
    start: disk::Disk,
    p: history::PendingView,
    now: disk::Disk,
    op: journal::OperationView,
    i: int,
    conflicts: Seq<Seq<char>>,
)
    requires
        op.recovering,
        now == (disk::Disk { work: now.work, ..start }),
        guarantees::framed(start, now, p),
        all_on_a_side(start, p),
        0 <= i <= p.change_set.files.len(),
        conflicts == guarantees::mismatches(now, p, i, SnapshotSide::Desired),
    ensures
        recovering(start, p, now, op.confirm_from(p, i, conflicts)),
{
    reveal(journal::OperationView::confirm_from);
    guarantees::lemma_no_mismatch(now, p, i, SnapshotSide::Desired);
}

proof fn lemma_apply_from(
    start: disk::Disk,
    p: history::PendingView,
    now: disk::Disk,
    op: journal::OperationView,
    i: int,
)
    requires
        op.recovering,
        now == (disk::Disk { work: now.work, ..start }),
        guarantees::framed(start, now, p),
        all_on_a_side(start, p),
        0 <= i <= p.change_set.files.len(),
    ensures
        recovering(start, p, now, op.apply_from(p, i)),
{
    reveal(journal::OperationView::apply_from);
    if i >= p.change_set.files.len() {
        lemma_confirm_from(start, p, now, op, 0, Seq::empty());
    }
}

proof fn lemma_recover_from(
    start: disk::Disk,
    p: history::PendingView,
    op: journal::OperationView,
    i: int,
    tally: journal::TallyView,
)
    requires
        op.recovering,
        0 <= i <= p.change_set.files.len(),
        tallied(start, p, i, tally),
    ensures
        recovering(start, p, start, op.recover_from(p, i, tally)),
{
    reveal(journal::OperationView::recover_from);
    reveal(journal::OperationView::decided);
    lemma_foreign(start, p, i);
    if i >= p.change_set.files.len() && tally.conflicts.len() == 0 {
        if tally.all_desired {
            lemma_confirm_from(start, p, start, op, 0, Seq::empty());
        } else if !tally.all_expected {
            lemma_apply_from(start, p, start, op, 0);
        }
    }
}

proof fn lemma_prune_from(
    start: disk::Disk,
    p: history::PendingView,
    now: disk::Disk,
    op: journal::OperationView,
    tip: u64,
    entries: Seq<journal::EntryResultView>,
    i: int,
    after: journal::AfterView,
)
    requires
        op.recovering,
        rewinding(start, now, p, tip, after),
        0 <= i <= entries.len(),
    ensures
        ({
            let next = op.prune_from(tip, entries, i, after);
            recovering(start, p, now, next) || resolved(start, p, now, next)
        }),
    decreases entries.len() - i,
{
    reveal(journal::OperationView::pruned);
    reveal(journal::OperationView::finished);
    if i < entries.len() && entries[i] is Ok {
        if !journal::is_outdated(entries[i]->Ok_0, tip) {
            lemma_prune_from(start, p, now, op, tip, entries, i + 1, after);
        }
    }
}

proof fn lemma_completed(
    start: disk::Disk,
    now: disk::Disk,
    after: disk::Disk,
    p: history::PendingView,
)
    requires
        completed(start, now, p),
        after == (disk::Disk { blobs: after.blobs, ..now }),
    ensures
        completed(start, after, p),
{
    assert(disk::Disk { blobs: start.blobs, ..after } == disk::Disk { blobs: start.blobs, ..now });
    assert forall|q: Seq<char>| !guarantees::touched(start, p, q) implies #[trigger] disk::same_at(
        start.work,
        after.work,
        q,
    ) by {
        assert(disk::same_at(start.work, now.work, q));
    }
}

pub proof fn lemma_step(
    store: history::StoreView,
    start: disk::Disk,
    p: history::PendingView,
    now: Scene,
    reply: journal::ReplyView,
    after: Scene,
)
    requires
        start.pending == Some(p),
        proper(p),
        recovering(start, p, now.disk, now.op),
        now.steps(store, reply, after),
    ensures
        recovering(start, p, after.disk, after.op) || resolved(start, p, after.disk, after.op),
        resolved(start, p, after.disk, after.op) ==> if now.op.stage is DropPending {
            taken_back(start, after.disk, p)
        } else {
            completed(start, after.disk, p)
        },
{
    let d = now.disk;
    let v = after.disk;
    let op = now.op;
    match op.stage {
        journal::StageView::MakeDirectories => {
            reveal(journal::OperationView::on_directories);
        },
        journal::StageView::ReadPending => {
            reveal(journal::OperationView::on_read_pending);
            lemma_recover_from(start, p, op, 0, journal::TallyView::start());
        },
        journal::StageView::Recover { pending, index, tally, expected, part } => {
            reveal(journal::OperationView::on_recover);
            let change = p.change_set.files[index];
            let side = if expected is None {
                SnapshotSide::Expected
            } else {
                SnapshotSide::Desired
            };
            let snapshot = p.side(change, side);
            guarantees::lemma_probed(d, change.path, snapshot, part, reply, v);
            if let Ok(Some(same)) = journal::probed(change.path, snapshot, part, reply) {
                assert(same == start.on_side(p, index, side));
                if let Some(e) = expected {
                    let next = tally.counted(change.path, e, same);
                    lemma_tallied(start, p, index, tally, e, same);
                    lemma_recover_from(start, p, op, index + 1, next);
                }
            }
        },
        journal::StageView::DropBlobs { pending } => {},
        journal::StageView::DropPending => {
            reveal(journal::OperationView::on_drop_pending);
            lemma_sides(start, p, SnapshotSide::Expected);
        },
        journal::StageView::Apply { pending, index, part } => {
            lemma_step_apply(store, start, p, now, reply, after);
        },
        journal::StageView::Confirm { pending, index, conflicts, part } => {
            reveal(journal::OperationView::on_confirm);
            let change = p.change_set.files[index];
            let snapshot = p.side(change, SnapshotSide::Desired);
            guarantees::lemma_probed(d, change.path, snapshot, part, reply, v);
            if let Ok(Some(same)) = journal::probed(change.path, snapshot, part, reply) {
                let list = if same {
                    conflicts
                } else {
                    conflicts.push(change.path)
                };
                lemma_confirm_from(start, p, d, op, index + 1, list);
            }
        },
        journal::StageView::ReadReplaced { pending } => {
            reveal(journal::OperationView::on_read_replaced);
        },
        journal::StageView::SaveTurn { pending, replaced } => {
            reveal(journal::OperationView::on_save_turn);
            lemma_same_work(start, d, v, p);
        },
        journal::StageView::SaveState { pending, replaced } => {
            reveal(journal::OperationView::on_save_state);
            lemma_same_work(start, d, v, p);
        },
        journal::StageView::ClearPending { pending, replaced } => {
            reveal(journal::OperationView::on_clear_pending);
            reveal(journal::OperationView::cleared);
            reveal(journal::OperationView::finished);
            lemma_same_work(start, d, v, p);
            if v.pending is None {
                assert(disk::Disk { blobs: start.blobs, ..v } == v);
                assert(completed(start, v, p));
            }
        },
        journal::StageView::DropReplaced { pending, replaced } => {
            lemma_completed(start, d, v, p);
        },
        journal::StageView::ListTurns { tip, after: then } => {
            reveal(journal::OperationView::on_list_turns);
            reveal(journal::OperationView::pruned);
            reveal(journal::OperationView::finished);
            if reply is Turns && reply->Turns_0 is Ok {
                lemma_prune_from(start, p, d, op, tip, reply->Turns_0->Ok_0, 0, then);
            }
        },
        journal::StageView::PruneRead { tip, entries, index, after: then } => {
            reveal(journal::OperationView::on_prune_read);
        },
        journal::StageView::PruneBlobs { tip, entries, index, after: then, outdated } => {
            lemma_completed(start, d, v, p);
        },
        journal::StageView::PruneRemove { tip, entries, index, after: then } => {
            reveal(journal::OperationView::on_prune_remove);
            history::turn_names_read_back(p.change_set.id);
            let name = entries[index]->Ok_0.name;
            assert(name != history::turn_name(p.change_set.id));
            assert(completed(start, v, p)) by {
                let a = disk::Disk { blobs: start.blobs, ..d };
                let b = disk::Disk { blobs: start.blobs, ..v };
                guarantees::lemma_all_on(a, b, p, SnapshotSide::Desired);
                assert forall|q: Seq<char>| !guarantees::touched(
                    start,
                    p,
                    q,
                ) implies #[trigger] disk::same_at(start.work, v.work, q) by {
                    assert(disk::same_at(start.work, d.work, q));
                }
            }
            if reply is Done && (reply->Done_0 is Ok || reply->Done_0->Err_0.kind
                == IoErrorKind::NotFound) {
                lemma_prune_from(start, p, v, op, tip, entries, index + 1, then);
            }
        },
        _ => {},
    }
}

proof fn lemma_same_work(
    start: disk::Disk,
    now: disk::Disk,
    after: disk::Disk,
    p: history::PendingView,
)
    requires
        guarantees::framed(start, now, p),
        guarantees::all_on(now, p, SnapshotSide::Desired),
        after.work == now.work,
        after.blobs == now.blobs,
    ensures
        guarantees::framed(start, after, p),
        guarantees::all_on(after, p, SnapshotSide::Desired),
{
    guarantees::lemma_all_on(now, after, p, SnapshotSide::Desired);
    assert forall|q: Seq<char>| !guarantees::touched(start, p, q) implies #[trigger] disk::same_at(
        start.work,
        after.work,
        q,
    ) by {
        assert(disk::same_at(start.work, now.work, q));
    }
}

proof fn lemma_step_apply(
    store: history::StoreView,
    start: disk::Disk,
    p: history::PendingView,
    now: Scene,
    reply: journal::ReplyView,
    after: Scene,
)
    requires
        now.op.stage is Apply,
        recovering(start, p, now.disk, now.op),
        now.steps(store, reply, after),
    ensures
        recovering(start, p, after.disk, after.op),
{
    reveal(journal::OperationView::on_apply);
    let d = now.disk;
    let v = after.disk;
    let op = now.op;
    if let journal::StageView::Apply { pending, index, part } = op.stage {
        let change = p.change_set.files[index];
        let plain = journal::plain_path(change.path);
        match part {
            ApplyPart::Write => {
                assert forall|q: Seq<char>| !guarantees::touched(
                    start,
                    p,
                    q,
                ) implies #[trigger] disk::same_at(start.work, v.work, q) by {
                    assert(p.change_set.files[index] == change);
                    assert(disk::same_at(start.work, d.work, q));
                    assert(!guarantees::bears_on(start, plain, q));
                    assert(disk::same_at(d.work, v.work, q));
                }
            },
            _ => {
                let (side, q) = match part {
                    ApplyPart::Desired(q) => (SnapshotSide::Desired, q),
                    ApplyPart::Expected(q) => (SnapshotSide::Expected, q),
                    ApplyPart::Write => (SnapshotSide::Expected, journal::Part::Nodes),
                    ApplyPart::Verify(q) => (SnapshotSide::Desired, q),
                };
                guarantees::lemma_probed(d, change.path, p.side(change, side), q, reply, v);
                lemma_apply_from(start, p, d, op, index + 1);
            },
        }
    }
}

/// The beginning of an operation, or of the opening of the journal.
pub open spec fn starting(op: journal::OperationView) -> bool {
    &&& op.recovering
    &&& op.stage is ReadPending || op.stage is MakeDirectories
}

pub proof fn lemma_recovery(
    store: history::StoreView,
    scenes: Seq<Scene>,
    p: history::PendingView,
    i: int,
)
    requires
        guarantees::is_run(store, scenes),
        starting(scenes[0].op),
        scenes[0].disk.pending == Some(p),
        proper(p),
        0 <= i < scenes.len(),
        forall|k: int| 0 <= k < i ==> (#[trigger] scenes[k]).op.recovering,
    ensures
        recovering(scenes[0].disk, p, scenes[i].disk, scenes[i].op) || resolved(
            scenes[0].disk,
            p,
            scenes[i].disk,
            scenes[i].op,
        ),
    decreases i,
{
    if i > 0 {
        lemma_recovery(store, scenes, p, i - 1);
        assert(scenes[i - 1].op.recovering);
        assert(scenes[i - 1].leads_to(store, scenes[i - 1 + 1]));
        let reply = choose|reply: journal::ReplyView| #[trigger]
            scenes[i - 1].steps(store, reply, scenes[i]);
        lemma_step(store, scenes[0].disk, p, scenes[i - 1], reply, scenes[i]);
    }
}

/// Whenever an operation goes past its recovery, the operation that an earlier process left
/// behind is either complete, with every file as it leaves it and the journal in its target
/// state, or taken back, with every file as it found it and the journal as it was.
pub proof fn interrupted_operations_are_completed_or_taken_back(
    store: history::StoreView,
    scenes: Seq<Scene>,
    p: history::PendingView,
    i: int,
)
    requires
        guarantees::is_run(store, scenes),
        starting(scenes[0].op),
        scenes[0].disk.pending == Some(p),
        proper(p),
        0 <= i < scenes.len(),
        forall|k: int| 0 <= k < i ==> (#[trigger] scenes[k]).op.recovering,
        !scenes[i].op.recovering,
    ensures
        completed(scenes[0].disk, scenes[i].disk, p) || taken_back(
            scenes[0].disk,
            scenes[i].disk,
            p,
        ),
{
    lemma_recovery(store, scenes, p, i);
}

/// Where a file of the interrupted operation is on neither of its sides, the recovery changes
/// nothing at all, and no operation gets past it.
pub proof fn recovery_leaves_foreign_edits_alone(
    store: history::StoreView,
    scenes: Seq<Scene>,
    p: history::PendingView,
    bad: int,
    i: int,
)
    requires
        guarantees::is_run(store, scenes),
        starting(scenes[0].op),
        scenes[0].disk.pending == Some(p),
        proper(p),
        0 <= bad < p.change_set.files.len(),
        !on_a_side(scenes[0].disk, p, bad),
        0 <= i < scenes.len(),
    ensures
        scenes[i].disk == scenes[0].disk,
        scenes[i].op.recovering,
    decreases i,
{
    let start = scenes[0].disk;
    assert forall|k: int| 0 <= k < i implies (#[trigger] scenes[k]).op.recovering by {
        recovery_leaves_foreign_edits_alone(store, scenes, p, bad, k);
    }
    lemma_recovery(store, scenes, p, i);
    assert(!guarantees::all_on(start, p, SnapshotSide::Expected)) by {
        if guarantees::all_on(start, p, SnapshotSide::Expected) {
            lemma_sides(start, p, SnapshotSide::Expected);
        }
    }
}

} // verus!
