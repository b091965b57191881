//! What the operations of the journal guarantee: whatever the disk replies, step by step.

use vstd::prelude::*;

use crate::course;
use crate::disk;
use crate::history;
use crate::history::{HistoryState, PendingKind, SnapshotSide};
use crate::io::IoErrorKind;
use crate::journal;
use crate::journal::{ApplyPart, Node, Part};
use crate::paths;

verus! {

// ---------------------------------------------------------------------------------------------
// Runs

/// An operation under way, and the disk below it.
pub struct Scene {
    pub disk: disk::Disk,
    pub op: journal::OperationView,
}

impl Scene {
    /// That `after` can follow: the disk performs the request, and the operation goes on with the
    /// reply.
    pub open spec fn leads_to(self, store: history::StoreView, after: Scene) -> bool {
        exists|reply: journal::ReplyView| #[trigger] self.steps(store, reply, after)
    }

    pub open spec fn steps(
        self,
        store: history::StoreView,
        reply: journal::ReplyView,
        after: Scene,
    ) -> bool {
        &&& self.op.request() is Some
        &&& self.disk.performs(self.op.request()->0, reply, after.disk)
        &&& after.op == self.op.next(store, reply)
    }
}

/// That each scene leads to the next.
pub open spec fn is_run(store: history::StoreView, scenes: Seq<Scene>) -> bool {
    &&& scenes.len() > 0
    &&& forall|i: int|
        0 <= i < scenes.len() - 1 ==> (#[trigger] scenes[i]).leads_to(store, scenes[i + 1])
}

/// An operation at its beginning.
pub open spec fn beginning(goal: journal::GoalView) -> journal::OperationView {
    journal::OperationView { goal, recovering: true, stage: journal::StageView::ReadPending }
}

// ---------------------------------------------------------------------------------------------
// What replies say

pub proof fn lemma_path_problem(plain: Seq<char>, stats: Seq<journal::StatView>)
    ensures
        journal::path_problem(plain, stats) matches Some(e) ==> e is Io || e is InvalidPath,
    decreases stats.len(),
{
    if stats.len() > 0 {
        lemma_path_problem(plain, stats.drop_last());
    }
}

pub proof fn lemma_looked_at(
    d: disk::Disk,
    path: Seq<char>,
    reply: journal::ReplyView,
    after: disk::Disk,
)
    requires
        d.performs(journal::stat_request(path), reply, after),
    ensures
        after == d,
        journal::looked_at(path, reply) matches Ok(node) ==> match node {
            Some(node) => d.seen(journal::plain_path(path), Ok(node)),
            None => !d.work.contains_key(journal::plain_path(path)),
        },
        journal::looked_at(path, reply) matches Err(e) ==> e is Io || e is InvalidPath,
{
    let plain = journal::plain_path(path);
    let way = paths::ancestry(plain);
    assert(way.last() == plain);
    if let journal::ReplyView::Stats(stats) = reply {
        assert(d.seen(way[way.len() - 1], stats[way.len() - 1]));
        lemma_path_problem(plain, stats);
    }
}

/// A comparison says whether the file is as in the snapshot.
pub proof fn lemma_probed(
    d: disk::Disk,
    path: Seq<char>,
    snapshot: history::SnapshotView,
    part: Part,
    reply: journal::ReplyView,
    after: disk::Disk,
)
    requires
        d.performs(journal::probe_request(path, snapshot, part), reply, after),
    ensures
        after == d,
        journal::probed(path, snapshot, part, reply) matches Ok(Some(same)) ==> same == d.holds(
            journal::plain_path(path),
            snapshot,
        ),
        journal::probed(path, snapshot, part, reply) matches Err(e) ==> e is Io
            || e is InvalidPath,
{
    if part == Part::Nodes || snapshot is Missing {
        lemma_looked_at(d, path, reply, after);
    }
}

// ---------------------------------------------------------------------------------------------
// User edits

/// At the moment a file is changed it holds what the operation expects there.
pub open spec fn about_to_write(d: disk::Disk, op: journal::OperationView) -> bool {
    match op.stage {
        journal::StageView::Apply { pending, index, part } => part == ApplyPart::Write
            ==> d.on_side(pending, index, SnapshotSide::Expected),
        _ => true,
    }
}

/// No operation, not even in the course of a recovery, changes a file of the workspace that does
/// not hold exactly what the operation expects there; and what it changes is that file, apart
/// from directories on the way and the companion of the replacement.
pub proof fn user_edits_are_never_overwritten(
    store: history::StoreView,
    scenes: Seq<Scene>,
    i: int,
    q: Seq<char>,
)
    requires
        is_run(store, scenes),
        !writing(scenes[0].op),
        0 <= i < scenes.len() - 1,
        !disk::same_at(scenes[i].disk.work, scenes[i + 1].disk.work, q),
    ensures
        scenes[i].op.stage matches journal::StageView::Apply { pending, index, part } && {
            let path = journal::plain_path(pending.change_set.files[index].path);
            &&& part == ApplyPart::Write
            &&& scenes[i].disk.on_side(pending, index, SnapshotSide::Expected)
            &&& q == path || disk::beside(path, q)
        },
{
    assert(scenes[i].leads_to(store, scenes[i + 1]));
    if i > 0 {
        assert(scenes[i - 1].leads_to(store, scenes[i - 1 + 1]));
        let reply = choose|reply: journal::ReplyView| #[trigger]
            scenes[i - 1].steps(store, reply, scenes[i]);
        lemma_about_to_write(store, scenes[i - 1], reply, scenes[i]);
    }
}

pub proof fn lemma_about_to_write(
    store: history::StoreView,
    before: Scene,
    reply: journal::ReplyView,
    after: Scene,
)
    requires
        before.steps(store, reply, after),
    ensures
        about_to_write(after.disk, after.op),
{
    course::lemma_follows(store, before.op, reply);
    if let journal::StageView::Apply { pending, index, part } = before.op.stage {
        if let ApplyPart::Expected(q) = part {
            let change = pending.change_set.files[index];
            lemma_probed(
                before.disk,
                change.path,
                pending.side(change, SnapshotSide::Expected),
                q,
                reply,
                after.disk,
            );
        }
    }
}

pub open spec fn writing(op: journal::OperationView) -> bool {
    op.stage matches journal::StageView::Apply { pending: _, index: _, part } && part
        == ApplyPart::Write
}

// ---------------------------------------------------------------------------------------------
// What an operation plans

/// That a snapshot is the contents of the file at a plain path when the operation began; its blob
/// is new.
pub open spec fn captured_before(
    start: disk::Disk,
    now: disk::Disk,
    plain: Seq<char>,
    before: history::SnapshotView,
) -> bool {
    match before {
        history::SnapshotView::Missing => !start.work.contains_key(plain),
        history::SnapshotView::Blob { id, len } => {
            &&& start.unknown(id)
            &&& now.blobs.contains_key(id)
            &&& now.blobs[id].len() == len
            &&& start.work.contains_key(plain)
            &&& start.work[plain] == disk::Item::File(now.blobs[id])
        },
    }
}

/// That a snapshot is what a mutation asks for; its blob is new.
pub open spec fn captured_after(
    start: disk::Disk,
    now: disk::Disk,
    contents: Option<Seq<u8>>,
    after: history::SnapshotView,
) -> bool {
    match (contents, after) {
        (None, history::SnapshotView::Missing) => true,
        (Some(bytes), history::SnapshotView::Blob { id, len }) => {
            &&& start.unknown(id)
            &&& now.blobs.contains_key(id)
            &&& now.blobs[id] == bytes
            &&& bytes.len() == len
        },
        _ => false,
    }
}

/// That a change is what a mutation comes to.
pub open spec fn captured_file(
    start: disk::Disk,
    now: disk::Disk,
    m: journal::MutationView,
    f: history::FileChangeView,
) -> bool {
    &&& paths::normalized(m.path) == Some(f.path)
    &&& captured_before(start, now, f.path, f.before)
    &&& captured_after(start, now, m.contents, f.after)
}

/// That `p` is what an operation with the given goal has to do from the disk `start` on.
pub open spec fn plan(
    start: disk::Disk,
    now: disk::Disk,
    goal: journal::GoalView,
    p: history::PendingView,
) -> bool {
    let state = start.history_state();
    match goal {
        journal::GoalView::Record(mutations) => {
            &&& p == journal::commit_of(state, p.change_set.files)
            &&& p.change_set.files.len() == mutations.len()
            &&& forall|i: int|
                0 <= i < mutations.len() ==> captured_file(
                    start,
                    now,
                    #[trigger] mutations[i],
                    p.change_set.files[i],
                )
        },
        journal::GoalView::Undo => {
            &&& now.blobs == start.blobs
            &&& state.cursor > 0
            &&& start.turn(state.cursor) is Some
            &&& p == journal::replay(
                PendingKind::Undo,
                start.turn(state.cursor)->0,
                HistoryState { cursor: (state.cursor - 1) as u64, tip: state.tip },
            )
        },
        journal::GoalView::Redo => {
            let next = (state.cursor + 1) as u64;
            &&& now.blobs == start.blobs
            &&& state.cursor < state.tip
            &&& start.turn(next) is Some
            &&& p == journal::replay(
                PendingKind::Redo,
                start.turn(next)->0,
                HistoryState { cursor: next, tip: state.tip },
            )
        },
        _ => false,
    }
}

/// That an operation can begin with nothing left of an earlier one: no operation is pending, and
/// the transactions that the state speaks of can be read, from their backups if need be.
pub open spec fn quiet(start: disk::Disk, goal: journal::GoalView) -> bool {
    let state = start.history_state();
    &&& start.pending is None
    &&& match goal {
        journal::GoalView::Record(mutations) => forall|i: int|
            0 <= i < mutations.len() ==> ((#[trigger] mutations[i]).contents matches Some(bytes)
                ==> bytes.len() <= u64::MAX),
        journal::GoalView::Undo => state.cursor > 0 ==> start.turn(state.cursor) is Some,
        journal::GoalView::Redo => state.cursor < state.tip ==> start.turn(
            (state.cursor + 1) as u64,
        ) is Some,
        _ => false,
    }
}

/// The paths among the first `n` files that are not as on the given side.
pub open spec fn mismatches(
    d: disk::Disk,
    p: history::PendingView,
    n: int,
    side: SnapshotSide,
) -> Seq<Seq<char>>
    decreases n,
{
    if n <= 0 {
        Seq::empty()
    } else if d.on_side(p, n - 1, side) {
        mismatches(d, p, n - 1, side)
    } else {
        mismatches(d, p, n - 1, side).push(p.change_set.files[n - 1].path)
    }
}

pub proof fn lemma_no_mismatch(d: disk::Disk, p: history::PendingView, n: int, side: SnapshotSide)
    ensures
        mismatches(d, p, n, side).len() == 0 <==> forall|j: int|
            0 <= j < n ==> #[trigger] d.on_side(p, j, side),
    decreases n,
{
    if n > 0 {
        lemma_no_mismatch(d, p, n - 1, side);
        if mismatches(d, p, n, side).len() != 0 && forall|j: int|
            0 <= j < n ==> #[trigger] d.on_side(p, j, side) {
            assert(d.on_side(p, n - 1, side));
        }
    }
}

/// That all files of an operation are as on the given side.
pub open spec fn all_on(d: disk::Disk, p: history::PendingView, side: SnapshotSide) -> bool {
    forall|j: int| 0 <= j < p.change_set.files.len() ==> #[trigger] d.on_side(p, j, side)
}

/// The disk as it was at the start, with the blobs of now.
pub open spec fn back_then(start: disk::Disk, now: disk::Disk) -> disk::Disk {
    disk::Disk { blobs: now.blobs, ..start }
}

/// That an operation may change `q`, as it is a file of the operation, a companion or a temporary
/// file of one, or a directory on the way to one that is missing at the start.
pub open spec fn touched(start: disk::Disk, p: history::PendingView, q: Seq<char>) -> bool {
    exists|j: int|
        0 <= j < p.change_set.files.len() && bears_on(
            start,
            journal::plain_path((#[trigger] p.change_set.files[j]).path),
            q,
        )
}

/// That the change of the file at `path` may change `q`: what is there stays, but for the file and
/// its companion.
pub open spec fn bears_on(start: disk::Disk, path: Seq<char>, q: Seq<char>) -> bool {
    ||| q == path
    ||| q == disk::companion_of(path)
    ||| disk::beside(path, q) && !start.work.contains_key(q)
}

/// That the workspace is as at the start but for what the operation may change.
pub open spec fn framed(start: disk::Disk, now: disk::Disk, p: history::PendingView) -> bool {
    forall|q: Seq<char>|
        !touched(start, p, q) ==> #[trigger] disk::same_at(start.work, now.work, q)
}

/// The transactions once the operation has recorded its own.
pub open spec fn recorded(start: disk::Disk, p: history::PendingView) -> Map<
    Seq<char>,
    history::ChangeSetView,
> {
    if p.kind == PendingKind::Commit {
        start.turns.insert(history::turn_name(p.change_set.id), p.change_set)
    } else {
        start.turns
    }
}

/// That the operation has recorded its own transaction, and nothing else about transactions has
/// changed.
pub open spec fn noted(start: disk::Disk, now: disk::Disk, p: history::PendingView) -> bool {
    &&& now.turns == recorded(start, p)
    &&& p.kind != PendingKind::Commit ==> now == now.with_turns_of(start)
    &&& backups_stay(start, now, p)
}

/// That the backups of the other transactions are as at the start.
pub open spec fn backups_stay(start: disk::Disk, now: disk::Disk, p: history::PendingView) -> bool {
    forall|name: Seq<char>|
        name != history::turn_name(p.change_set.id) ==> #[trigger] disk::same_at(
            start.turn_backups,
            now.turn_backups,
            name,
        )
}

/// That an operation knows what to do and has changed nothing but blobs.
pub open spec fn planned(
    start: disk::Disk,
    now: disk::Disk,
    goal: journal::GoalView,
    p: history::PendingView,
) -> bool {
    &&& start.but_for_blobs(now)
    &&& start.blobs.submap_of(now.blobs)
    &&& plan(start, now, goal, p)
}

/// That an operation is carried out: it is the plan, its files were as expected at the start, and
/// the rest of the workspace is untouched.
pub open spec fn carried_out(
    start: disk::Disk,
    now: disk::Disk,
    goal: journal::GoalView,
    p: history::PendingView,
) -> bool {
    &&& plan(start, now, goal, p)
    &&& all_on(back_then(start, now), p, SnapshotSide::Expected)
    &&& framed(start, now, p)
}

/// That an operation is on record as pending, and its files are being changed.
pub open spec fn begun(
    start: disk::Disk,
    now: disk::Disk,
    goal: journal::GoalView,
    p: history::PendingView,
) -> bool {
    &&& now == (disk::Disk { work: now.work, blobs: now.blobs, pending: Some(p), ..start })
    &&& start.blobs.submap_of(now.blobs)
    &&& carried_out(start, now, goal, p)
}

/// That a transaction file neither is the operation's own nor outdated by it.
pub open spec fn lasting(p: history::PendingView, name: Seq<char>) -> bool {
    &&& name != history::turn_name(p.change_set.id)
    &&& history::turn_id(name) matches Some(id) ==> id <= p.target.tip
}

/// That an operation is complete: the journal is in the target state, nothing is pending, all
/// files are as desired, and the transactions that last are kept.
pub open spec fn settled(
    start: disk::Disk,
    now: disk::Disk,
    goal: journal::GoalView,
    p: history::PendingView,
) -> bool {
    &&& now.pending is None
    &&& now.state == Some(p.target)
    &&& carried_out(start, now, goal, p)
    &&& all_on(now, p, SnapshotSide::Desired)
    &&& p.kind != PendingKind::Commit ==> now == now.with_turns_of(start) && now.blobs
        == start.blobs
    &&& backups_stay(start, now, p)
    &&& p.kind == PendingKind::Commit ==> {
        &&& now.turns.contains_key(history::turn_name(p.change_set.id))
        &&& now.turns[history::turn_name(p.change_set.id)] == p.change_set
        &&& forall|name: Seq<char>|
            lasting(p, name) ==> #[trigger] disk::same_at(start.turns, now.turns, name)
        &&& forall|name: Seq<char>| #[trigger]
            now.turns.contains_key(name) && name != history::turn_name(p.change_set.id)
                ==> disk::same_at(start.turns, now.turns, name)
    }
}

// ---------------------------------------------------------------------------------------------
// The invariant of an operation

pub open spec fn capturing(
    start: disk::Disk,
    now: disk::Disk,
    goal: journal::GoalView,
    state: HistoryState,
    index: int,
    plain: Seq<Seq<char>>,
    files: Seq<history::FileChangeView>,
) -> bool {
    &&& goal matches journal::GoalView::Record(mutations) && {
        &&& state == start.history_state()
        &&& start.but_for_blobs(now)
        &&& start.blobs.submap_of(now.blobs)
        &&& plain.len() == mutations.len()
        &&& forall|j: int|
            0 <= j < mutations.len() ==> paths::normalized((#[trigger] mutations[j]).path) == Some(
                plain[j],
            )
        &&& files.len() == index
        &&& forall|j: int|
            0 <= j < index ==> captured_file(start, now, #[trigger] mutations[j], files[j])
    }
}

pub open spec fn capture_part(
    start: disk::Disk,
    now: disk::Disk,
    plain: Seq<char>,
    part: journal::CapturePartView,
) -> bool {
    match part {
        journal::CapturePartView::Nodes => true,
        journal::CapturePartView::CopyId { len } => now.seen(plain, Ok(Node::File { len })),
        journal::CapturePartView::Copy { len, id } => {
            &&& now.seen(plain, Ok(Node::File { len }))
            &&& now.unknown(id)
        },
        journal::CapturePartView::StoreId { before } => captured_before(start, now, plain, before),
        journal::CapturePartView::Store { before, id } => {
            &&& captured_before(start, now, plain, before)
            &&& now.unknown(id)
        },
    }
}

/// What holds at each stage of an operation that began in quiet.
pub open spec fn sound(
    start: disk::Disk,
    goal: journal::GoalView,
    now: disk::Disk,
    op: journal::OperationView,
) -> bool {
    let state = start.history_state();
    &&& op.goal == goal
    &&& op.wf()
    &&& match op.stage {
        journal::StageView::ReadPending => now == start,
        journal::StageView::LoadState { primary } => {
            &&& !op.recovering
            &&& now == start
            &&& primary matches Some(e) ==> start.state is None && (e.kind == IoErrorKind::NotFound
                <==> !start.state_damaged)
        },
        journal::StageView::LoadTurn { kind, id, target, primary } => {
            &&& !op.recovering
            &&& now == start
            &&& primary is Some ==> !start.turns.contains_key(history::turn_name(id))
            &&& match goal {
                journal::GoalView::Undo => {
                    &&& state.cursor > 0
                    &&& kind == PendingKind::Undo
                    &&& id == state.cursor
                    &&& target == (HistoryState {
                        cursor: (state.cursor - 1) as u64,
                        tip: state.tip,
                    })
                },
                journal::GoalView::Redo => {
                    &&& state.cursor < state.tip
                    &&& kind == PendingKind::Redo
                    &&& id == state.cursor + 1
                    &&& target == (HistoryState {
                        cursor: (state.cursor + 1) as u64,
                        tip: state.tip,
                    })
                },
                _ => false,
            }
        },
        journal::StageView::Validate { state: s, index, plain } => {
            &&& !op.recovering
            &&& now == start
            &&& s == state
            &&& forall|j: int|
                0 <= j <= index ==> paths::normalized((#[trigger] op.mutations()[j]).path) == Some(
                    plain[j],
                )
        },
        journal::StageView::Capture { state: s, index, plain, files, part } => {
            &&& !op.recovering
            &&& capturing(start, now, goal, s, index, plain, files)
            &&& capture_part(start, now, plain[index], part)
        },
        journal::StageView::CleanUp { error, blobs } => {
            &&& !op.recovering
            &&& goal is Record
            &&& start.but_for_blobs(now)
            &&& forall|id: Seq<char>| blobs.contains(id) ==> !start.blobs.contains_key(id)
            &&& start.blobs.submap_of(now.blobs)
            &&& error is Io || error is InvalidPath
        },
        journal::StageView::Check { pending, index, conflicts, part: _ } => {
            &&& !op.recovering
            &&& planned(start, now, goal, pending)
            &&& conflicts == mismatches(now, pending, index, SnapshotSide::Expected)
        },
        journal::StageView::SavePending { pending } => {
            &&& !op.recovering
            &&& planned(start, now, goal, pending)
            &&& all_on(now, pending, SnapshotSide::Expected)
        },
        journal::StageView::Apply { pending, index: _, part: _ } => {
            &&& !op.recovering
            &&& begun(start, now, goal, pending)
        },
        journal::StageView::Confirm { pending, index, conflicts, part: _ } => {
            &&& !op.recovering
            &&& begun(start, now, goal, pending)
            &&& conflicts == mismatches(now, pending, index, SnapshotSide::Desired)
        },
        journal::StageView::ReadReplaced { pending } => {
            &&& !op.recovering
            &&& pending.kind == PendingKind::Commit
            &&& begun(start, now, goal, pending)
            &&& all_on(now, pending, SnapshotSide::Desired)
        },
        journal::StageView::SaveTurn { pending, replaced } => {
            &&& !op.recovering
            &&& pending.kind == PendingKind::Commit
            &&& begun(start, now, goal, pending)
            &&& all_on(now, pending, SnapshotSide::Desired)
            &&& replaced_was(start, pending, replaced)
        },
        journal::StageView::SaveState { pending, replaced } => {
            &&& !op.recovering
            &&& noted(start, now, pending)
            &&& begun(start, now.with_turns_of(start), goal, pending)
            &&& all_on(now, pending, SnapshotSide::Desired)
            &&& replaced_was(start, pending, replaced)
        },
        journal::StageView::ClearPending { pending, replaced } => {
            &&& !op.recovering
            &&& now.pending == Some(pending)
            &&& now.state == Some(pending.target)
            &&& noted(start, now, pending)
            &&& start.blobs.submap_of(now.blobs)
            &&& pending.kind != PendingKind::Commit ==> now.blobs == start.blobs
            &&& carried_out(start, now, goal, pending)
            &&& all_on(now, pending, SnapshotSide::Desired)
            &&& replaced_was(start, pending, replaced)
        },
        journal::StageView::DropReplaced { pending, replaced } => {
            &&& !op.recovering
            &&& pending.kind == PendingKind::Commit
            &&& settled(start, now, goal, pending)
            &&& replaced_was(start, pending, Some(replaced))
        },
        journal::StageView::ListTurns { tip, after } => pruning(start, now, goal, op, tip, after),
        journal::StageView::PruneRead { tip, entries, index, after } => {
            &&& pruning(start, now, goal, op, tip, after)
            &&& journal::is_outdated(entries[index]->Ok_0, tip)
        },
        journal::StageView::PruneBlobs { tip, entries, index, after, outdated } => {
            &&& pruning(start, now, goal, op, tip, after)
            &&& journal::is_outdated(entries[index]->Ok_0, tip)
            &&& start.turns.contains_key(entries[index]->Ok_0.name)
            &&& start.turns[entries[index]->Ok_0.name] == outdated
        },
        journal::StageView::PruneRemove { tip, entries, index, after } => {
            &&& pruning(start, now, goal, op, tip, after)
            &&& journal::is_outdated(entries[index]->Ok_0, tip)
        },
        journal::StageView::Done(Ok(outcome)) => exists|p: history::PendingView|
            outcome == journal::OutcomeView::Applied(p.change_set) && #[trigger] settled(
                start,
                now,
                goal,
                p,
            ),
        journal::StageView::Done(Err(e)) => refused(start, now, goal, e),
        _ => false,
    }
}

pub open spec fn replaced_was(
    start: disk::Disk,
    p: history::PendingView,
    replaced: Option<history::ChangeSetView>,
) -> bool {
    replaced matches Some(c) ==> start.turns.contains_key(history::turn_name(p.change_set.id))
        && start.turns[history::turn_name(p.change_set.id)] == c
}

pub open spec fn pruning(
    start: disk::Disk,
    now: disk::Disk,
    goal: journal::GoalView,
    op: journal::OperationView,
    tip: u64,
    after: journal::AfterView,
) -> bool {
    &&& !op.recovering
    &&& after matches journal::AfterView::Finish(p) && {
        &&& p.kind == PendingKind::Commit
        &&& tip == p.target.tip
        &&& settled(start, now, goal, p)
    }
}

/// What holds once an operation has failed: either it is on record as pending, or the failure is
/// one of the file system, or nothing but blobs has changed, and a conflict names the files that
/// were not as expected.
pub open spec fn refused(
    start: disk::Disk,
    now: disk::Disk,
    goal: journal::GoalView,
    e: history::HistoryErrorView,
) -> bool {
    match now.pending {
        Some(p) => carried_out(start, now, goal, p),
        None => (goal is Record || now == start) && (e is Io || {
            &&& start.but_for_blobs(now)
            &&& start.blobs.submap_of(now.blobs)
            &&& e matches history::HistoryErrorView::Conflict(list) ==> exists|
                p: history::PendingView,
            | #[trigger] planned(start, now, goal, p) && list.len() > 0 && list == mismatches(
                now,
                p,
                p.change_set.files.len() as int,
                SnapshotSide::Expected,
            )
            &&& e is InvalidPath && !(goal is Record) ==> exists|p: history::PendingView| #[trigger]
                planned(start, now, goal, p)
            &&& e is NothingToUndo ==> goal is Undo && start.history_state().cursor == 0
            &&& e is NothingToRedo ==> goal is Redo && start.history_state().cursor
                >= start.history_state().tip
        }),
    }
}

// ---------------------------------------------------------------------------------------------
// Each step keeps the invariant

proof fn lemma_check_from(
    start: disk::Disk,
    goal: journal::GoalView,
    now: disk::Disk,
    op: journal::OperationView,
    p: history::PendingView,
    i: int,
    conflicts: Seq<Seq<char>>,
)
    requires
        op.goal == goal,
        !op.recovering,
        planned(start, now, goal, p),
        0 <= i <= p.change_set.files.len(),
        conflicts == mismatches(now, p, i, SnapshotSide::Expected),
        start.pending is None,
    ensures
        sound(start, goal, now, op.check_from(p, i, conflicts)),
{
    reveal(journal::OperationView::check_from);
    lemma_no_mismatch(now, p, i, SnapshotSide::Expected);
}

proof fn lemma_confirm_from(
    start: disk::Disk,
    goal: journal::GoalView,
    now: disk::Disk,
    op: journal::OperationView,
    p: history::PendingView,
    i: int,
    conflicts: Seq<Seq<char>>,
)
    requires
        op.goal == goal,
        !op.recovering,
        begun(start, now, goal, p),
        0 <= i <= p.change_set.files.len(),
        conflicts == mismatches(now, p, i, SnapshotSide::Desired),
    ensures
        sound(start, goal, now, op.confirm_from(p, i, conflicts)),
{
    reveal(journal::OperationView::confirm_from);
    lemma_no_mismatch(now, p, i, SnapshotSide::Desired);
    assert(now.with_turns_of(start) == now);
}

proof fn lemma_apply_from(
    start: disk::Disk,
    goal: journal::GoalView,
    now: disk::Disk,
    op: journal::OperationView,
    p: history::PendingView,
    i: int,
)
    requires
        op.goal == goal,
        !op.recovering,
        begun(start, now, goal, p),
        0 <= i <= p.change_set.files.len(),
    ensures
        sound(start, goal, now, op.apply_from(p, i)),
{
    reveal(journal::OperationView::apply_from);
    if i >= p.change_set.files.len() {
        lemma_confirm_from(start, goal, now, op, p, 0, Seq::empty());
    }
}

proof fn lemma_capture_from(
    start: disk::Disk,
    goal: journal::GoalView,
    now: disk::Disk,
    op: journal::OperationView,
    state: HistoryState,
    i: int,
    plain: Seq<Seq<char>>,
    files: Seq<history::FileChangeView>,
)
    requires
        op.goal == goal,
        !op.recovering,
        0 <= i <= plain.len(),
        capturing(start, now, goal, state, i, plain, files),
        start.pending is None,
    ensures
        sound(start, goal, now, op.capture_from(state, i, plain, files)),
{
    reveal(journal::OperationView::capture_from);
    if i >= plain.len() {
        let p = journal::commit_of(state, files);
        assert(planned(start, now, goal, p));
        lemma_check_from(start, goal, now, op, p, 0, Seq::empty());
    }
}

proof fn lemma_captured(
    start: disk::Disk,
    goal: journal::GoalView,
    now: disk::Disk,
    op: journal::OperationView,
    state: HistoryState,
    i: int,
    plain: Seq<Seq<char>>,
    files: Seq<history::FileChangeView>,
    before: history::SnapshotView,
)
    requires
        op.goal == goal,
        !op.recovering,
        0 <= i < plain.len(),
        capturing(start, now, goal, state, i, plain, files),
        captured_before(start, now, plain[i], before),
        start.pending is None,
    ensures
        sound(start, goal, now, op.captured(state, i, plain, files, before)),
{
    reveal(journal::OperationView::captured);
    let m = op.mutations()[i];
    if m.contents is None {
        let f = history::FileChangeView {
            path: plain[i],
            before,
            after: history::SnapshotView::Missing,
        };
        assert(captured_file(start, now, m, f));
        lemma_capture_from(start, goal, now, op, state, i + 1, plain, files.push(f));
    }
}

proof fn lemma_validate_from(
    start: disk::Disk,
    goal: journal::GoalView,
    op: journal::OperationView,
    state: HistoryState,
    i: int,
    plain: Seq<Seq<char>>,
)
    requires
        op.goal == goal,
        goal is Record,
        !op.recovering,
        state == start.history_state(),
        plain.len() == i,
        i <= op.mutations().len(),
        forall|j: int|
            0 <= j < i ==> paths::normalized((#[trigger] op.mutations()[j]).path) == Some(
                plain[j],
            ),
        start.pending is None,
    ensures
        sound(start, goal, start, op.validate_from(state, i, plain)),
{
    reveal(journal::OperationView::validate_from);
    if i >= op.mutations().len() {
        lemma_capture_from(start, goal, start, op, state, 0, plain, Seq::empty());
    }
}

proof fn lemma_loaded(start: disk::Disk, goal: journal::GoalView, op: journal::OperationView)
    requires
        op.goal == goal,
        !op.recovering,
        quiet(start, goal),
    ensures
        sound(start, goal, start, op.loaded(start.history_state())),
{
    reveal(journal::OperationView::loaded);
    if goal is Record {
        lemma_validate_from(start, goal, op, start.history_state(), 0, Seq::empty());
    }
}

proof fn lemma_finished(
    start: disk::Disk,
    goal: journal::GoalView,
    now: disk::Disk,
    op: journal::OperationView,
    p: history::PendingView,
)
    requires
        op.goal == goal,
        !op.recovering,
        settled(start, now, goal, p),
    ensures
        sound(start, goal, now, op.finished(p)),
{
    reveal(journal::OperationView::finished);
}

proof fn lemma_prune_from(
    start: disk::Disk,
    goal: journal::GoalView,
    now: disk::Disk,
    op: journal::OperationView,
    tip: u64,
    entries: Seq<journal::EntryResultView>,
    i: int,
    after: journal::AfterView,
)
    requires
        op.goal == goal,
        pruning(start, now, goal, op, tip, after),
        0 <= i <= entries.len(),
    ensures
        sound(start, goal, now, op.prune_from(tip, entries, i, after)),
    decreases entries.len() - i,
{
    if i >= entries.len() {
        reveal(journal::OperationView::pruned);
        lemma_finished(start, goal, now, op, after->Finish_0);
    } else if entries[i] is Ok {
        if !journal::is_outdated(entries[i]->Ok_0, tip) {
            lemma_prune_from(start, goal, now, op, tip, entries, i + 1, after);
        }
    }
}

pub proof fn lemma_blobs_refer(files: Seq<history::FileChangeView>, id: Seq<char>)
    requires
        history::files_blobs(files).contains(id),
    ensures
        disk::files_refer(files, id),
    decreases files.len(),
{
    if files.len() > 0 {
        let init = files.drop_last();
        let list = history::files_blobs(files);
        let k = choose|k: int| 0 <= k < list.len() && list[k] == id;
        let a = history::files_blobs(init);
        let b = history::snapshot_blobs(files.last().before);
        if k < a.len() {
            assert(a[k] == id);
            lemma_blobs_refer(init, id);
            let i = choose|i: int|
                0 <= i < init.len() && (disk::refers((#[trigger] init[i]).before, id)
                    || disk::refers(init[i].after, id));
            assert(files[i] == init[i]);
        } else if k < a.len() + b.len() {
            assert(b[k - a.len()] == id);
            assert(disk::refers(files[files.len() - 1].before, id));
        } else {
            assert(history::snapshot_blobs(files.last().after)[k - a.len() - b.len()] == id);
            assert(disk::refers(files[files.len() - 1].after, id));
        }
    }
}

/// Dropping blobs that earlier transactions refer to takes none of a commit's own.
proof fn lemma_discard(
    start: disk::Disk,
    goal: journal::GoalView,
    now: disk::Disk,
    after: disk::Disk,
    p: history::PendingView,
    name: Seq<char>,
    reply: journal::ReplyView,
)
    requires
        settled(start, now, goal, p),
        p.kind == PendingKind::Commit,
        start.turns.contains_key(name),
        now.performs(
            journal::RequestView::Discard {
                blobs: history::files_blobs(start.turns[name].files),
            },
            reply,
            after,
        ),
    ensures
        settled(start, after, goal, p),
{
    let list = history::files_blobs(start.turns[name].files);
    assert forall|id: Seq<char>| start.unknown(id) implies disk::same_at(
        now.blobs,
        after.blobs,
        id,
    ) by {
        if list.contains(id) {
            lemma_blobs_refer(start.turns[name].files, id);
        }
    }
    let mutations = goal->Record_0;
    assert forall|i: int| 0 <= i < mutations.len() implies captured_file(
        start,
        after,
        #[trigger] mutations[i],
        p.change_set.files[i],
    ) by {
        let f = p.change_set.files[i];
        assert(captured_file(start, now, mutations[i], f));
        if let history::SnapshotView::Blob { id, len } = f.before {
            assert(disk::same_at(now.blobs, after.blobs, id));
        }
        if let history::SnapshotView::Blob { id, len } = f.after {
            assert(disk::same_at(now.blobs, after.blobs, id));
        }
    }
    assert forall|j: int| 0 <= j < p.change_set.files.len() implies #[trigger] after.on_side(
        p,
        j,
        SnapshotSide::Desired,
    ) by {
        assert(now.on_side(p, j, SnapshotSide::Desired));
        assert(captured_file(start, now, mutations[j], p.change_set.files[j]));
        if let history::SnapshotView::Blob { id, len } = p.change_set.files[j].after {
            assert(disk::same_at(now.blobs, after.blobs, id));
        }
    }
    let then = back_then(start, after);
    assert forall|j: int| 0 <= j < p.change_set.files.len() implies #[trigger] then.on_side(
        p,
        j,
        SnapshotSide::Expected,
    ) by {
        assert(back_then(start, now).on_side(p, j, SnapshotSide::Expected));
        assert(captured_file(start, now, mutations[j], p.change_set.files[j]));
        if let history::SnapshotView::Blob { id, len } = p.change_set.files[j].before {
            assert(disk::same_at(now.blobs, after.blobs, id));
        }
    }
}

/// New blobs leave what was captured as it is.
pub proof fn lemma_capturing_grows(
    start: disk::Disk,
    now: disk::Disk,
    after: disk::Disk,
    goal: journal::GoalView,
    state: HistoryState,
    i: int,
    plain: Seq<Seq<char>>,
    files: Seq<history::FileChangeView>,
)
    requires
        capturing(start, now, goal, state, i, plain, files),
        now.but_for_blobs(after),
        now.blobs.submap_of(after.blobs),
    ensures
        capturing(start, after, goal, state, i, plain, files),
        forall|q: Seq<char>, b: history::SnapshotView|
            captured_before(start, now, q, b) ==> #[trigger] captured_before(start, after, q, b),
{
    let mutations = goal->Record_0;
    assert forall|id: Seq<char>| #[trigger] start.blobs.contains_key(id) implies
        after.blobs.contains_key(id) && after.blobs[id] == start.blobs[id] by {
        assert(now.blobs.contains_key(id));
    }
    assert(start.blobs.submap_of(after.blobs));
    assert(start.but_for_blobs(after));
    assert forall|j: int| 0 <= j < i implies captured_file(
        start,
        after,
        #[trigger] mutations[j],
        files[j],
    ) by {
        assert(captured_file(start, now, mutations[j], files[j]));
    }
}

proof fn lemma_step_capture(
    store: history::StoreView,
    start: disk::Disk,
    goal: journal::GoalView,
    now: Scene,
    reply: journal::ReplyView,
    after: Scene,
)
    requires
        now.op.stage is Capture,
        quiet(start, goal),
        sound(start, goal, now.disk, now.op),
        now.steps(store, reply, after),
    ensures
        sound(start, goal, after.disk, after.op),
{
    reveal(journal::OperationView::on_capture);
    let d = now.disk;
    let op = now.op;
    if let journal::StageView::Capture { state, index, plain, files, part } = op.stage {
        let m = op.mutations()[index];
        assert(paths::normalized(m.path) == Some(plain[index]));
        assert forall|id: Seq<char>| d.unknown(id) implies start.unknown(id) by {}
        assert forall|id: Seq<char>| history::files_blobs(files).contains(id) implies
            !start.blobs.contains_key(id) by {
            lemma_blobs_refer(files, id);
            let j = choose|j: int|
                0 <= j < files.len() && (disk::refers((#[trigger] files[j]).before, id)
                    || disk::refers(files[j].after, id));
            assert(captured_file(start, d, op.mutations()[j], files[j]));
        }
        match part {
            journal::CapturePartView::Nodes => {
                lemma_looked_at(d, m.path, reply, after.disk);
                if journal::looked_at(m.path, reply) == Ok::<
                    Option<Node>,
                    history::HistoryErrorView,
                >(None) {
                    lemma_captured(
                        start,
                        goal,
                        d,
                        op,
                        state,
                        index,
                        plain,
                        files,
                        history::SnapshotView::Missing,
                    );
                }
            },
            journal::CapturePartView::CopyId { len } => {},
            journal::CapturePartView::Copy { len, id } => {
                assert(d.blobs.submap_of(after.disk.blobs));
                lemma_capturing_grows(start, d, after.disk, goal, state, index, plain, files);
                if reply is Done && reply->Done_0 is Ok {
                    let before = history::SnapshotView::Blob { id, len };
                    assert(captured_before(start, after.disk, plain[index], before));
                    lemma_captured(
                        start,
                        goal,
                        after.disk,
                        op,
                        state,
                        index,
                        plain,
                        files,
                        before,
                    );
                }
            },
            journal::CapturePartView::StoreId { before } => {},
            journal::CapturePartView::Store { before, id } => {
                assert(d.blobs.submap_of(after.disk.blobs));
                lemma_capturing_grows(start, d, after.disk, goal, state, index, plain, files);
                if reply is Done && reply->Done_0 is Ok {
                    let f = history::FileChangeView {
                        path: plain[index],
                        before,
                        after: history::SnapshotView::Blob { id, len: m.contents->0.len() as u64 },
                    };
                    assert(captured_before(start, after.disk, plain[index], before));
                    assert(captured_file(start, after.disk, m, f));
                    lemma_capture_from(
                        start,
                        goal,
                        after.disk,
                        op,
                        state,
                        index + 1,
                        plain,
                        files.push(f),
                    );
                } else if reply is Done {
                    let list = history::snapshot_blobs(before) + history::files_blobs(files);
                    assert forall|x: Seq<char>| list.contains(x) implies
                        !start.blobs.contains_key(x) by {
                        let k = choose|k: int| 0 <= k < list.len() && list[k] == x;
                        let n = history::snapshot_blobs(before).len();
                        if k >= n {
                            assert(history::files_blobs(files)[k - n] == x);
                            assert(history::files_blobs(files).contains(x));
                        }
                    }
                }
            },
        }
    }
}

proof fn lemma_step_apply(
    store: history::StoreView,
    start: disk::Disk,
    goal: journal::GoalView,
    now: Scene,
    reply: journal::ReplyView,
    after: Scene,
)
    requires
        now.op.stage is Apply,
        quiet(start, goal),
        sound(start, goal, now.disk, now.op),
        now.steps(store, reply, after),
    ensures
        sound(start, goal, after.disk, after.op),
{
    reveal(journal::OperationView::on_apply);
    let d = now.disk;
    let op = now.op;
    if let journal::StageView::Apply { pending, index, part } = op.stage {
        let change = pending.change_set.files[index];
        let plain = journal::plain_path(change.path);
        match part {
            ApplyPart::Write => {
                assert(pending.change_set.files[index] == change);
                assert forall|q: Seq<char>| !touched(start, pending, q) implies
                    #[trigger] disk::same_at(start.work, after.disk.work, q) by {
                    assert(disk::same_at(start.work, d.work, q));
                    assert(!bears_on(start, plain, q));
                    assert(disk::same_at(d.work, after.disk.work, q));
                }
                assert(back_then(start, after.disk) == back_then(start, d));
                lemma_plan_blobs(start, d, after.disk, goal, pending);
                assert(begun(start, after.disk, goal, pending));
            },
            _ => {
                let (snapshot, q) = match part {
                    ApplyPart::Desired(q) => (pending.side(change, SnapshotSide::Desired), q),
                    ApplyPart::Expected(q) => (pending.side(change, SnapshotSide::Expected), q),
                    ApplyPart::Write => (change.before, Part::Nodes),
                    ApplyPart::Verify(q) => (pending.side(change, SnapshotSide::Desired), q),
                };
                lemma_probed(d, change.path, snapshot, q, reply, after.disk);
                lemma_apply_from(start, goal, d, op, pending, index + 1);
            },
        }
    }
}

/// A plan rests on the blobs alone.
proof fn lemma_plan_blobs(
    start: disk::Disk,
    now: disk::Disk,
    after: disk::Disk,
    goal: journal::GoalView,
    p: history::PendingView,
)
    requires
        plan(start, now, goal, p),
        after.blobs == now.blobs,
    ensures
        plan(start, after, goal, p),
{
    if let journal::GoalView::Record(mutations) = goal {
        assert forall|i: int| 0 <= i < mutations.len() implies captured_file(
            start,
            after,
            #[trigger] mutations[i],
            p.change_set.files[i],
        ) by {
            assert(captured_file(start, now, mutations[i], p.change_set.files[i]));
        }
    }
}

pub proof fn lemma_all_on(
    now: disk::Disk,
    after: disk::Disk,
    p: history::PendingView,
    side: SnapshotSide,
)
    requires
        all_on(now, p, side),
        after.work == now.work,
        after.blobs == now.blobs,
    ensures
        all_on(after, p, side),
{
    assert forall|j: int| 0 <= j < p.change_set.files.len() implies #[trigger] after.on_side(
        p,
        j,
        side,
    ) by {
        assert(now.on_side(p, j, side));
    }
}

proof fn lemma_step_check(
    store: history::StoreView,
    start: disk::Disk,
    goal: journal::GoalView,
    now: Scene,
    reply: journal::ReplyView,
    after: Scene,
)
    requires
        now.op.stage is Check || now.op.stage is Confirm,
        quiet(start, goal),
        sound(start, goal, now.disk, now.op),
        now.steps(store, reply, after),
    ensures
        sound(start, goal, after.disk, after.op),
{
    reveal(journal::OperationView::on_check);
    reveal(journal::OperationView::on_confirm);
    let d = now.disk;
    let op = now.op;
    match op.stage {
        journal::StageView::Check { pending, index, conflicts, part } => {
            let change = pending.change_set.files[index];
            let snapshot = pending.side(change, SnapshotSide::Expected);
            lemma_probed(d, change.path, snapshot, part, reply, after.disk);
            if let Ok(Some(same)) = journal::probed(change.path, snapshot, part, reply) {
                let list = if same {
                    conflicts
                } else {
                    conflicts.push(change.path)
                };
                lemma_check_from(start, goal, d, op, pending, index + 1, list);
            }
        },
        journal::StageView::Confirm { pending, index, conflicts, part } => {
            let change = pending.change_set.files[index];
            let snapshot = pending.side(change, SnapshotSide::Desired);
            lemma_probed(d, change.path, snapshot, part, reply, after.disk);
            if let Ok(Some(same)) = journal::probed(change.path, snapshot, part, reply) {
                let list = if same {
                    conflicts
                } else {
                    conflicts.push(change.path)
                };
                lemma_confirm_from(start, goal, d, op, pending, index + 1, list);
            }
        },
        _ => {},
    }
}

/// The journal's own writes leave what was carried out as it is.
proof fn lemma_carried_out(
    start: disk::Disk,
    now: disk::Disk,
    after: disk::Disk,
    goal: journal::GoalView,
    p: history::PendingView,
)
    requires
        carried_out(start, now, goal, p),
        after.work == now.work,
        after.blobs == now.blobs,
    ensures
        carried_out(start, after, goal, p),
{
    lemma_plan_blobs(start, now, after, goal, p);
    assert(back_then(start, after) == back_then(start, now));
    assert forall|q: Seq<char>| !touched(start, p, q) implies #[trigger] disk::same_at(
        start.work,
        after.work,
        q,
    ) by {
        assert(disk::same_at(start.work, now.work, q));
    }
}

proof fn lemma_step_save(
    store: history::StoreView,
    start: disk::Disk,
    goal: journal::GoalView,
    now: Scene,
    reply: journal::ReplyView,
    after: Scene,
)
    requires
        now.op.stage is SavePending || now.op.stage is ReadReplaced || now.op.stage is SaveTurn
            || now.op.stage is SaveState || now.op.stage is ClearPending,
        quiet(start, goal),
        sound(start, goal, now.disk, now.op),
        now.steps(store, reply, after),
    ensures
        sound(start, goal, after.disk, after.op),
{
    let d = now.disk;
    let v = after.disk;
    let op = now.op;
    match op.stage {
        journal::StageView::SavePending { pending } => {
            reveal(journal::OperationView::on_save_pending);
            if reply is Done && reply->Done_0 is Ok {
                lemma_plan_blobs(start, d, v, goal, pending);
                assert(back_then(start, v) == d);
                assert(begun(start, v, goal, pending));
                lemma_apply_from(start, goal, v, op, pending, 0);
            }
        },
        journal::StageView::ReadReplaced { pending } => {
            reveal(journal::OperationView::on_read_replaced);
        },
        journal::StageView::SaveTurn { pending, replaced } => {
            reveal(journal::OperationView::on_save_turn);
            if reply is Done && reply->Done_0 is Ok {
                let w = v.with_turns_of(start);
                assert(w == d);
                assert forall|name: Seq<char>|
                    name != history::turn_name(pending.change_set.id) implies
                    #[trigger] disk::same_at(start.turn_backups, v.turn_backups, name) by {
                    assert(d.same_turn(v, name));
                }
                lemma_all_on(d, v, pending, SnapshotSide::Desired);
            }
        },
        journal::StageView::SaveState { pending, replaced } => {
            reveal(journal::OperationView::on_save_state);
            let w = d.with_turns_of(start);
            lemma_carried_out(start, w, v, goal, pending);
            lemma_all_on(d, v, pending, SnapshotSide::Desired);
        },
        journal::StageView::ClearPending { pending, replaced } => {
            reveal(journal::OperationView::on_clear_pending);
            reveal(journal::OperationView::cleared);
            lemma_carried_out(start, d, v, goal, pending);
            lemma_all_on(d, v, pending, SnapshotSide::Desired);
            if v.pending is None {
                history::turn_names_read_back(pending.change_set.id);
                assert(settled(start, v, goal, pending));
                lemma_finished(start, goal, v, op, pending);
            }
        },
        _ => {},
    }
}

proof fn lemma_step_prune(
    store: history::StoreView,
    start: disk::Disk,
    goal: journal::GoalView,
    now: Scene,
    reply: journal::ReplyView,
    after: Scene,
)
    requires
        now.op.stage is DropReplaced || now.op.stage is ListTurns || now.op.stage is PruneRead
            || now.op.stage is PruneBlobs || now.op.stage is PruneRemove,
        quiet(start, goal),
        sound(start, goal, now.disk, now.op),
        now.steps(store, reply, after),
    ensures
        sound(start, goal, after.disk, after.op),
{
    let d = now.disk;
    let v = after.disk;
    let op = now.op;
    match op.stage {
        journal::StageView::DropReplaced { pending, replaced } => {
            lemma_discard(
                start,
                goal,
                d,
                v,
                pending,
                history::turn_name(pending.change_set.id),
                reply,
            );
        },
        journal::StageView::ListTurns { tip, after: then } => {
            reveal(journal::OperationView::on_list_turns);
            reveal(journal::OperationView::pruned);
            lemma_finished(start, goal, d, op, then->Finish_0);
            if reply is Turns && reply->Turns_0 is Ok {
                lemma_prune_from(start, goal, d, op, tip, reply->Turns_0->Ok_0, 0, then);
            }
        },
        journal::StageView::PruneRead { tip, entries, index, after: then } => {
            reveal(journal::OperationView::on_prune_read);
            let p = then->Finish_0;
            let name = entries[index]->Ok_0.name;
            history::turn_names_read_back(p.change_set.id);
            lemma_commit_target(start, d, goal, p);
            if reply is Turn && reply->Turn_0 is Ok {
                assert(d.turns.contains_key(name) && name != history::turn_name(p.change_set.id));
                assert(disk::same_at(start.turns, d.turns, name));
            }
        },
        journal::StageView::PruneBlobs { tip, entries, index, after: then, outdated } => {
            lemma_discard(
                start,
                goal,
                d,
                v,
                then->Finish_0,
                entries[index]->Ok_0.name,
                reply,
            );
        },
        journal::StageView::PruneRemove { tip, entries, index, after: then } => {
            reveal(journal::OperationView::on_prune_remove);
            let p = then->Finish_0;
            let name = entries[index]->Ok_0.name;
            history::turn_names_read_back(p.change_set.id);
            lemma_commit_target(start, d, goal, p);
            lemma_carried_out(start, d, v, goal, p);
            lemma_all_on(d, v, p, SnapshotSide::Desired);
            assert(!lasting(p, name));
            assert forall|x: Seq<char>| lasting(p, x) implies #[trigger] disk::same_at(
                start.turns,
                v.turns,
                x,
            ) by {
                assert(disk::same_at(start.turns, d.turns, x));
            }
            assert forall|x: Seq<char>| #[trigger]
                v.turns.contains_key(x) && x != history::turn_name(
                    p.change_set.id,
                ) implies disk::same_at(start.turns, v.turns, x) by {
                assert(d.turns.contains_key(x));
                assert(disk::same_at(start.turns, d.turns, x));
            }
            assert(settled(start, v, goal, p));
            if reply is Done && (reply->Done_0 is Ok || reply->Done_0->Err_0.kind
                == IoErrorKind::NotFound) {
                lemma_prune_from(start, goal, v, op, tip, entries, index + 1, then);
            }
        },
        _ => {},
    }
}

/// A commit's own transaction is the last.
proof fn lemma_commit_target(
    start: disk::Disk,
    now: disk::Disk,
    goal: journal::GoalView,
    p: history::PendingView,
)
    requires
        plan(start, now, goal, p),
        p.kind == PendingKind::Commit,
    ensures
        goal is Record,
        p.target.tip == p.change_set.id,
        p.target.cursor == p.change_set.id,
{
}

proof fn lemma_step_first(
    store: history::StoreView,
    start: disk::Disk,
    goal: journal::GoalView,
    now: Scene,
    reply: journal::ReplyView,
    after: Scene,
)
    requires
        now.op.stage is ReadPending || now.op.stage is LoadState || now.op.stage is LoadTurn
            || now.op.stage is Validate || now.op.stage is CleanUp,
        quiet(start, goal),
        sound(start, goal, now.disk, now.op),
        now.steps(store, reply, after),
    ensures
        sound(start, goal, after.disk, after.op),
{
    let d = now.disk;
    let v = after.disk;
    let op = now.op;
    match op.stage {
        journal::StageView::ReadPending => {
            reveal(journal::OperationView::on_read_pending);
        },
        journal::StageView::LoadState { primary } => {
            reveal(journal::OperationView::on_load_state);
            lemma_loaded(start, goal, op);
        },
        journal::StageView::LoadTurn { kind, id, target, primary } => {
            reveal(journal::OperationView::on_load_turn);
            if reply is Turn && reply->Turn_0 is Ok {
                let p = journal::replay(kind, reply->Turn_0->Ok_0, target);
                assert(planned(start, d, goal, p));
                lemma_check_from(start, goal, d, op, p, 0, Seq::empty());
            }
        },
        journal::StageView::Validate { state, index, plain } => {
            reveal(journal::OperationView::on_validate);
            lemma_looked_at(d, op.mutations()[index].path, reply, v);
            lemma_validate_from(start, goal, op, state, index + 1, plain);
        },
        journal::StageView::CleanUp { error, blobs } => {
            assert forall|id: Seq<char>| #[trigger] start.blobs.contains_key(
                id,
            ) implies v.blobs.contains_key(id) && v.blobs[id] == start.blobs[id] by {
                assert(d.blobs.contains_key(id));
                assert(disk::same_at(d.blobs, v.blobs, id));
            }
            assert(start.blobs.submap_of(v.blobs));
        },
        _ => {},
    }
}

/// Each step of an operation keeps the invariant.
proof fn lemma_step(
    store: history::StoreView,
    start: disk::Disk,
    goal: journal::GoalView,
    now: Scene,
    after: Scene,
)
    requires
        quiet(start, goal),
        sound(start, goal, now.disk, now.op),
        now.leads_to(store, after),
    ensures
        sound(start, goal, after.disk, after.op),
{
    let reply = choose|reply: journal::ReplyView| #[trigger] now.steps(store, reply, after);
    match now.op.stage {
        journal::StageView::Capture { .. } => lemma_step_capture(
            store,
            start,
            goal,
            now,
            reply,
            after,
        ),
        journal::StageView::Apply { .. } => lemma_step_apply(store, start, goal, now, reply, after),
        journal::StageView::Check { .. } | journal::StageView::Confirm { .. } => lemma_step_check(
            store,
            start,
            goal,
            now,
            reply,
            after,
        ),
        journal::StageView::SavePending { .. }
        | journal::StageView::ReadReplaced { .. }
        | journal::StageView::SaveTurn { .. }
        | journal::StageView::SaveState { .. }
        | journal::StageView::ClearPending { .. } => lemma_step_save(
            store,
            start,
            goal,
            now,
            reply,
            after,
        ),
        journal::StageView::DropReplaced { .. }
        | journal::StageView::ListTurns { .. }
        | journal::StageView::PruneRead { .. }
        | journal::StageView::PruneBlobs { .. }
        | journal::StageView::PruneRemove { .. } => lemma_step_prune(
            store,
            start,
            goal,
            now,
            reply,
            after,
        ),
        _ => {
            if !(now.op.stage is Done) {
                lemma_step_first(store, start, goal, now, reply, after);
            }
        },
    }
}

pub proof fn lemma_run(
    store: history::StoreView,
    start: disk::Disk,
    goal: journal::GoalView,
    scenes: Seq<Scene>,
    i: int,
)
    requires
        quiet(start, goal),
        is_run(store, scenes),
        scenes[0].disk == start,
        scenes[0].op == beginning(goal),
        0 <= i < scenes.len(),
    ensures
        sound(start, goal, scenes[i].disk, scenes[i].op),
    decreases i,
{
    if i > 0 {
        lemma_run(store, start, goal, scenes, i - 1);
        assert(scenes[i - 1].leads_to(store, scenes[i - 1 + 1]));
        lemma_step(store, start, goal, scenes[i - 1], scenes[i]);
    }
}

// ---------------------------------------------------------------------------------------------
// Commit, undo and redo

/// That `scenes` is an operation with the given goal from its beginning to a good end.
pub open spec fn accomplishes(
    store: history::StoreView,
    goal: journal::GoalView,
    scenes: Seq<Scene>,
    change_set: history::ChangeSetView,
) -> bool {
    &&& is_run(store, scenes)
    &&& quiet(scenes[0].disk, goal)
    &&& scenes[0].op == beginning(goal)
    &&& scenes.last().op.stage == journal::StageView::Done(
        Ok(journal::OutcomeView::Applied(change_set)),
    )
}

/// The state is in order: what is applied is recorded.
pub open spec fn in_order(state: HistoryState) -> bool {
    state.cursor <= state.tip
}

/// A commit that succeeds has changed each file as asked, recorded the transaction under the next
/// number and made it the last one; no other file has changed, and earlier transactions are kept.
pub proof fn commits_apply_and_record(
    store: history::StoreView,
    mutations: Seq<journal::MutationView>,
    scenes: Seq<Scene>,
    c: history::ChangeSetView,
)
    requires
        accomplishes(store, journal::GoalView::Record(mutations), scenes, c),
    ensures
        ({
            let start = scenes[0].disk;
            let end = scenes.last().disk;
            let id = journal::next_id(start.history_state());
            let p = journal::commit_of(start.history_state(), c.files);
            &&& c.id == id
            &&& c.files.len() == mutations.len()
            &&& forall|j: int|
                0 <= j < mutations.len() ==> {
                    let path = c.files[j].path;
                    &&& paths::normalized((#[trigger] mutations[j]).path) == Some(path)
                    &&& match mutations[j].contents {
                        Some(bytes) => end.work.contains_key(path) && end.work[path]
                            == disk::Item::File(bytes),
                        None => !end.work.contains_key(path),
                    }
                }
            &&& end.history_state() == (HistoryState { cursor: id, tip: id })
            &&& end.pending is None
            &&& end.turns.contains_key(history::turn_name(id))
            &&& end.turns[history::turn_name(id)] == c
            &&& forall|name: Seq<char>|
                lasting(p, name) ==> #[trigger] disk::same_at(start.turns, end.turns, name)
            &&& backups_stay(start, end, p)
            &&& framed(start, end, p)
        }),
{
    let goal = journal::GoalView::Record(mutations);
    let start = scenes[0].disk;
    let end = scenes.last().disk;
    lemma_run(store, start, goal, scenes, scenes.len() - 1);
    let p = choose|p: history::PendingView|
        journal::OutcomeView::Applied(c) == journal::OutcomeView::Applied(p.change_set)
            && #[trigger] settled(start, end, goal, p);
    assert(p == journal::commit_of(start.history_state(), c.files));
    assert forall|j: int| 0 <= j < mutations.len() implies {
        let path = c.files[j].path;
        &&& paths::normalized((#[trigger] mutations[j]).path) == Some(path)
        &&& match mutations[j].contents {
            Some(bytes) => end.work.contains_key(path) && end.work[path] == disk::Item::File(
                bytes,
            ),
            None => !end.work.contains_key(path),
        }
    } by {
        assert(captured_file(start, end, mutations[j], c.files[j]));
        assert(end.on_side(p, j, SnapshotSide::Desired));
        paths::plain_paths_are_plain(mutations[j].path);
    }
}

/// An undo that succeeds has brought each file of the last applied transaction back to what the
/// transaction found, and counts one transaction less as applied; what is recorded stays.
pub proof fn undo_takes_the_last_transaction_back(
    store: history::StoreView,
    scenes: Seq<Scene>,
    c: history::ChangeSetView,
)
    requires
        accomplishes(store, journal::GoalView::Undo, scenes, c),
    ensures
        ({
            let start = scenes[0].disk;
            let end = scenes.last().disk;
            let state = start.history_state();
            &&& state.cursor > 0
            &&& start.turn(state.cursor) == Some(c)
            &&& forall|j: int|
                0 <= j < c.files.len() ==> end.holds(
                    journal::plain_path((#[trigger] c.files[j]).path),
                    c.files[j].before,
                )
            &&& end.history_state() == (HistoryState {
                cursor: (state.cursor - 1) as u64,
                tip: state.tip,
            })
            &&& end.pending is None
            &&& end == end.with_turns_of(start)
            &&& end.blobs == start.blobs
            &&& framed(
                start,
                end,
                journal::replay(PendingKind::Undo, c, end.history_state()),
            )
        }),
{
    let goal = journal::GoalView::Undo;
    let start = scenes[0].disk;
    let end = scenes.last().disk;
    lemma_run(store, start, goal, scenes, scenes.len() - 1);
    let p = choose|p: history::PendingView|
        journal::OutcomeView::Applied(c) == journal::OutcomeView::Applied(p.change_set)
            && #[trigger] settled(start, end, goal, p);
    assert forall|j: int| 0 <= j < c.files.len() implies end.holds(
        journal::plain_path((#[trigger] c.files[j]).path),
        c.files[j].before,
    ) by {
        assert(end.on_side(p, j, SnapshotSide::Desired));
    }
}

/// A redo that succeeds has brought each file of the next recorded transaction to what the
/// transaction left, and counts one transaction more as applied; what is recorded stays.
pub proof fn redo_applies_the_next_transaction(
    store: history::StoreView,
    scenes: Seq<Scene>,
    c: history::ChangeSetView,
)
    requires
        accomplishes(store, journal::GoalView::Redo, scenes, c),
    ensures
        ({
            let start = scenes[0].disk;
            let end = scenes.last().disk;
            let state = start.history_state();
            &&& state.cursor < state.tip
            &&& start.turn((state.cursor + 1) as u64) == Some(c)
            &&& forall|j: int|
                0 <= j < c.files.len() ==> end.holds(
                    journal::plain_path((#[trigger] c.files[j]).path),
                    c.files[j].after,
                )
            &&& end.history_state() == (HistoryState {
                cursor: (state.cursor + 1) as u64,
                tip: state.tip,
            })
            &&& end.pending is None
            &&& end == end.with_turns_of(start)
            &&& end.blobs == start.blobs
            &&& framed(
                start,
                end,
                journal::replay(PendingKind::Redo, c, end.history_state()),
            )
        }),
{
    let goal = journal::GoalView::Redo;
    let start = scenes[0].disk;
    let end = scenes.last().disk;
    lemma_run(store, start, goal, scenes, scenes.len() - 1);
    let p = choose|p: history::PendingView|
        journal::OutcomeView::Applied(c) == journal::OutcomeView::Applied(p.change_set)
            && #[trigger] settled(start, end, goal, p);
    assert forall|j: int| 0 <= j < c.files.len() implies end.holds(
        journal::plain_path((#[trigger] c.files[j]).path),
        c.files[j].after,
    ) by {
        assert(end.on_side(p, j, SnapshotSide::Desired));
    }
}

/// An undo right after a commit restores the exact contents of every file that the commit
/// changed, and leaves the other files as they were before the commit.
pub proof fn undo_restores_what_a_commit_changed(
    store: history::StoreView,
    mutations: Seq<journal::MutationView>,
    commit: Seq<Scene>,
    undo: Seq<Scene>,
    c: history::ChangeSetView,
    d: history::ChangeSetView,
    q: Seq<char>,
)
    requires
        accomplishes(store, journal::GoalView::Record(mutations), commit, c),
        accomplishes(store, journal::GoalView::Undo, undo, d),
        undo[0].disk == commit.last().disk,
        (exists|j: int| 0 <= j < c.files.len() && (#[trigger] c.files[j]).path == q) || !touched(
            commit[0].disk,
            journal::commit_of(commit[0].disk.history_state(), c.files),
            q,
        ),
    ensures
        d == c,
        disk::same_at(commit[0].disk.work, undo.last().disk.work, q),
        undo.last().disk.history_state().cursor + 1 == undo.last().disk.history_state().tip,
{
    let goal = journal::GoalView::Record(mutations);
    let first = commit[0].disk;
    let middle = commit.last().disk;
    let end = undo.last().disk;
    commits_apply_and_record(store, mutations, commit, c);
    undo_takes_the_last_transaction_back(store, undo, d);
    lemma_run(store, first, goal, commit, commit.len() - 1);
    let p = choose|p: history::PendingView|
        journal::OutcomeView::Applied(c) == journal::OutcomeView::Applied(p.change_set)
            && #[trigger] settled(first, middle, goal, p);
    if exists|j: int| 0 <= j < c.files.len() && (#[trigger] c.files[j]).path == q {
        let j = choose|j: int| 0 <= j < c.files.len() && (#[trigger] c.files[j]).path == q;
        assert(captured_file(first, middle, mutations[j], c.files[j]));
        paths::plain_paths_are_plain(mutations[j].path);
        assert(end.holds(journal::plain_path(c.files[j].path), c.files[j].before));
    } else {
        let b = journal::replay(PendingKind::Undo, c, end.history_state());
        assert(disk::same_at(first.work, middle.work, q));
        assert(!touched(middle, b, q)) by {
            if touched(middle, b, q) {
                let j = choose|j: int|
                    0 <= j < b.change_set.files.len() && bears_on(
                        middle,
                        journal::plain_path((#[trigger] b.change_set.files[j]).path),
                        q,
                    );
                assert(c.files[j] == p.change_set.files[j]);
                assert(touched(first, p, q));
            }
        }
        assert(disk::same_at(middle.work, end.work, q));
    }
}

/// A redo right after an undo brings every file that the transaction changed back to the exact
/// contents before the undo, and leaves the other files as they were.
pub proof fn redo_restores_what_an_undo_took_back(
    store: history::StoreView,
    undo: Seq<Scene>,
    redo: Seq<Scene>,
    c: history::ChangeSetView,
    d: history::ChangeSetView,
    q: Seq<char>,
)
    requires
        accomplishes(store, journal::GoalView::Undo, undo, c),
        accomplishes(store, journal::GoalView::Redo, redo, d),
        redo[0].disk == undo.last().disk,
        (exists|j: int|
            0 <= j < c.files.len() && journal::plain_path((#[trigger] c.files[j]).path) == q)
            || !touched(
            undo[0].disk,
            journal::replay(PendingKind::Undo, c, undo.last().disk.history_state()),
            q,
        ),
    ensures
        d == c,
        disk::same_at(undo[0].disk.work, redo.last().disk.work, q),
        redo.last().disk.history_state() == undo[0].disk.history_state(),
{
    let goal = journal::GoalView::Undo;
    let first = undo[0].disk;
    let middle = undo.last().disk;
    let last = redo.last().disk;
    undo_takes_the_last_transaction_back(store, undo, c);
    redo_applies_the_next_transaction(store, redo, d);
    lemma_run(store, first, goal, undo, undo.len() - 1);
    let p = choose|p: history::PendingView|
        journal::OutcomeView::Applied(c) == journal::OutcomeView::Applied(p.change_set)
            && #[trigger] settled(first, middle, goal, p);
    if exists|j: int|
        0 <= j < c.files.len() && journal::plain_path((#[trigger] c.files[j]).path) == q {
        let j = choose|j: int|
            0 <= j < c.files.len() && journal::plain_path((#[trigger] c.files[j]).path) == q;
        assert(back_then(first, middle).on_side(p, j, SnapshotSide::Expected));
        assert(last.holds(journal::plain_path(d.files[j].path), d.files[j].after));
    } else {
        let taken = journal::replay(PendingKind::Undo, c, middle.history_state());
        let applied = journal::replay(PendingKind::Redo, d, last.history_state());
        assert(disk::same_at(first.work, middle.work, q));
        assert(!touched(middle, applied, q)) by {
            if touched(middle, applied, q) {
                let j = choose|j: int|
                    0 <= j < d.files.len() && bears_on(
                        middle,
                        journal::plain_path((#[trigger] d.files[j]).path),
                        q,
                    );
                assert(taken.change_set.files[j] == d.files[j]);
            }
        }
        assert(disk::same_at(middle.work, last.work, q));
    }
}

/// Where no transaction is left to take back, or none to apply again, the operation fails with
/// that error, unless the file system does, and changes nothing; so a redo after a commit finds
/// nothing.
pub proof fn nothing_is_left_to_redo_or_undo(
    store: history::StoreView,
    goal: journal::GoalView,
    scenes: Seq<Scene>,
    i: int,
)
    requires
        is_run(store, scenes),
        scenes[0].op == beginning(goal),
        scenes[0].disk.pending is None,
        (goal is Undo && scenes[0].disk.history_state().cursor == 0) || (goal is Redo
            && scenes[0].disk.history_state().cursor >= scenes[0].disk.history_state().tip),
        0 <= i < scenes.len(),
    ensures
        scenes[i].disk == scenes[0].disk,
        scenes[i].op.stage matches journal::StageView::Done(r) ==> match r {
            Ok(_) => false,
            Err(e) => e is Io || (e == (if goal is Undo {
                history::HistoryErrorView::NothingToUndo
            } else {
                history::HistoryErrorView::NothingToRedo
            })),
        },
{
    let start = scenes[0].disk;
    lemma_run(store, start, goal, scenes, i);
}

/// Where a file of the transaction is not as expected, an undo or redo fails before it touches
/// anything: at every moment the disk is as at the start, and a conflict names exactly the files
/// that are not as expected.
pub proof fn conflicts_touch_nothing(
    store: history::StoreView,
    goal: journal::GoalView,
    scenes: Seq<Scene>,
    p: history::PendingView,
    bad: int,
    i: int,
)
    requires
        is_run(store, scenes),
        quiet(scenes[0].disk, goal),
        scenes[0].op == beginning(goal),
        goal is Undo || goal is Redo,
        plan(scenes[0].disk, scenes[0].disk, goal, p),
        0 <= bad < p.change_set.files.len(),
        !scenes[0].disk.on_side(p, bad, SnapshotSide::Expected),
        0 <= i < scenes.len(),
    ensures
        scenes[i].disk == scenes[0].disk,
        scenes[i].op.stage matches journal::StageView::Done(r) ==> match r {
            Ok(_) => false,
            Err(history::HistoryErrorView::Conflict(list)) => list == mismatches(
                scenes[0].disk,
                p,
                p.change_set.files.len() as int,
                SnapshotSide::Expected,
            ),
            Err(e) => e is Io || e is InvalidPath,
        },
{
    let start = scenes[0].disk;
    let now = scenes[i].disk;
    lemma_run(store, start, goal, scenes, i);
    assert forall|x: history::PendingView| #[trigger] carried_out(start, now, goal, x) implies
        false by {
        assert(x == p);
        assert(back_then(start, now) == start);
        assert(back_then(start, now).on_side(p, bad, SnapshotSide::Expected));
    }
    match scenes[i].op.stage {
        journal::StageView::SavePending { pending } => {
            assert(pending == p);
            assert(now.on_side(p, bad, SnapshotSide::Expected));
        },
        journal::StageView::SaveState { pending, replaced } => {
            let w = now.with_turns_of(start);
            lemma_carried_out(start, w, now, goal, pending);
        },
        _ => {},
    }
}

/// A commit whose way is not disturbed never conflicts: what it captures is what it expects.
pub proof fn commits_do_not_conflict_by_themselves(
    store: history::StoreView,
    mutations: Seq<journal::MutationView>,
    scenes: Seq<Scene>,
    i: int,
)
    requires
        is_run(store, scenes),
        quiet(scenes[0].disk, journal::GoalView::Record(mutations)),
        scenes[0].op == beginning(journal::GoalView::Record(mutations)),
        0 <= i < scenes.len(),
        scenes[i].disk.pending is None,
    ensures
        !(scenes[i].op.stage matches journal::StageView::Done(Err(e)) && e is Conflict),
{
    let goal = journal::GoalView::Record(mutations);
    let start = scenes[0].disk;
    let now = scenes[i].disk;
    lemma_run(store, start, goal, scenes, i);
    if let journal::StageView::Done(Err(history::HistoryErrorView::Conflict(list))) =
        scenes[i].op.stage {
        let p = choose|p: history::PendingView| #[trigger]
            planned(start, now, goal, p) && list.len() > 0 && list == mismatches(
                now,
                p,
                p.change_set.files.len() as int,
                SnapshotSide::Expected,
            );
        assert forall|j: int| 0 <= j < p.change_set.files.len() implies #[trigger] now.on_side(
            p,
            j,
            SnapshotSide::Expected,
        ) by {
            assert(captured_file(start, now, mutations[j], p.change_set.files[j]));
            paths::plain_paths_are_plain(mutations[j].path);
        }
        lemma_no_mismatch(now, p, p.change_set.files.len() as int, SnapshotSide::Expected);
    }
}

} // verus!
