//! How far an operation has come at each moment, and that it reaches its end where nothing
//! stands in its way.

use vstd::prelude::*;

use crate::disk;
use crate::guarantees;
use crate::guarantees::Scene;
use crate::history;
use crate::history::SnapshotSide;
use crate::io::IoErrorKind;
use crate::journal;
use crate::journal::{ApplyPart, Node};
use crate::paths;
use crate::recovery;

verus! {

// ---------------------------------------------------------------------------------------------
// Every moment can be recovered from

/// That the change of neither file bears on the other.
pub open spec fn apart(a: Seq<char>, b: Seq<char>) -> bool {
    a != b && !disk::beside(a, b) && !disk::beside(b, a)
}

/// The plain path of file `j`.
pub open spec fn place(p: history::PendingView, j: int) -> Seq<char> {
    journal::plain_path(p.change_set.files[j].path)
}

/// That the files of an operation do not bear on each other.
pub open spec fn separate(p: history::PendingView) -> bool {
    forall|j: int, k: int|
        0 <= j < p.change_set.files.len() && 0 <= k < p.change_set.files.len() && j != k ==> apart(
            #[trigger] place(p, j),
            #[trigger] place(p, k),
        )
}

/// That file `k` has to be installed when its turn comes, if the disk is `d` when the files begin
/// to be changed: it is not as desired, or the installation of a file before it, whose companion
/// it is, has removed it.
pub open spec fn installs(d: disk::Disk, p: history::PendingView, k: int) -> bool
    decreases k,
{
    &&& p.side(p.change_set.files[k], SnapshotSide::Desired) is Blob
    &&& !d.on_side(p, k, SnapshotSide::Desired) || exists|m: int|
        0 <= m < k && place(p, k) == disk::companion_of(#[trigger] place(p, m)) && installs(d, p, m)
}

/// That the change of file `k` leaves file `j` be, as long as what it sets aside for a while goes
/// again. Only the installation of `k` bears on other files: none may be a directory on the way to
/// it, and its companion must be meant to be missing, or be missing before its turn.
pub open spec fn unharmed(d: disk::Disk, p: history::PendingView, j: int, k: int) -> bool {
    &&& !d.on_side(p, k, SnapshotSide::Desired) || installs(d, p, k) ==> place(p, j) != place(p, k)
    &&& installs(d, p, k) ==> {
        &&& !paths::directories(place(p, k)).contains(place(p, j))
        &&& place(p, j) == disk::companion_of(place(p, k)) ==> {
            ||| p.side(p.change_set.files[j], SnapshotSide::Desired) is Missing
            ||| j > k && p.side(p.change_set.files[j], SnapshotSide::Expected) is Missing
        }
    }
}

/// That the files of an operation can be changed one after the other from the disk `d` on.
pub open spec fn compatible(d: disk::Disk, p: history::PendingView) -> bool {
    forall|j: int, k: int|
        0 <= j < p.change_set.files.len() && 0 <= k < p.change_set.files.len() && j != k
            ==> #[trigger] unharmed(d, p, j, k)
}

/// That the installation of one of the first `n` files removes file `j`.
pub open spec fn removed(d: disk::Disk, p: history::PendingView, j: int, n: int) -> bool {
    exists|m: int|
        0 <= m < n && place(p, j) == disk::companion_of(#[trigger] place(p, m)) && installs(d, p, m)
}

/// That the files from `n` on are as on the disk `d`, but for those that were removed.
pub open spec fn untainted(
    d: disk::Disk,
    p: history::PendingView,
    now: disk::Disk,
    n: int,
) -> bool {
    forall|j: int|
        n <= j < p.change_set.files.len() ==> {
            ||| disk::same_at(d.work, now.work, #[trigger] place(p, j))
            ||| !now.work.contains_key(place(p, j)) && removed(d, p, j, n)
        }
}

/// A file that is not as desired when its turn comes has to be changed from the beginning.
pub proof fn lemma_turn(d: disk::Disk, p: history::PendingView, now: disk::Disk, n: int)
    requires
        untainted(d, p, now, n),
        now.blobs == d.blobs,
        0 <= n < p.change_set.files.len(),
        !now.on_side(p, n, SnapshotSide::Desired),
    ensures
        !d.on_side(p, n, SnapshotSide::Desired) || installs(d, p, n),
        p.side(p.change_set.files[n], SnapshotSide::Desired) is Blob ==> installs(d, p, n),
{
    assert(disk::same_at(d.work, now.work, place(p, n)) || !now.work.contains_key(place(p, n)));
}

/// That the blob of file `j` on the desired side, if it is there, is as long as recorded.
pub open spec fn measured(d: disk::Disk, p: history::PendingView, j: int) -> bool {
    p.side(p.change_set.files[j], SnapshotSide::Desired) matches history::SnapshotView::Blob {
        id,
        len,
    } ==> d.blobs.contains_key(id) ==> d.blobs[id].len() == len
}

pub open spec fn all_measured(d: disk::Disk, p: history::PendingView) -> bool {
    forall|j: int| 0 <= j < p.change_set.files.len() ==> #[trigger] measured(d, p, j)
}

proof fn lemma_measured(
    start: disk::Disk,
    now: disk::Disk,
    goal: journal::GoalView,
    p: history::PendingView,
)
    requires
        guarantees::plan(start, now, goal, p),
        goal is Record || all_measured(start, p),
    ensures
        all_measured(now, p),
{
    assert forall|j: int| 0 <= j < p.change_set.files.len() implies #[trigger] measured(
        now,
        p,
        j,
    ) by {
        if let journal::GoalView::Record(mutations) = goal {
            assert(guarantees::captured_file(start, now, mutations[j], p.change_set.files[j]));
        } else {
            assert(measured(start, p, j));
        }
    }
}

/// That the files before `n` are as desired.
pub open spec fn advanced(d: disk::Disk, p: history::PendingView, n: int) -> bool {
    forall|j: int| 0 <= j < n ==> #[trigger] d.on_side(p, j, SnapshotSide::Desired)
}

/// What holds of the files while the operation `p` is on record as pending.
pub open spec fn underway(
    start: disk::Disk,
    p: history::PendingView,
    now: disk::Disk,
    op: journal::OperationView,
) -> bool {
    let first = guarantees::back_then(start, now);
    now.pending == Some(p) && (separate(p) || compatible(first, p)) ==> {
        &&& recovery::all_on_a_side(now, p)
        &&& match op.stage {
            journal::StageView::Apply { pending: _, index, part } => {
                &&& advanced(now, p, index)
                &&& part is Verify || untainted(first, p, now, index)
                &&& part is Verify ==> untainted(first, p, now, index + 1)
                &&& part is Expected ==> !now.on_side(p, index, SnapshotSide::Desired)
                &&& part is Write ==> !now.on_side(p, index, SnapshotSide::Desired)
                &&& part is Write ==> now.on_side(p, index, SnapshotSide::Expected)
                &&& part is Verify ==> now.on_side(p, index, SnapshotSide::Desired)
            },
            _ => true,
        }
    }
}

proof fn lemma_sides_stay(now: disk::Disk, after: disk::Disk, p: history::PendingView)
    requires
        recovery::all_on_a_side(now, p),
        after.work == now.work,
        after.blobs == now.blobs,
    ensures
        recovery::all_on_a_side(after, p),
        forall|j: int, s: SnapshotSide| after.on_side(p, j, s) == #[trigger] now.on_side(p, j, s),
{
    assert forall|j: int, s: SnapshotSide| after.on_side(p, j, s) == #[trigger] now.on_side(
        p,
        j,
        s,
    ) by {}
    assert forall|j: int| 0 <= j < p.change_set.files.len() implies #[trigger] recovery::on_a_side(
        after,
        p,
        j,
    ) by {
        assert(recovery::on_a_side(now, p, j));
        assert(now.on_side(p, j, SnapshotSide::Expected) || now.on_side(
            p,
            j,
            SnapshotSide::Desired,
        ));
    }
}

proof fn lemma_apply_from_underway(
    start: disk::Disk,
    p: history::PendingView,
    now: disk::Disk,
    op: journal::OperationView,
    i: int,
)
    requires
        recovery::all_on_a_side(now, p),
        advanced(now, p, i),
        untainted(guarantees::back_then(start, now), p, now, i),
    ensures
        underway(start, p, now, op.apply_from(p, i)),
{
    reveal(journal::OperationView::apply_from);
    reveal(journal::OperationView::confirm_from);
}

/// That the change of a file has changed nothing, or left all others as they were, but for the
/// companion, which is gone, and missing directories on the way.
pub open spec fn swept(now: Scene, after: Scene) -> bool {
    now.op.stage matches journal::StageView::Apply {
        pending,
        index,
        part: ApplyPart::Write,
    } ==> {
        let path = place(pending, index);
        let installs = pending.side(
            pending.change_set.files[index],
            SnapshotSide::Desired,
        ) is Blob;
        ||| after.disk.work == now.disk.work
        ||| {
            &&& installs ==> !after.disk.work.contains_key(disk::companion_of(path))
            &&& forall|q: Seq<char>|
                q != path && !(installs && (paths::directories(path).contains(q) || q
                    == disk::companion_of(path))) ==> #[trigger] disk::same_at(
                    now.disk.work,
                    after.disk.work,
                    q,
                )
        }
    }
}

/// The change of one file leaves the others on their sides, and those whose turn is to come as
/// they were or removed.
pub proof fn lemma_write(first: disk::Disk, now: Scene, after: Scene, j: int)
    requires
        now.op.stage matches journal::StageView::Apply {
            pending,
            index,
            part: ApplyPart::Write,
        } && {
            &&& separate(pending) || (compatible(first, pending) && swept(now, after))
            &&& 0 <= index < pending.change_set.files.len()
            &&& 0 <= j < pending.change_set.files.len()
            &&& j != index
            &&& untainted(first, pending, now.disk, index)
            &&& !now.disk.on_side(pending, index, SnapshotSide::Desired)
            &&& now.disk.blobs == first.blobs
            &&& after.disk.blobs == now.disk.blobs
            &&& forall|q: Seq<char>|
                q != place(pending, index) && !disk::beside(place(pending, index), q)
                    ==> #[trigger] disk::same_at(now.disk.work, after.disk.work, q)
        },
    ensures
        now.op.stage matches journal::StageView::Apply { pending, index, part: _ } && {
            let q = place(pending, j);
            &&& recovery::on_a_side(now.disk, pending, j) ==> recovery::on_a_side(
                after.disk,
                pending,
                j,
            )
            &&& j < index && now.disk.on_side(pending, j, SnapshotSide::Desired)
                ==> after.disk.on_side(pending, j, SnapshotSide::Desired)
            &&& j > index ==> disk::same_at(first.work, after.disk.work, q) || (
            !after.disk.work.contains_key(q) && removed(first, pending, j, index + 1))
        },
{
    if let journal::StageView::Apply { pending, index, part } = now.op.stage {
        let p = pending;
        let q = place(p, j);
        let path = place(p, index);
        lemma_turn(first, p, now.disk, index);
        if j > index {
            assert(disk::same_at(first.work, now.disk.work, q) || (!now.disk.work.contains_key(q)
                && removed(first, p, j, index)));
            assert(removed(first, p, j, index) ==> removed(first, p, j, index + 1));
        }
        if separate(p) {
            assert(apart(place(p, j), place(p, index)));
            assert(disk::same_at(now.disk.work, after.disk.work, q));
        } else {
            assert(unharmed(first, p, j, index));
            if after.disk.work != now.disk.work && q == disk::companion_of(path) && p.side(
                p.change_set.files[index],
                SnapshotSide::Desired,
            ) is Blob {
                assert(place(p, index) == path);
                assert(removed(first, p, j, index + 1));
            } else {
                assert(disk::same_at(now.disk.work, after.disk.work, q));
            }
        }
    }
}

/// That the change of a file has been made, or has left the file as it was: no installation has
/// failed so that the file is not where it was, as the previous contents could not be moved back
/// or an older backup was moved in.
pub open spec fn spared(now: Scene, after: Scene) -> bool {
    now.op.stage matches journal::StageView::Apply {
        pending,
        index,
        part: ApplyPart::Write,
    } ==> {
        ||| disk::same_at(now.disk.work, after.disk.work, place(pending, index))
        ||| after.disk.on_side(pending, index, SnapshotSide::Desired)
    }
}

proof fn lemma_underway_apply(
    store: history::StoreView,
    start: disk::Disk,
    goal: journal::GoalView,
    p: history::PendingView,
    now: Scene,
    reply: journal::ReplyView,
    after: Scene,
)
    requires
        now.op.stage is Apply,
        now.disk.pending == Some(p),
        guarantees::sound(start, goal, now.disk, now.op),
        now.steps(store, reply, after),
        spared(now, after),
        separate(p) || compatible(guarantees::back_then(start, now.disk), p),
        separate(p) || swept(now, after),
        goal is Record || all_measured(start, p),
        underway(start, p, now.disk, now.op),
    ensures
        underway(start, p, after.disk, after.op),
{
    reveal(journal::OperationView::on_apply);
    let d = now.disk;
    let v = after.disk;
    let op = now.op;
    if let journal::StageView::Apply { pending, index, part } = op.stage {
        assert(pending == p);
        let first = guarantees::back_then(start, d);
        assert(guarantees::back_then(start, v) == first);
        let change = p.change_set.files[index];
        let desired = p.side(change, SnapshotSide::Desired);
        let expected = p.side(change, SnapshotSide::Expected);
        match part {
            ApplyPart::Desired(q) => {
                guarantees::lemma_probed(d, change.path, desired, q, reply, v);
                if journal::probed(change.path, desired, q, reply) == Ok::<
                    Option<bool>,
                    history::HistoryErrorView,
                >(Some(true)) {
                    assert(d.on_side(p, index, SnapshotSide::Desired));
                    lemma_apply_from_underway(start, p, d, op, index + 1);
                }
            },
            ApplyPart::Expected(q) => {
                guarantees::lemma_probed(d, change.path, expected, q, reply, v);
            },
            ApplyPart::Write => {
                lemma_measured(start, d, goal, p);
                assert(measured(d, p, index));
                assert forall|q: Seq<char>|
                    q != place(p, index) && !disk::beside(
                        place(p, index),
                        q,
                    ) implies #[trigger] disk::same_at(d.work, v.work, q) by {}
                assert forall|j: int|
                    0 <= j < p.change_set.files.len() implies #[trigger] recovery::on_a_side(
                    v,
                    p,
                    j,
                ) by {
                    assert(recovery::on_a_side(d, p, j));
                    if j != index {
                        lemma_write(first, now, after, j);
                    } else if reply->Done_0 is Ok {
                        assert(v.on_side(p, index, SnapshotSide::Desired));
                    } else if disk::same_at(d.work, v.work, place(p, index)) {
                        assert(v.on_side(p, index, SnapshotSide::Expected));
                    }
                }
                assert forall|j: int| 0 <= j < index implies #[trigger] v.on_side(
                    p,
                    j,
                    SnapshotSide::Desired,
                ) by {
                    lemma_write(first, now, after, j);
                    assert(d.on_side(p, j, SnapshotSide::Desired));
                }
                assert forall|j: int| index < j < p.change_set.files.len() implies {
                    ||| disk::same_at(first.work, v.work, #[trigger] place(p, j))
                    ||| !v.work.contains_key(place(p, j)) && removed(first, p, j, index + 1)
                } by {
                    lemma_write(first, now, after, j);
                }
            },
            ApplyPart::Verify(q) => {
                guarantees::lemma_probed(d, change.path, desired, q, reply, v);
                assert(d.on_side(p, index, SnapshotSide::Desired));
                lemma_apply_from_underway(start, p, d, op, index + 1);
            },
        }
    }
}

proof fn lemma_underway(
    store: history::StoreView,
    start: disk::Disk,
    goal: journal::GoalView,
    p: history::PendingView,
    now: Scene,
    reply: journal::ReplyView,
    after: Scene,
)
    requires
        guarantees::quiet(start, goal),
        guarantees::sound(start, goal, now.disk, now.op),
        now.steps(store, reply, after),
        spared(now, after),
        separate(p) || swept(now, after),
        goal is Record || all_measured(start, p),
        underway(start, p, now.disk, now.op),
    ensures
        underway(start, p, after.disk, after.op),
{
    let d = now.disk;
    let v = after.disk;
    let op = now.op;
    if v.pending == Some(p) && (separate(p) || compatible(guarantees::back_then(start, v), p)) {
        assert(guarantees::back_then(start, v) == guarantees::back_then(start, d));
        match op.stage {
            journal::StageView::SavePending { pending } => {
                reveal(journal::OperationView::on_save_pending);
                assert(pending == p);
                assert forall|j: int|
                    0 <= j < p.change_set.files.len() implies #[trigger] recovery::on_a_side(
                    v,
                    p,
                    j,
                ) by {
                    assert(d.on_side(p, j, SnapshotSide::Expected));
                    assert(v.on_side(p, j, SnapshotSide::Expected));
                }
                lemma_apply_from_underway(start, p, v, op, 0);
            },
            journal::StageView::Apply { pending, index, part } => {
                lemma_underway_apply(store, start, goal, p, now, reply, after);
            },
            journal::StageView::Confirm { pending, index, conflicts, part } => {
                reveal(journal::OperationView::on_confirm);
                reveal(journal::OperationView::confirm_from);
                lemma_sides_stay(d, v, p);
            },
            journal::StageView::ReadReplaced { pending } => {
                reveal(journal::OperationView::on_read_replaced);
                lemma_sides_stay(d, v, p);
            },
            journal::StageView::SaveTurn { pending, replaced } => {
                reveal(journal::OperationView::on_save_turn);
                lemma_sides_stay(d, v, p);
            },
            journal::StageView::SaveState { pending, replaced } => {
                reveal(journal::OperationView::on_save_state);
                lemma_sides_stay(d, v, p);
            },
            journal::StageView::ClearPending { pending, replaced } => {
                reveal(journal::OperationView::on_clear_pending);
                reveal(journal::OperationView::cleared);
                reveal(journal::OperationView::finished);
                lemma_sides_stay(d, v, p);
            },
            _ => {},
        }
    }
}

/// At every moment of a commit, an undo or a redo, each file of the operation on record holds
/// either what the operation found or what it leaves, so that it can be completed or taken back
/// whenever it is interrupted between two requests; provided that no installation failed and could
/// not put the file back, and that its files do not bear on each other, or can be changed one after
/// the other and each change removes what it set aside.
pub proof fn every_moment_can_be_recovered_from(
    store: history::StoreView,
    goal: journal::GoalView,
    scenes: Seq<Scene>,
    p: history::PendingView,
    i: int,
)
    requires
        guarantees::is_run(store, scenes),
        guarantees::quiet(scenes[0].disk, goal),
        scenes[0].op == guarantees::beginning(goal),
        separate(p) || (compatible(
            guarantees::back_then(scenes[0].disk, scenes[i].disk),
            p,
        ) && forall|k: int| 0 <= k < i ==> swept(#[trigger] scenes[k], scenes[k + 1])),
        goal is Record || all_measured(scenes[0].disk, p),
        forall|k: int| 0 <= k < i ==> spared(#[trigger] scenes[k], scenes[k + 1]),
        0 <= i < scenes.len(),
    ensures
        scenes[i].disk.pending == Some(p) ==> recovery::all_on_a_side(scenes[i].disk, p),
{
    lemma_underway_run(store, goal, scenes, p, i);
}

proof fn lemma_underway_run(
    store: history::StoreView,
    goal: journal::GoalView,
    scenes: Seq<Scene>,
    p: history::PendingView,
    i: int,
)
    requires
        guarantees::is_run(store, scenes),
        guarantees::quiet(scenes[0].disk, goal),
        scenes[0].op == guarantees::beginning(goal),
        separate(p) || forall|k: int|
            0 <= k < i ==> swept(#[trigger] scenes[k], scenes[k + 1]),
        goal is Record || all_measured(scenes[0].disk, p),
        forall|k: int| 0 <= k < i ==> spared(#[trigger] scenes[k], scenes[k + 1]),
        0 <= i < scenes.len(),
    ensures
        underway(scenes[0].disk, p, scenes[i].disk, scenes[i].op),
    decreases i,
{
    if i > 0 {
        lemma_underway_run(store, goal, scenes, p, i - 1);
        guarantees::lemma_run(store, scenes[0].disk, goal, scenes, i - 1);
        assert(scenes[i - 1].leads_to(store, scenes[i - 1 + 1]));
        let reply = choose|reply: journal::ReplyView| #[trigger]
            scenes[i - 1].steps(store, reply, scenes[i]);
        assert(spared(scenes[i - 1], scenes[i - 1 + 1]));
        assert(separate(p) || swept(scenes[i - 1], scenes[i - 1 + 1]));
        lemma_underway(store, scenes[0].disk, goal, p, scenes[i - 1], reply, scenes[i]);
    }
}

// ---------------------------------------------------------------------------------------------
// Operations reach their end

/// That no symbolic link is on the way to a plain path.
pub open spec fn way_clear(d: disk::Disk, plain: Seq<char>) -> bool {
    forall|k: int|
        0 <= k < paths::ancestry(plain).len() ==> {
            let q = #[trigger] paths::ancestry(plain)[k];
            !(d.work.contains_key(q) && d.work[q] is Symlink)
        }
}

/// That the paths of an operation are in order, and no symbolic link is on the way to a file.
pub open spec fn workable(d: disk::Disk, p: history::PendingView) -> bool {
    &&& forall|j: int|
        0 <= j < p.change_set.files.len() ==> paths::normalized(
            (#[trigger] p.change_set.files[j]).path,
        ) is Some
    &&& forall|j: int|
        0 <= j < p.change_set.files.len() ==> way_clear(d, #[trigger] place(p, j))
}

/// That file `k` of a commit has to be installed when its turn comes: it does not hold what it is
/// to hold, or the installation of a file before it, whose companion it is, has removed it.
pub open spec fn commit_installs(
    start: disk::Disk,
    mutations: Seq<journal::MutationView>,
    k: int,
) -> bool
    decreases k,
{
    let plain = journal::plain_path(mutations[k].path);
    &&& mutations[k].contents matches Some(bytes) && (!(start.work.contains_key(plain)
        && start.work[plain] == disk::Item::File(bytes)) || exists|m: int|
        0 <= m < k && plain == disk::companion_of(
            journal::plain_path((#[trigger] mutations[m]).path),
        ) && commit_installs(start, mutations, m))
}

/// That the change of file `k` of a commit leaves file `j` be.
pub open spec fn harmless(
    start: disk::Disk,
    mutations: Seq<journal::MutationView>,
    j: int,
    k: int,
) -> bool {
    let a = journal::plain_path(mutations[j].path);
    let b = journal::plain_path(mutations[k].path);
    &&& a != b
    &&& commit_installs(start, mutations, k) ==> {
        &&& !paths::directories(b).contains(a)
        &&& a == disk::companion_of(b) ==> mutations[j].contents is None || (j > k
            && !start.work.contains_key(a))
    }
}

/// That nothing stands in the way of a goal: the state can be read, there is something to do, the
/// paths are in order and clear, and what is to be taken back or applied again finds its files as
/// expected.
pub open spec fn calm(start: disk::Disk, goal: journal::GoalView) -> bool {
    &&& start.legible()
    &&& match goal {
        journal::GoalView::Record(mutations) => {
            &&& forall|j: int|
                0 <= j < mutations.len() ==> {
                    let path = (#[trigger] mutations[j]).path;
                    let plain = journal::plain_path(path);
                    &&& paths::normalized(path) is Some
                    &&& way_clear(start, plain)
                    &&& start.work.contains_key(plain) ==> start.work[plain] is File
                }
            &&& forall|j: int, k: int|
                0 <= j < mutations.len() && 0 <= k < mutations.len() && j != k
                    ==> #[trigger] harmless(start, mutations, j, k)
        },
        journal::GoalView::Undo => {
            &&& start.history_state().cursor > 0
            &&& forall|p: history::PendingView| #[trigger]
                guarantees::plan(start, start, goal, p) ==> ready(start, p)
        },
        journal::GoalView::Redo => {
            &&& start.history_state().cursor < start.history_state().tip
            &&& forall|p: history::PendingView| #[trigger]
                guarantees::plan(start, start, goal, p) ==> ready(start, p)
        },
        _ => false,
    }
}

pub open spec fn ready(d: disk::Disk, p: history::PendingView) -> bool {
    &&& workable(d, p)
    &&& compatible(d, p)
    &&& guarantees::all_on(d, p, SnapshotSide::Expected)
    &&& all_measured(d, p)
}

/// That a reply reports no failure of the file system.
pub open spec fn fine(reply: journal::ReplyView) -> bool {
    match reply {
        journal::ReplyView::Done(r) => r is Ok,
        journal::ReplyView::Stats(stats) => forall|k: int|
            0 <= k < stats.len() ==> (#[trigger] stats[k] matches Err(e) ==> e.kind
                == IoErrorKind::NotFound),
        journal::ReplyView::Equal(r) => r is Ok,
        journal::ReplyView::Pending(r) => r matches Err(e) ==> e.kind == IoErrorKind::NotFound,
        journal::ReplyView::Turns(r) => r matches Ok(list) && forall|k: int|
            0 <= k < list.len() ==> #[trigger] list[k] is Ok,
        _ => true,
    }
}

/// That each scene leads to the next without a failure of the file system.
pub open spec fn is_smooth_run(store: history::StoreView, scenes: Seq<Scene>) -> bool {
    &&& scenes.len() > 0
    &&& forall|i: int|
        0 <= i < scenes.len() - 1 ==> leads_smoothly(store, #[trigger] scenes[i], scenes[i + 1])
}

pub open spec fn leads_smoothly(store: history::StoreView, now: Scene, after: Scene) -> bool {
    &&& exists|reply: journal::ReplyView| #[trigger] now.steps(store, reply, after) && fine(reply)
    &&& tidied(now, after)
}

/// That an installation has removed what it set aside.
pub open spec fn tidied(now: Scene, after: Scene) -> bool {
    now.op.request() matches Some(journal::RequestView::Install { path, .. })
        ==> !after.disk.work.contains_key(disk::companion_of(path))
}

/// That bytes are compared with a blob only.
pub open spec fn comparable(
    p: history::PendingView,
    i: int,
    side: SnapshotSide,
    part: journal::Part,
) -> bool {
    part is Bytes ==> p.side(p.change_set.files[i], side) is Blob
}

/// What holds at each stage of an operation that nothing disturbs.
pub open spec fn well(
    start: disk::Disk,
    goal: journal::GoalView,
    now: disk::Disk,
    op: journal::OperationView,
) -> bool {
    match op.stage {
        journal::StageView::Check { pending, index, conflicts, part } => {
            &&& ready(now, pending)
            &&& comparable(pending, index, SnapshotSide::Expected, part)
            &&& goal is Record || all_measured(start, pending)
            &&& conflicts.len() == 0
        },
        journal::StageView::SavePending { pending } => {
            &&& ready(now, pending)
            &&& goal is Record || all_measured(start, pending)
        },
        journal::StageView::Apply { pending, index, part } => {
            &&& workable(now, pending)
            &&& compatible(guarantees::back_then(start, now), pending)
            &&& goal is Record || all_measured(start, pending)
            &&& part is Expected ==> !now.on_side(pending, index, SnapshotSide::Desired)
            &&& match part {
                ApplyPart::Desired(q) => comparable(pending, index, SnapshotSide::Desired, q),
                ApplyPart::Expected(q) => comparable(pending, index, SnapshotSide::Expected, q),
                ApplyPart::Write => true,
                ApplyPart::Verify(q) => comparable(pending, index, SnapshotSide::Desired, q),
            }
        },
        journal::StageView::Confirm { pending, index, conflicts, part } => {
            &&& workable(now, pending)
            &&& comparable(pending, index, SnapshotSide::Desired, part)
            &&& guarantees::all_on(now, pending, SnapshotSide::Desired)
            &&& conflicts.len() == 0
        },
        journal::StageView::PruneRead { tip: _, entries, index: _, after: _ } => forall|k: int|
            0 <= k < entries.len() ==> #[trigger] entries[k] is Ok,
        journal::StageView::PruneBlobs { tip: _, entries, index: _, after: _, outdated: _ } =>
            forall|k: int| 0 <= k < entries.len() ==> #[trigger] entries[k] is Ok,
        journal::StageView::PruneRemove { tip: _, entries, index: _, after: _ } => forall|k: int|
            0 <= k < entries.len() ==> #[trigger] entries[k] is Ok,
        journal::StageView::CleanUp { .. } => false,
        journal::StageView::Done(r) => r is Ok,
        _ => true,
    }
}

proof fn lemma_no_problem(plain: Seq<char>, stats: Seq<journal::StatView>)
    requires
        forall|k: int|
            0 <= k < stats.len() ==> match #[trigger] stats[k] {
                Ok(node) => node != Node::Symlink,
                Err(e) => e.kind == IoErrorKind::NotFound,
            },
    ensures
        journal::path_problem(plain, stats) is None,
    decreases stats.len(),
{
    if stats.len() > 0 {
        let init = stats.drop_last();
        assert forall|k: int| 0 <= k < init.len() implies match #[trigger] init[k] {
            Ok(node) => node != Node::Symlink,
            Err(e) => e.kind == IoErrorKind::NotFound,
        } by {
            assert(init[k] == stats[k]);
        }
        lemma_no_problem(plain, init);
        assert(stats.last() == stats[stats.len() - 1]);
    }
}

pub proof fn lemma_look_succeeds(
    d: disk::Disk,
    path: Seq<char>,
    reply: journal::ReplyView,
    after: disk::Disk,
)
    requires
        d.performs(journal::stat_request(path), reply, after),
        way_clear(d, journal::plain_path(path)),
        fine(reply),
    ensures
        journal::looked_at(path, reply) is Ok,
{
    let plain = journal::plain_path(path);
    let way = paths::ancestry(plain);
    if let journal::ReplyView::Stats(stats) = reply {
        assert forall|k: int| 0 <= k < stats.len() implies match #[trigger] stats[k] {
            Ok(node) => node != Node::Symlink,
            Err(e) => e.kind == IoErrorKind::NotFound,
        } by {
            assert(d.seen(way[k], stats[k]));
        }
        lemma_no_problem(plain, stats);
    }
}

pub proof fn lemma_probe_succeeds(
    d: disk::Disk,
    path: Seq<char>,
    snapshot: history::SnapshotView,
    part: journal::Part,
    reply: journal::ReplyView,
    after: disk::Disk,
)
    requires
        d.performs(journal::probe_request(path, snapshot, part), reply, after),
        way_clear(d, journal::plain_path(path)),
        fine(reply),
        part is Bytes ==> snapshot is Blob,
    ensures
        journal::probed(path, snapshot, part, reply) is Ok,
{
    if part is Nodes {
        lemma_look_succeeds(d, path, reply, after);
    }
}

proof fn lemma_confirm_well(
    start: disk::Disk,
    goal: journal::GoalView,
    now: disk::Disk,
    op: journal::OperationView,
    p: history::PendingView,
    i: int,
)
    requires
        workable(now, p),
        guarantees::all_on(now, p, SnapshotSide::Desired),
        0 <= i <= p.change_set.files.len(),
    ensures
        well(start, goal, now, op.confirm_from(p, i, Seq::empty())),
{
    reveal(journal::OperationView::confirm_from);
}

proof fn lemma_apply_well(
    start: disk::Disk,
    goal: journal::GoalView,
    now: disk::Disk,
    op: journal::OperationView,
    p: history::PendingView,
    i: int,
)
    requires
        workable(now, p),
        compatible(guarantees::back_then(start, now), p),
        goal is Record || all_measured(start, p),
        0 <= i <= p.change_set.files.len(),
        advanced(now, p, i),
    ensures
        well(start, goal, now, op.apply_from(p, i)),
{
    reveal(journal::OperationView::apply_from);
    if i >= p.change_set.files.len() {
        lemma_confirm_well(start, goal, now, op, p, 0);
    }
}

proof fn lemma_check_well(
    start: disk::Disk,
    goal: journal::GoalView,
    now: disk::Disk,
    op: journal::OperationView,
    p: history::PendingView,
    i: int,
)
    requires
        ready(now, p),
        goal is Record || all_measured(start, p),
        0 <= i <= p.change_set.files.len(),
    ensures
        well(start, goal, now, op.check_from(p, i, Seq::empty())),
{
    reveal(journal::OperationView::check_from);
}

/// That every symbolic link was one before.
pub open spec fn no_new_links(before: disk::Disk, after: disk::Disk) -> bool {
    forall|q: Seq<char>| #[trigger]
        after.work.contains_key(q) && after.work[q] is Symlink ==> before.work.contains_key(q)
            && before.work[q] is Symlink
}

/// The change of a file to which the way is clear makes no symbolic link.
pub proof fn lemma_write_no_links(
    now: Scene,
    reply: journal::ReplyView,
    after: Scene,
    store: history::StoreView,
)
    requires
        now.steps(store, reply, after),
        fine(reply),
        now.op.stage matches journal::StageView::Apply {
            pending,
            index,
            part: ApplyPart::Write,
        } && way_clear(now.disk, place(pending, index)),
    ensures
        no_new_links(now.disk, after.disk),
{
    let d = now.disk;
    let v = after.disk;
    if let journal::StageView::Apply { pending, index, part } = now.op.stage {
        let path = place(pending, index);
        let way = paths::ancestry(path);
        assert(way[way.len() - 1] == path);
        assert forall|q: Seq<char>| #[trigger]
            v.work.contains_key(q) && v.work[q] is Symlink implies d.work.contains_key(q)
            && d.work[q] is Symlink by {
            match pending.side(pending.change_set.files[index], SnapshotSide::Desired) {
                history::SnapshotView::Missing => {
                    assert(v == (disk::Disk { work: d.work.remove(path), ..d }));
                },
                history::SnapshotView::Blob { id, len } => {
                    assert(d.installed(v, path, true));
                    if q != path && q != disk::companion_of(path) {
                        assert(disk::same_at(d.work, v.work, q) || v.work[q] is Other);
                    }
                },
            }
        }
    }
}

/// A change of the workspace puts no symbolic link on a way.
pub proof fn lemma_workable_stays(now: disk::Disk, after: disk::Disk, p: history::PendingView)
    requires
        workable(now, p),
        no_new_links(now, after),
    ensures
        workable(after, p),
{
    assert forall|j: int| 0 <= j < p.change_set.files.len() implies way_clear(
        after,
        #[trigger] place(p, j),
    ) by {
        assert(way_clear(now, place(p, j)));
        assert forall|k: int| 0 <= k < paths::ancestry(place(p, j)).len() implies {
            let q = #[trigger] paths::ancestry(place(p, j))[k];
            !(after.work.contains_key(q) && after.work[q] is Symlink)
        } by {
            let q = paths::ancestry(place(p, j))[k];
            assert(!(now.work.contains_key(q) && now.work[q] is Symlink));
        }
    }
}

proof fn lemma_well_apply(
    store: history::StoreView,
    start: disk::Disk,
    goal: journal::GoalView,
    now: Scene,
    reply: journal::ReplyView,
    after: Scene,
)
    requires
        now.op.stage matches journal::StageView::Apply { pending, index: _, part: _ } && underway(
            start,
            pending,
            now.disk,
            now.op,
        ),
        guarantees::sound(start, goal, now.disk, now.op),
        well(start, goal, now.disk, now.op),
        now.steps(store, reply, after),
        fine(reply),
    ensures
        well(start, goal, after.disk, after.op),
{
    reveal(journal::OperationView::on_apply);
    let d = now.disk;
    let v = after.disk;
    let op = now.op;
    if let journal::StageView::Apply { pending, index, part } = op.stage {
        let p = pending;
        let change = p.change_set.files[index];
        let desired = p.side(change, SnapshotSide::Desired);
        let expected = p.side(change, SnapshotSide::Expected);
        assert(way_clear(d, place(p, index)));
        assert(recovery::on_a_side(d, p, index));
        match part {
            ApplyPart::Desired(q) => {
                guarantees::lemma_probed(d, change.path, desired, q, reply, v);
                lemma_probe_succeeds(d, change.path, desired, q, reply, v);
                if d.on_side(p, index, SnapshotSide::Desired) {
                    lemma_apply_well(start, goal, d, op, p, index + 1);
                }
            },
            ApplyPart::Expected(q) => {
                guarantees::lemma_probed(d, change.path, expected, q, reply, v);
                lemma_probe_succeeds(d, change.path, expected, q, reply, v);
            },
            ApplyPart::Write => {
                lemma_write_no_links(now, reply, after, store);
                lemma_workable_stays(d, v, p);
            },
            ApplyPart::Verify(q) => {
                guarantees::lemma_probed(d, change.path, desired, q, reply, v);
                lemma_probe_succeeds(d, change.path, desired, q, reply, v);
                lemma_apply_well(start, goal, d, op, p, index + 1);
            },
        }
    }
}

proof fn lemma_well_check(
    store: history::StoreView,
    start: disk::Disk,
    goal: journal::GoalView,
    now: Scene,
    reply: journal::ReplyView,
    after: Scene,
)
    requires
        now.op.stage is Check || now.op.stage is Confirm,
        guarantees::sound(start, goal, now.disk, now.op),
        well(start, goal, now.disk, now.op),
        now.steps(store, reply, after),
        fine(reply),
    ensures
        well(start, goal, after.disk, after.op),
{
    reveal(journal::OperationView::on_check);
    reveal(journal::OperationView::on_confirm);
    let d = now.disk;
    let v = after.disk;
    let op = now.op;
    match op.stage {
        journal::StageView::Check { pending, index, conflicts, part } => {
            let change = pending.change_set.files[index];
            let snapshot = pending.side(change, SnapshotSide::Expected);
            assert(way_clear(d, place(pending, index)));
            assert(d.on_side(pending, index, SnapshotSide::Expected));
            guarantees::lemma_probed(d, change.path, snapshot, part, reply, v);
            lemma_probe_succeeds(d, change.path, snapshot, part, reply, v);
            assert(conflicts =~= Seq::empty());
            lemma_check_well(start, goal, d, op, pending, index + 1);
        },
        journal::StageView::Confirm { pending, index, conflicts, part } => {
            let change = pending.change_set.files[index];
            let snapshot = pending.side(change, SnapshotSide::Desired);
            assert(way_clear(d, place(pending, index)));
            assert(d.on_side(pending, index, SnapshotSide::Desired));
            guarantees::lemma_probed(d, change.path, snapshot, part, reply, v);
            lemma_probe_succeeds(d, change.path, snapshot, part, reply, v);
            assert(conflicts =~= Seq::empty());
            lemma_confirm_well(start, goal, d, op, pending, index + 1);
        },
        _ => {},
    }
}

proof fn lemma_commit_installs(
    start: disk::Disk,
    now: disk::Disk,
    mutations: Seq<journal::MutationView>,
    p: history::PendingView,
    k: int,
)
    requires
        guarantees::plan(start, now, journal::GoalView::Record(mutations), p),
        start.but_for_blobs(now),
        0 <= k < mutations.len(),
    ensures
        installs(now, p, k) ==> commit_installs(start, mutations, k),
    decreases k,
{
    if installs(now, p, k) {
        assert(guarantees::captured_file(start, now, mutations[k], p.change_set.files[k]));
        paths::plain_paths_are_plain(mutations[k].path);
        if now.on_side(p, k, SnapshotSide::Desired) {
            let m = choose|m: int|
                0 <= m < k && place(p, k) == disk::companion_of(#[trigger] place(p, m))
                    && installs(now, p, m);
            assert(guarantees::captured_file(start, now, mutations[m], p.change_set.files[m]));
            paths::plain_paths_are_plain(mutations[m].path);
            lemma_commit_installs(start, now, mutations, p, m);
            assert(mutations[m] == mutations[m]);
        }
    }
}

proof fn lemma_capture_well(
    start: disk::Disk,
    goal: journal::GoalView,
    now: disk::Disk,
    op: journal::OperationView,
    state: history::HistoryState,
    i: int,
    plain: Seq<Seq<char>>,
    files: Seq<history::FileChangeView>,
)
    requires
        calm(start, goal),
        0 <= i <= plain.len(),
        guarantees::capturing(start, now, goal, state, i, plain, files),
    ensures
        well(start, goal, now, op.capture_from(state, i, plain, files)),
{
    reveal(journal::OperationView::capture_from);
    if i >= plain.len() {
        let p = journal::commit_of(state, files);
        let mutations = goal->Record_0;
        assert forall|j: int| 0 <= j < files.len() implies place(p, j) == journal::plain_path(
            (#[trigger] mutations[j]).path,
        ) && guarantees::captured_file(start, now, mutations[j], files[j]) by {
            assert(guarantees::captured_file(start, now, mutations[j], files[j]));
            paths::plain_paths_are_plain(mutations[j].path);
        }
        assert forall|j: int, k: int|
            0 <= j < files.len() && 0 <= k < files.len() && j != k implies #[trigger] unharmed(
            now,
            p,
            j,
            k,
        ) by {
            assert(harmless(start, mutations, j, k));
            lemma_commit_installs(start, now, mutations, p, k);
            assert(guarantees::captured_file(start, now, mutations[j], files[j]));
            assert(guarantees::captured_file(start, now, mutations[k], files[k]));
        }
        assert forall|j: int| 0 <= j < files.len() implies paths::normalized(
            (#[trigger] p.change_set.files[j]).path,
        ) is Some by {
            assert(guarantees::captured_file(start, now, mutations[j], files[j]));
            paths::plain_paths_are_plain(mutations[j].path);
        }
        assert forall|j: int| 0 <= j < files.len() implies way_clear(
            now,
            #[trigger] place(p, j),
        ) by {
            assert(way_clear(start, journal::plain_path(mutations[j].path)));
            assert forall|k: int| 0 <= k < paths::ancestry(place(p, j)).len() implies {
                let q = #[trigger] paths::ancestry(place(p, j))[k];
                !(now.work.contains_key(q) && now.work[q] is Symlink)
            } by {
                let q = paths::ancestry(place(p, j))[k];
                assert(!(start.work.contains_key(q) && start.work[q] is Symlink));
            }
        }
        assert forall|j: int| 0 <= j < files.len() implies #[trigger] now.on_side(
            p,
            j,
            SnapshotSide::Expected,
        ) by {
            assert(guarantees::captured_file(start, now, mutations[j], files[j]));
            assert(place(p, j) == journal::plain_path(mutations[j].path));
        }
        assert forall|j: int| 0 <= j < files.len() implies #[trigger] measured(now, p, j) by {
            assert(guarantees::captured_file(start, now, mutations[j], files[j]));
        }
        assert(ready(now, p));
        lemma_check_well(start, goal, now, op, p, 0);
    }
}

proof fn lemma_captured_well(
    start: disk::Disk,
    goal: journal::GoalView,
    now: disk::Disk,
    op: journal::OperationView,
    state: history::HistoryState,
    i: int,
    plain: Seq<Seq<char>>,
    files: Seq<history::FileChangeView>,
    before: history::SnapshotView,
)
    requires
        op.goal == goal,
        calm(start, goal),
        0 <= i < plain.len(),
        guarantees::capturing(start, now, goal, state, i, plain, files),
        guarantees::captured_before(start, now, plain[i], before),
    ensures
        well(start, goal, now, op.captured(state, i, plain, files, before)),
{
    reveal(journal::OperationView::captured);
    let m = op.mutations()[i];
    if m.contents is None {
        let f = history::FileChangeView {
            path: plain[i],
            before,
            after: history::SnapshotView::Missing,
        };
        assert(guarantees::captured_file(start, now, m, f));
        lemma_capture_well(start, goal, now, op, state, i + 1, plain, files.push(f));
    }
}

proof fn lemma_validate_well(
    start: disk::Disk,
    goal: journal::GoalView,
    op: journal::OperationView,
    state: history::HistoryState,
    i: int,
    plain: Seq<Seq<char>>,
)
    requires
        op.goal == goal,
        goal is Record,
        calm(start, goal),
        state == start.history_state(),
        plain.len() == i,
        i <= op.mutations().len(),
        forall|j: int|
            0 <= j < i ==> paths::normalized((#[trigger] op.mutations()[j]).path) == Some(
                plain[j],
            ),
    ensures
        well(start, goal, start, op.validate_from(state, i, plain)),
{
    reveal(journal::OperationView::validate_from);
    let mutations = op.mutations();
    if i >= mutations.len() {
        lemma_capture_well(start, goal, start, op, state, 0, plain, Seq::empty());
    } else {
        assert(paths::normalized(mutations[i].path) is Some);
        let p = paths::normalized(mutations[i].path)->0;
        if plain.contains(p) {
            let j = choose|j: int| 0 <= j < plain.len() && plain[j] == p;
            assert(paths::normalized(mutations[j].path) == Some(plain[j]));
            assert(harmless(start, mutations, j, i));
        }
    }
}

proof fn lemma_prune_well(
    start: disk::Disk,
    goal: journal::GoalView,
    now: disk::Disk,
    op: journal::OperationView,
    tip: u64,
    entries: Seq<journal::EntryResultView>,
    i: int,
    after: journal::AfterView,
)
    requires
        forall|k: int| 0 <= k < entries.len() ==> #[trigger] entries[k] is Ok,
        0 <= i <= entries.len(),
    ensures
        well(start, goal, now, op.prune_from(tip, entries, i, after)),
    decreases entries.len() - i,
{
    reveal(journal::OperationView::pruned);
    reveal(journal::OperationView::finished);
    if i < entries.len() {
        assert(entries[i] is Ok);
        lemma_prune_well(start, goal, now, op, tip, entries, i + 1, after);
    }
}

proof fn lemma_well_first(
    store: history::StoreView,
    start: disk::Disk,
    goal: journal::GoalView,
    now: Scene,
    reply: journal::ReplyView,
    after: Scene,
)
    requires
        now.op.stage is ReadPending || now.op.stage is LoadState || now.op.stage is LoadTurn
            || now.op.stage is Validate,
        guarantees::quiet(start, goal),
        calm(start, goal),
        guarantees::sound(start, goal, now.disk, now.op),
        now.steps(store, reply, after),
        fine(reply),
    ensures
        well(start, goal, after.disk, after.op),
{
    let d = now.disk;
    let v = after.disk;
    let op = now.op;
    match op.stage {
        journal::StageView::ReadPending => {
            reveal(journal::OperationView::on_read_pending);
        },
        journal::StageView::LoadState { primary } => {
            reveal(journal::OperationView::on_load_state);
            reveal(journal::OperationView::loaded);
            if goal is Record {
                lemma_validate_well(start, goal, op, start.history_state(), 0, Seq::empty());
            }
        },
        journal::StageView::LoadTurn { kind, id, target, primary } => {
            reveal(journal::OperationView::on_load_turn);
            if reply->Turn_0 is Ok {
                let p = journal::replay(kind, reply->Turn_0->Ok_0, target);
                assert(guarantees::plan(start, start, goal, p));
                lemma_check_well(start, goal, d, op, p, 0);
            }
        },
        journal::StageView::Validate { state, index, plain } => {
            reveal(journal::OperationView::on_validate);
            let m = op.mutations()[index];
            assert(way_clear(start, journal::plain_path(m.path)));
            lemma_look_succeeds(d, m.path, reply, v);
            lemma_validate_well(start, goal, op, state, index + 1, plain);
        },
        _ => {},
    }
}

proof fn lemma_well_capture(
    store: history::StoreView,
    start: disk::Disk,
    goal: journal::GoalView,
    now: Scene,
    reply: journal::ReplyView,
    after: Scene,
)
    requires
        now.op.stage is Capture,
        guarantees::quiet(start, goal),
        calm(start, goal),
        guarantees::sound(start, goal, now.disk, now.op),
        now.steps(store, reply, after),
        fine(reply),
    ensures
        well(start, goal, after.disk, after.op),
{
    reveal(journal::OperationView::on_capture);
    let d = now.disk;
    let v = after.disk;
    let op = now.op;
    if let journal::StageView::Capture { state, index, plain, files, part } = op.stage {
        let m = op.mutations()[index];
        assert(paths::normalized(m.path) == Some(plain[index]));
        assert forall|id: Seq<char>| d.unknown(id) implies start.unknown(id) by {}
        match part {
            journal::CapturePartView::Nodes => {
                assert(way_clear(d, journal::plain_path(m.path))) by {
                    assert(way_clear(start, journal::plain_path(m.path)));
                }
                lemma_look_succeeds(d, m.path, reply, v);
                guarantees::lemma_looked_at(d, m.path, reply, v);
                if journal::looked_at(m.path, reply)->Ok_0 is None {
                    lemma_captured_well(
                        start,
                        goal,
                        d,
                        op,
                        state,
                        index,
                        plain,
                        files,
                        history::SnapshotView::Missing,
                    );
                }
            },
            journal::CapturePartView::CopyId { len } => {},
            journal::CapturePartView::Copy { len, id } => {
                assert(d.blobs.submap_of(v.blobs));
                guarantees::lemma_capturing_grows(start, d, v, goal, state, index, plain, files);
                let before = history::SnapshotView::Blob { id, len };
                assert(guarantees::captured_before(start, v, plain[index], before));
                lemma_captured_well(start, goal, v, op, state, index, plain, files, before);
            },
            journal::CapturePartView::StoreId { before } => {},
            journal::CapturePartView::Store { before, id } => {
                assert(d.blobs.submap_of(v.blobs));
                guarantees::lemma_capturing_grows(start, d, v, goal, state, index, plain, files);
                let f = history::FileChangeView {
                    path: plain[index],
                    before,
                    after: history::SnapshotView::Blob { id, len: m.contents->0.len() as u64 },
                };
                assert(guarantees::captured_before(start, v, plain[index], before));
                assert(guarantees::captured_file(start, v, m, f));
                lemma_capture_well(start, goal, v, op, state, index + 1, plain, files.push(f));
            },
        }
    }
}

proof fn lemma_well(
    store: history::StoreView,
    start: disk::Disk,
    goal: journal::GoalView,
    now: Scene,
    reply: journal::ReplyView,
    after: Scene,
)
    requires
        guarantees::quiet(start, goal),
        calm(start, goal),
        guarantees::sound(start, goal, now.disk, now.op),
        well(start, goal, now.disk, now.op),
        now.op.stage matches journal::StageView::Apply { pending, index: _, part: _ } ==> underway(
            start,
            pending,
            now.disk,
            now.op,
        ),
        now.steps(store, reply, after),
        fine(reply),
    ensures
        well(start, goal, after.disk, after.op),
{
    let d = now.disk;
    let v = after.disk;
    let op = now.op;
    match op.stage {
        journal::StageView::Capture { .. } => lemma_well_capture(
            store,
            start,
            goal,
            now,
            reply,
            after,
        ),
        journal::StageView::Apply { .. } => lemma_well_apply(store, start, goal, now, reply, after),
        journal::StageView::Check { .. } | journal::StageView::Confirm { .. } => lemma_well_check(
            store,
            start,
            goal,
            now,
            reply,
            after,
        ),
        journal::StageView::SavePending { pending } => {
            reveal(journal::OperationView::on_save_pending);
            lemma_workable_stays(d, v, pending);
            lemma_apply_well(start, goal, v, op, pending, 0);
        },
        journal::StageView::ReadReplaced { .. } => {
            reveal(journal::OperationView::on_read_replaced);
        },
        journal::StageView::SaveTurn { .. } => {
            reveal(journal::OperationView::on_save_turn);
        },
        journal::StageView::SaveState { .. } => {
            reveal(journal::OperationView::on_save_state);
        },
        journal::StageView::ClearPending { .. } => {
            reveal(journal::OperationView::on_clear_pending);
            reveal(journal::OperationView::cleared);
            reveal(journal::OperationView::finished);
        },
        journal::StageView::ListTurns { tip, after: then } => {
            reveal(journal::OperationView::on_list_turns);
            lemma_prune_well(start, goal, v, op, tip, reply->Turns_0->Ok_0, 0, then);
        },
        journal::StageView::PruneRead { .. } => {
            reveal(journal::OperationView::on_prune_read);
        },
        journal::StageView::PruneRemove { tip, entries, index, after: then } => {
            reveal(journal::OperationView::on_prune_remove);
            lemma_prune_well(start, goal, v, op, tip, entries, index + 1, then);
        },
        journal::StageView::DropReplaced { .. } | journal::StageView::PruneBlobs { .. } => {},
        _ => {
            lemma_well_first(store, start, goal, now, reply, after);
        },
    }
}

pub proof fn lemma_smooth(store: history::StoreView, scenes: Seq<Scene>)
    requires
        is_smooth_run(store, scenes),
    ensures
        guarantees::is_run(store, scenes),
{
    assert forall|i: int| 0 <= i < scenes.len() - 1 implies (#[trigger] scenes[i]).leads_to(
        store,
        scenes[i + 1],
    ) by {
        assert(leads_smoothly(store, scenes[i], scenes[i + 1]));
    }
}

/// Where nothing stands in the way of a commit, an undo or a redo and the file system does not
/// fail, the operation does not fail either: it goes on until it ends well.
pub proof fn undisturbed_operations_do_not_fail(
    store: history::StoreView,
    goal: journal::GoalView,
    scenes: Seq<Scene>,
    i: int,
)
    requires
        is_smooth_run(store, scenes),
        guarantees::quiet(scenes[0].disk, goal),
        calm(scenes[0].disk, goal),
        scenes[0].op == guarantees::beginning(goal),
        0 <= i < scenes.len(),
    ensures
        scenes[i].op.stage matches journal::StageView::Done(r) ==> r is Ok,
{
    lemma_well_run(store, goal, scenes, i);
}

/// A change of a file that does not fail leaves the others as they were.
pub proof fn lemma_swept(
    store: history::StoreView,
    now: Scene,
    reply: journal::ReplyView,
    after: Scene,
)
    requires
        now.steps(store, reply, after),
        fine(reply),
        tidied(now, after),
    ensures
        swept(now, after),
{
}

/// A change of a file that does not fail leaves the file as desired.
proof fn lemma_spared(
    store: history::StoreView,
    start: disk::Disk,
    goal: journal::GoalView,
    now: Scene,
    reply: journal::ReplyView,
    after: Scene,
)
    requires
        guarantees::sound(start, goal, now.disk, now.op),
        well(start, goal, now.disk, now.op),
        now.steps(store, reply, after),
        fine(reply),
        tidied(now, after),
    ensures
        spared(now, after),
        swept(now, after),
{
    lemma_swept(store, now, reply, after);
    if let journal::StageView::Apply { pending, index, part } = now.op.stage {
        if part is Write {
            lemma_measured(start, now.disk, goal, pending);
            assert(measured(now.disk, pending, index));
        }
    }
}

proof fn lemma_spared_run(
    store: history::StoreView,
    goal: journal::GoalView,
    scenes: Seq<Scene>,
    i: int,
)
    requires
        is_smooth_run(store, scenes),
        guarantees::quiet(scenes[0].disk, goal),
        calm(scenes[0].disk, goal),
        scenes[0].op == guarantees::beginning(goal),
        0 <= i < scenes.len() - 1,
    ensures
        spared(scenes[i], scenes[i + 1]),
        swept(scenes[i], scenes[i + 1]),
    decreases i, 1int,
{
    lemma_well_run(store, goal, scenes, i);
    lemma_smooth(store, scenes);
    guarantees::lemma_run(store, scenes[0].disk, goal, scenes, i);
    assert(leads_smoothly(store, scenes[i], scenes[i + 1]));
    let reply = choose|reply: journal::ReplyView| #[trigger]
        scenes[i].steps(store, reply, scenes[i + 1]) && fine(reply);
    lemma_spared(store, scenes[0].disk, goal, scenes[i], reply, scenes[i + 1]);
}

proof fn lemma_well_run(
    store: history::StoreView,
    goal: journal::GoalView,
    scenes: Seq<Scene>,
    i: int,
)
    requires
        is_smooth_run(store, scenes),
        guarantees::quiet(scenes[0].disk, goal),
        calm(scenes[0].disk, goal),
        scenes[0].op == guarantees::beginning(goal),
        0 <= i < scenes.len(),
    ensures
        well(scenes[0].disk, goal, scenes[i].disk, scenes[i].op),
    decreases i, 0int,
{
    if i > 0 {
        let now = scenes[i - 1];
        lemma_well_run(store, goal, scenes, i - 1);
        lemma_smooth(store, scenes);
        guarantees::lemma_run(store, scenes[0].disk, goal, scenes, i - 1);
        if let journal::StageView::Apply { pending, index, part } = now.op.stage {
            assert forall|k: int| 0 <= k < i - 1 implies spared(
                #[trigger] scenes[k],
                scenes[k + 1],
            ) && swept(scenes[k], scenes[k + 1]) by {
                lemma_spared_run(store, goal, scenes, k);
            }
            lemma_underway_run(store, goal, scenes, pending, i - 1);
        }
        assert(leads_smoothly(store, scenes[i - 1], scenes[i - 1 + 1]));
        let reply = choose|reply: journal::ReplyView| #[trigger]
            now.steps(store, reply, scenes[i]) && fine(reply);
        lemma_well(store, scenes[0].disk, goal, now, reply, scenes[i]);
    }
}

/// An operation that nothing disturbs makes no symbolic link.
pub proof fn lemma_no_new_links(
    store: history::StoreView,
    goal: journal::GoalView,
    scenes: Seq<Scene>,
    i: int,
)
    requires
        is_smooth_run(store, scenes),
        guarantees::quiet(scenes[0].disk, goal),
        calm(scenes[0].disk, goal),
        scenes[0].op == guarantees::beginning(goal),
        0 <= i < scenes.len(),
    ensures
        no_new_links(scenes[0].disk, scenes[i].disk),
    decreases i,
{
    if i > 0 {
        let now = scenes[i - 1];
        lemma_no_new_links(store, goal, scenes, i - 1);
        lemma_well_run(store, goal, scenes, i - 1);
        lemma_smooth(store, scenes);
        guarantees::lemma_run(store, scenes[0].disk, goal, scenes, i - 1);
        assert(leads_smoothly(store, scenes[i - 1], scenes[i - 1 + 1]));
        let reply = choose|reply: journal::ReplyView| #[trigger]
            now.steps(store, reply, scenes[i]) && fine(reply);
        if let journal::StageView::Apply { pending, index, part } = now.op.stage {
            if part is Write {
                assert(way_clear(now.disk, place(pending, index)));
                lemma_write_no_links(now, reply, scenes[i], store);
            }
        }
    }
}

} // verus!
