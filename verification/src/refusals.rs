//! What the journal refuses: paths that lead out of the workspace or through symbolic links, the
//! same file twice, and a redo once a commit has been made.

use vstd::prelude::*;

use crate::course;
use crate::disk;
use crate::guarantees;
use crate::guarantees::Scene;
use crate::history;
use crate::history::{HistoryState, SnapshotSide};
use crate::io::IoErrorKind;
use crate::journal;
use crate::journal::{ApplyPart, Node, Part};
use crate::paths;
use crate::progress;

verus! {

// ---------------------------------------------------------------------------------------------
// What stats say of the way to a file

/// Where the stats of a way raise no problem, none of them is of a symbolic link, and none is
/// missing for a reason but that nothing is there.
proof fn lemma_clear_stats(plain: Seq<char>, stats: Seq<journal::StatView>, k: int)
    requires
        journal::path_problem(plain, stats) is None,
        0 <= k < stats.len(),
    ensures
        match stats[k] {
            Ok(node) => node != Node::Symlink,
            Err(e) => e.kind == IoErrorKind::NotFound,
        },
    decreases stats.len(),
{
    if k < stats.len() - 1 {
        lemma_clear_stats(plain, stats.drop_last(), k);
    }
}

/// Where the way to a file was looked at without a problem, no symbolic link is on it.
proof fn lemma_way_clear(
    d: disk::Disk,
    path: Seq<char>,
    reply: journal::ReplyView,
    after: disk::Disk,
)
    requires
        d.performs(journal::stat_request(path), reply, after),
        journal::looked_at(path, reply) is Ok,
    ensures
        progress::way_clear(d, journal::plain_path(path)),
{
    let plain = journal::plain_path(path);
    let way = paths::ancestry(plain);
    let stats = reply->Stats_0;
    assert forall|k: int| 0 <= k < way.len() implies {
        let q = #[trigger] way[k];
        !(d.work.contains_key(q) && d.work[q] is Symlink)
    } by {
        assert(d.seen(way[k], stats[k]));
        lemma_clear_stats(plain, stats, k);
    }
}

// ---------------------------------------------------------------------------------------------
// Links

/// That an operation is about to change a file, or has only its bytes left to compare before.
pub open spec fn poised(op: journal::OperationView) -> bool {
    op.stage matches journal::StageView::Apply { pending: _, index: _, part } && (part
        == ApplyPart::Write || part == ApplyPart::Expected(Part::Bytes))
}

pub open spec fn clear_where_poised(d: disk::Disk, op: journal::OperationView) -> bool {
    match op.stage {
        journal::StageView::Apply { pending, index, part: _ } => poised(op) ==> progress::way_clear(
            d,
            progress::place(pending, index),
        ),
        _ => true,
    }
}

proof fn lemma_clear_step(
    store: history::StoreView,
    before: Scene,
    reply: journal::ReplyView,
    after: Scene,
)
    requires
        before.steps(store, reply, after),
        clear_where_poised(before.disk, before.op),
    ensures
        clear_where_poised(after.disk, after.op),
{
    course::lemma_follows(store, before.op, reply);
    if let journal::StageView::Apply { pending, index, part } = before.op.stage {
        if let ApplyPart::Expected(q) = part {
            let change = pending.change_set.files[index];
            let expected = pending.side(change, SnapshotSide::Expected);
            guarantees::lemma_probed(before.disk, change.path, expected, q, reply, after.disk);
            if q == Part::Nodes && journal::looked_at(change.path, reply) is Ok {
                lemma_way_clear(before.disk, change.path, reply, after.disk);
            }
        }
    }
}

proof fn lemma_clear_run(store: history::StoreView, scenes: Seq<Scene>, i: int)
    requires
        guarantees::is_run(store, scenes),
        !(scenes[0].op.stage is Apply),
        0 <= i < scenes.len(),
    ensures
        clear_where_poised(scenes[i].disk, scenes[i].op),
    decreases i,
{
    if i > 0 {
        lemma_clear_run(store, scenes, i - 1);
        assert(scenes[i - 1].leads_to(store, scenes[i - 1 + 1]));
        let reply = choose|reply: journal::ReplyView| #[trigger]
            scenes[i - 1].steps(store, reply, scenes[i]);
        lemma_clear_step(store, scenes[i - 1], reply, scenes[i]);
    }
}

/// No operation, not even in the course of a recovery, changes a file through a symbolic link:
/// where something changes in the workspace, no link is on the way to the file that is meant, nor
/// at its end.
pub proof fn links_are_never_followed(
    store: history::StoreView,
    scenes: Seq<Scene>,
    i: int,
    q: Seq<char>,
)
    requires
        guarantees::is_run(store, scenes),
        !(scenes[0].op.stage is Apply),
        0 <= i < scenes.len() - 1,
        !disk::same_at(scenes[i].disk.work, scenes[i + 1].disk.work, q),
    ensures
        scenes[i].op.stage matches journal::StageView::Apply { pending, index, part: _ } && {
            let path = progress::place(pending, index);
            &&& progress::way_clear(scenes[i].disk, path)
            &&& q == path || disk::beside(path, q)
        },
{
    guarantees::user_edits_are_never_overwritten(store, scenes, i, q);
    lemma_clear_run(store, scenes, i);
}

// ---------------------------------------------------------------------------------------------
// Paths

/// That a mutation cannot be carried out for its path, which leads out of the workspace or to none
/// of its files, or through a symbolic link, or is that of an earlier mutation.
pub open spec fn misplaced(
    d: disk::Disk,
    mutations: Seq<journal::MutationView>,
    k: int,
) -> bool {
    let path = mutations[k].path;
    ||| paths::normalized(path) is None
    ||| !progress::way_clear(d, journal::plain_path(path))
    ||| exists|j: int|
        0 <= j < k && paths::normalized((#[trigger] mutations[j]).path) == paths::normalized(path)
}

/// That neither a file nor a symbolic link, but a directory or the like, stands where a mutation
/// is to be carried out.
pub open spec fn occupied(
    d: disk::Disk,
    mutations: Seq<journal::MutationView>,
    k: int,
) -> bool {
    let plain = journal::plain_path(mutations[k].path);
    d.work.contains_key(plain) && d.work[plain] is Other
}

/// That a mutation cannot be carried out for its path: it leads out of the workspace or to none of
/// its files, it leads through a symbolic link or to a directory, or an earlier mutation is of the
/// same file.
pub open spec fn bad_path(
    d: disk::Disk,
    mutations: Seq<journal::MutationView>,
    k: int,
) -> bool {
    misplaced(d, mutations, k) || occupied(d, mutations, k)
}

/// That an error is about a path, or one of the file system where it may fail.
pub open spec fn about_a_path(e: history::HistoryErrorView, may_fail: bool) -> bool {
    e is InvalidPath || (may_fail && e is Io)
}

/// Where the file system does not fail, a problem on the way is one of the path.
proof fn lemma_fine_problem(plain: Seq<char>, stats: Seq<journal::StatView>)
    requires
        progress::fine(journal::ReplyView::Stats(stats)),
    ensures
        journal::path_problem(plain, stats) matches Some(e) ==> e is InvalidPath,
    decreases stats.len(),
{
    if stats.len() > 0 {
        let init = stats.drop_last();
        assert forall|k: int| 0 <= k < init.len() implies (#[trigger] init[k] matches Err(e)
            ==> e.kind == IoErrorKind::NotFound) by {
            assert(init[k] == stats[k]);
        }
        lemma_fine_problem(plain, init);
        assert(stats.last() == stats[stats.len() - 1]);
    }
}

/// What a look at the way to a file may fail with.
proof fn lemma_look_fails(
    d: disk::Disk,
    path: Seq<char>,
    reply: journal::ReplyView,
    after: disk::Disk,
    may_fail: bool,
)
    requires
        d.performs(journal::stat_request(path), reply, after),
        may_fail || progress::fine(reply),
    ensures
        journal::looked_at(path, reply) matches Err(e) ==> about_a_path(e, may_fail),
{
    guarantees::lemma_looked_at(d, path, reply, after);
    if !may_fail {
        if let journal::ReplyView::Stats(stats) = reply {
            lemma_fine_problem(journal::plain_path(path), stats);
        }
    }
}

/// What holds at each stage of a commit with a misplaced path.
pub open spec fn turning_away(
    start: disk::Disk,
    mutations: Seq<journal::MutationView>,
    bad: int,
    may_fail: bool,
    now: Scene,
) -> bool {
    &&& now.disk == start
    &&& now.op.goal == journal::GoalView::Record(mutations)
    &&& match now.op.stage {
        journal::StageView::ReadPending => true,
        journal::StageView::LoadState { primary } => primary matches Some(e) ==> start.state is None
            && (e.kind == IoErrorKind::NotFound <==> !start.state_damaged),
        journal::StageView::Validate { state: _, index, plain } => {
            &&& 0 <= index <= bad
            &&& plain.len() == index + 1
            &&& forall|j: int|
                0 <= j <= index ==> paths::normalized((#[trigger] mutations[j]).path) == Some(
                    plain[j],
                )
            &&& index == bad ==> !progress::way_clear(
                start,
                journal::plain_path(mutations[bad].path),
            )
        },
        journal::StageView::Done(r) => r matches Err(e) && about_a_path(e, may_fail),
        _ => false,
    }
}

proof fn lemma_turning_away_from(
    start: disk::Disk,
    mutations: Seq<journal::MutationView>,
    bad: int,
    may_fail: bool,
    op: journal::OperationView,
    state: HistoryState,
    i: int,
    plain: Seq<Seq<char>>,
)
    requires
        op.goal == journal::GoalView::Record(mutations),
        0 <= i <= bad < mutations.len(),
        misplaced(start, mutations, bad),
        plain.len() == i,
        forall|j: int|
            0 <= j < i ==> paths::normalized((#[trigger] mutations[j]).path) == Some(plain[j]),
    ensures
        turning_away(
            start,
            mutations,
            bad,
            may_fail,
            (Scene { disk: start, op: op.validate_from(state, i, plain) }),
        ),
{
    reveal(journal::OperationView::validate_from);
    if i == bad && paths::normalized(mutations[bad].path) is Some && exists|j: int|
        0 <= j < bad && paths::normalized((#[trigger] mutations[j]).path) == paths::normalized(
            mutations[bad].path,
        ) {
        let j = choose|j: int|
            0 <= j < bad && paths::normalized((#[trigger] mutations[j]).path) == paths::normalized(
                mutations[bad].path,
            );
        assert(plain[j] == paths::normalized(mutations[bad].path)->0);
        assert(plain.contains(plain[j]));
    }
}

proof fn lemma_turning_away(
    store: history::StoreView,
    start: disk::Disk,
    mutations: Seq<journal::MutationView>,
    bad: int,
    may_fail: bool,
    now: Scene,
    reply: journal::ReplyView,
    after: Scene,
)
    requires
        start.pending is None,
        0 <= bad < mutations.len(),
        misplaced(start, mutations, bad),
        turning_away(start, mutations, bad, may_fail, now),
        now.steps(store, reply, after),
        may_fail || (progress::fine(reply) && start.legible()),
    ensures
        turning_away(start, mutations, bad, may_fail, after),
{
    match now.op.stage {
        journal::StageView::ReadPending => {
            reveal(journal::OperationView::on_read_pending);
        },
        journal::StageView::LoadState { primary } => {
            reveal(journal::OperationView::on_load_state);
            reveal(journal::OperationView::loaded);
            let none = HistoryState { cursor: 0, tip: 0 };
            lemma_turning_away_from(start, mutations, bad, may_fail, now.op, none, 0, Seq::empty());
            if reply is State && reply->State_0 is Ok {
                let state = reply->State_0->Ok_0;
                let none = Seq::empty();
                lemma_turning_away_from(start, mutations, bad, may_fail, now.op, state, 0, none);
            }
        },
        journal::StageView::Validate { state, index, plain } => {
            reveal(journal::OperationView::on_validate);
            let path = mutations[index].path;
            lemma_look_fails(start, path, reply, after.disk, may_fail);
            if journal::looked_at(path, reply) is Ok {
                lemma_way_clear(start, path, reply, after.disk);
                let next = index + 1;
                let op = now.op;
                lemma_turning_away_from(start, mutations, bad, may_fail, op, state, next, plain);
            }
        },
        _ => {},
    }
}

proof fn lemma_turning_away_run(
    store: history::StoreView,
    mutations: Seq<journal::MutationView>,
    scenes: Seq<Scene>,
    bad: int,
    may_fail: bool,
    i: int,
)
    requires
        guarantees::is_run(store, scenes),
        may_fail || (progress::is_smooth_run(store, scenes) && scenes[0].disk.legible()),
        scenes[0].op == guarantees::beginning(journal::GoalView::Record(mutations)),
        scenes[0].disk.pending is None,
        0 <= bad < mutations.len(),
        misplaced(scenes[0].disk, mutations, bad),
        0 <= i < scenes.len(),
    ensures
        turning_away(scenes[0].disk, mutations, bad, may_fail, scenes[i]),
    decreases i,
{
    if i > 0 {
        let now = scenes[i - 1];
        let after = scenes[i - 1 + 1];
        lemma_turning_away_run(store, mutations, scenes, bad, may_fail, i - 1);
        assert(now.leads_to(store, after));
        assert(may_fail || progress::leads_smoothly(store, now, after));
        let reply = choose|reply: journal::ReplyView| #[trigger]
            now.steps(store, reply, after) && (may_fail || progress::fine(reply));
        lemma_turning_away(
            store,
            scenes[0].disk,
            mutations,
            bad,
            may_fail,
            now,
            reply,
            after,
        );
    }
}

/// What holds at each stage of a commit where a directory is in the way.
pub open spec fn barred(start: disk::Disk, bad: int, may_fail: bool, now: Scene) -> bool {
    &&& start.but_for_blobs(now.disk)
    &&& start.blobs.submap_of(now.disk.blobs)
    &&& match now.op.stage {
        journal::StageView::ReadPending => true,
        journal::StageView::LoadState { .. } => true,
        journal::StageView::Validate { .. } => true,
        journal::StageView::Capture { index, part, .. } => index <= bad && (index == bad ==> part
            is Nodes),
        journal::StageView::CleanUp { error, .. } => about_a_path(error, may_fail),
        journal::StageView::Done(r) => r matches Err(e) && about_a_path(e, may_fail),
        _ => false,
    }
}

proof fn lemma_barred(
    store: history::StoreView,
    start: disk::Disk,
    mutations: Seq<journal::MutationView>,
    bad: int,
    may_fail: bool,
    now: Scene,
    reply: journal::ReplyView,
    after: Scene,
)
    requires
        start.pending is None,
        0 <= bad < mutations.len(),
        occupied(start, mutations, bad),
        guarantees::sound(
            start,
            journal::GoalView::Record(mutations),
            now.disk,
            now.op,
        ),
        barred(start, bad, may_fail, now),
        now.steps(store, reply, after),
        may_fail || (progress::fine(reply) && start.legible()),
    ensures
        barred(start, bad, may_fail, after),
{
    let d = now.disk;
    let op = now.op;
    reveal(journal::OperationView::validate_from);
    reveal(journal::OperationView::capture_from);
    reveal(journal::OperationView::captured);
    match op.stage {
        journal::StageView::ReadPending => {
            reveal(journal::OperationView::on_read_pending);
        },
        journal::StageView::LoadState { .. } => {
            reveal(journal::OperationView::on_load_state);
            reveal(journal::OperationView::loaded);
        },
        journal::StageView::Validate { index, .. } => {
            reveal(journal::OperationView::on_validate);
            lemma_look_fails(d, mutations[index].path, reply, after.disk, may_fail);
        },
        journal::StageView::Capture { index, part, plain, .. } => {
            reveal(journal::OperationView::on_capture);
            if part is Nodes {
                lemma_look_fails(d, mutations[index].path, reply, after.disk, may_fail);
                guarantees::lemma_looked_at(d, mutations[index].path, reply, after.disk);
            }
            assert(d.blobs.submap_of(after.disk.blobs));
            assert forall|id: Seq<char>| #[trigger] start.blobs.dom().contains(id) implies
                after.disk.blobs.dom().contains(id) && after.disk.blobs[id] == start.blobs[id] by {
                assert(d.blobs.dom().contains(id));
                assert(d.blobs[id] == start.blobs[id]);
                assert(after.disk.blobs.dom().contains(id));
                assert(after.disk.blobs[id] == d.blobs[id]);
            }
        },
        journal::StageView::CleanUp { blobs, .. } => {
            assert forall|id: Seq<char>| #[trigger] start.blobs.dom().contains(id) implies
                after.disk.blobs.dom().contains(id) && after.disk.blobs[id] == start.blobs[id] by {
                assert(start.blobs.contains_key(id) && d.blobs.contains_key(id));
                assert(!blobs.contains(id));
                assert(disk::same_at(d.blobs, after.disk.blobs, id));
            }
            assert(start.blobs.submap_of(after.disk.blobs));
        },
        _ => {},
    }
}

proof fn lemma_barred_run(
    store: history::StoreView,
    mutations: Seq<journal::MutationView>,
    scenes: Seq<Scene>,
    bad: int,
    may_fail: bool,
    i: int,
)
    requires
        guarantees::is_run(store, scenes),
        may_fail || (progress::is_smooth_run(store, scenes) && scenes[0].disk.legible()),
        scenes[0].op == guarantees::beginning(journal::GoalView::Record(mutations)),
        guarantees::quiet(scenes[0].disk, journal::GoalView::Record(mutations)),
        0 <= bad < mutations.len(),
        occupied(scenes[0].disk, mutations, bad),
        0 <= i < scenes.len(),
    ensures
        barred(scenes[0].disk, bad, may_fail, scenes[i]),
    decreases i,
{
    if i > 0 {
        let now = scenes[i - 1];
        let after = scenes[i - 1 + 1];
        let goal = journal::GoalView::Record(mutations);
        lemma_barred_run(store, mutations, scenes, bad, may_fail, i - 1);
        guarantees::lemma_run(store, scenes[0].disk, goal, scenes, i - 1);
        assert(now.leads_to(store, after));
        assert(may_fail || progress::leads_smoothly(store, now, after));
        let reply = choose|reply: journal::ReplyView| #[trigger]
            now.steps(store, reply, after) && (may_fail || progress::fine(reply));
        lemma_barred(store, scenes[0].disk, mutations, bad, may_fail, now, reply, after);
    }
}

/// A commit with a bad path is refused before it touches anything: at every moment the disk is as
/// at the start, but for blobs that were made before a directory was met, and the commit ends with
/// the error that a path is invalid, unless the file system fails or the state cannot be read.
pub proof fn bad_paths_are_refused(
    store: history::StoreView,
    mutations: Seq<journal::MutationView>,
    scenes: Seq<Scene>,
    bad: int,
    i: int,
)
    requires
        guarantees::is_run(store, scenes),
        scenes[0].op == guarantees::beginning(journal::GoalView::Record(mutations)),
        guarantees::quiet(scenes[0].disk, journal::GoalView::Record(mutations)),
        0 <= bad < mutations.len(),
        bad_path(scenes[0].disk, mutations, bad),
        0 <= i < scenes.len(),
    ensures
        misplaced(scenes[0].disk, mutations, bad) ==> scenes[i].disk == scenes[0].disk,
        scenes[0].disk.but_for_blobs(scenes[i].disk),
        scenes[0].disk.blobs.submap_of(scenes[i].disk.blobs),
        scenes[i].op.stage matches journal::StageView::Done(r) ==> r matches Err(e) && (
        e is InvalidPath || e is Io),
        progress::is_smooth_run(store, scenes) && scenes[0].disk.legible() ==> (
        scenes[i].op.stage matches journal::StageView::Done(r) ==> r matches Err(e)
            && e is InvalidPath),
{
    let start = scenes[0].disk;
    let smooth = progress::is_smooth_run(store, scenes) && start.legible();
    if misplaced(start, mutations, bad) {
        lemma_turning_away_run(store, mutations, scenes, bad, true, i);
        if smooth {
            lemma_turning_away_run(store, mutations, scenes, bad, false, i);
        }
    } else {
        lemma_barred_run(store, mutations, scenes, bad, true, i);
        if smooth {
            lemma_barred_run(store, mutations, scenes, bad, false, i);
        }
    }
}

// ---------------------------------------------------------------------------------------------
// Redo

/// A commit makes what was undone before it unreachable: a redo right after it finds nothing,
/// unless the file system fails, and changes nothing.
pub proof fn a_commit_leaves_nothing_to_redo(
    store: history::StoreView,
    mutations: Seq<journal::MutationView>,
    commit: Seq<Scene>,
    redo: Seq<Scene>,
    c: history::ChangeSetView,
    i: int,
)
    requires
        guarantees::accomplishes(store, journal::GoalView::Record(mutations), commit, c),
        guarantees::is_run(store, redo),
        redo[0].op == guarantees::beginning(journal::GoalView::Redo),
        redo[0].disk == commit.last().disk,
        0 <= i < redo.len(),
    ensures
        redo[i].disk == redo[0].disk,
        redo[i].op.stage matches journal::StageView::Done(r) ==> r matches Err(e) && (e is Io
            || e is NothingToRedo),
{
    guarantees::commits_apply_and_record(store, mutations, commit, c);
    guarantees::nothing_is_left_to_redo_or_undo(store, journal::GoalView::Redo, redo, i);
}

} // verus!
