//! What the operations of the journal fail with: the errors that came, and no others.

use vstd::prelude::*;

use crate::history;
use crate::history::HistoryState;
use crate::io;
use crate::io::IoErrorKind;
use crate::journal;
use crate::paths;

verus! {

// ---------------------------------------------------------------------------------------------
// Replies and the errors in them

/// That the reply is of the kind that the request asks for.
pub open spec fn answers(request: journal::RequestView, reply: journal::ReplyView) -> bool {
    match request {
        journal::RequestView::Stat { paths } => reply matches journal::ReplyView::Stats(stats)
            && stats.len() == paths.len(),
        journal::RequestView::Compare { .. } => reply is Equal,
        journal::RequestView::Discard { .. } => true,
        journal::RequestView::NewBlobId => reply is BlobId,
        journal::RequestView::ReadPending => reply is Pending,
        journal::RequestView::ReadState { .. } => reply is State,
        journal::RequestView::ReadTurn { .. } => reply is Turn,
        journal::RequestView::ReadTurnFile { .. } => reply is Turn,
        journal::RequestView::ListTurns => reply is Turns,
        _ => reply is Done,
    }
}

/// That one of the entries could not be read, with the given error.
pub open spec fn entry_failed(
    entries: Seq<journal::EntryResultView>,
    e: io::IoErrorView,
) -> bool {
    entries.contains(Err::<journal::EntryView, io::IoErrorView>(e))
}

/// That the error came with the reply.
pub open spec fn came_with(reply: journal::ReplyView, e: io::IoErrorView) -> bool {
    match reply {
        journal::ReplyView::Done(r) => r == Err::<(), io::IoErrorView>(e),
        journal::ReplyView::Stats(stats) => stats.contains(
            Err::<journal::Node, io::IoErrorView>(e),
        ),
        journal::ReplyView::Equal(r) => r == Err::<bool, io::IoErrorView>(e),
        journal::ReplyView::BlobId(_) => false,
        journal::ReplyView::Pending(r) => r == Err::<history::PendingView, io::IoErrorView>(e),
        journal::ReplyView::State(r) => r == Err::<HistoryState, io::IoErrorView>(e),
        journal::ReplyView::Turn(r) => r == Err::<history::ChangeSetView, io::IoErrorView>(e),
        journal::ReplyView::Turns(r) => match r {
            Ok(entries) => entry_failed(entries, e),
            Err(x) => x == e,
        },
    }
}

/// That the error came with an earlier reply, and something had to be seen to first.
pub open spec fn came_before(stage: journal::StageView, e: io::IoErrorView) -> bool {
    match stage {
        journal::StageView::LoadState { primary } => primary == Some(e),
        journal::StageView::LoadTurn { kind: _, id: _, target: _, primary } => primary == Some(e),
        journal::StageView::PruneRemove { tip: _, entries, index: _, after: _ } => entry_failed(
            entries,
            e,
        ),
        _ => false,
    }
}

/// That there is a reason to refuse a path: it has no plain form, it was given for a mutation whose
/// path has none, it stands for an earlier mutation, too, or a symbolic link is on the way to it.
pub open spec fn is_refused(
    op: journal::OperationView,
    reply: journal::ReplyView,
    path: Seq<char>,
) -> bool {
    ||| paths::normalized(path) is None
    ||| exists|j: int|
        0 <= j < op.mutations().len() && (#[trigger] op.mutations()[j]).shown == path
            && paths::normalized(op.mutations()[j].path) is None
    ||| op.stage matches journal::StageView::Validate { state: _, index: _, plain }
        && plain.contains(path)
    ||| op.request() == Some(journal::RequestView::Stat { paths: paths::ancestry(path) }) && (reply
        matches journal::ReplyView::Stats(stats) && stats.contains(
        Ok::<journal::Node, io::IoErrorView>(journal::Node::Symlink),
    ))
}

/// That an operation has a reason to fail with the error, or had one before it cleaned up.
pub open spec fn has_a_cause(
    op: journal::OperationView,
    reply: journal::ReplyView,
    error: history::HistoryErrorView,
) -> bool {
    ||| op.stage matches journal::StageView::CleanUp { error: x, blobs: _ } && x == error
    ||| is_caused(op, reply, error)
}

/// That the reply gives an operation a reason to fail with the error.
pub open spec fn is_caused(
    op: journal::OperationView,
    reply: journal::ReplyView,
    error: history::HistoryErrorView,
) -> bool {
    match error {
        history::HistoryErrorView::Io(e) => {
            ||| came_with(reply, e)
            ||| came_before(op.stage, e)
            ||| op.stage is Apply && e.kind == IoErrorKind::Other && e.message
                == "filesystem verification failed after change"@
        },
        history::HistoryErrorView::InvalidPath(path) => is_refused(op, reply, path),
        history::HistoryErrorView::Conflict(list) => {
            &&& list.len() > 0
            &&& op.stage is Recover || op.stage is Check || op.stage is Apply || op.stage is Confirm
        },
        history::HistoryErrorView::NothingToUndo => {
            &&& op.goal is Undo
            &&& op.stage is LoadState
            &&& reply matches journal::ReplyView::State(Ok(state)) ==> state.cursor == 0
        },
        history::HistoryErrorView::NothingToRedo => {
            &&& op.goal is Redo
            &&& op.stage is LoadState
            &&& reply matches journal::ReplyView::State(Ok(state)) ==> state.cursor >= state.tip
        },
    }
}

proof fn lemma_path_problem_cause(plain: Seq<char>, stats: Seq<journal::StatView>)
    ensures
        match journal::path_problem(plain, stats) {
            None => true,
            Some(history::HistoryErrorView::InvalidPath(path)) => path == plain && stats.contains(
                Ok::<journal::Node, io::IoErrorView>(journal::Node::Symlink),
            ),
            Some(history::HistoryErrorView::Io(e)) => e.kind != IoErrorKind::NotFound
                && stats.contains(Err::<journal::Node, io::IoErrorView>(e)),
            _ => false,
        },
    decreases stats.len(),
{
    if stats.len() > 0 {
        let init = stats.drop_last();
        lemma_path_problem_cause(plain, init);
        let last = stats.len() - 1;
        assert(stats[last] == stats.last());
        match journal::path_problem(plain, init) {
            Some(history::HistoryErrorView::InvalidPath(_)) => {
                let x = Ok::<journal::Node, io::IoErrorView>(journal::Node::Symlink);
                let i = choose|i: int| 0 <= i < init.len() && init[i] == x;
                assert(stats[i] == x);
            },
            Some(history::HistoryErrorView::Io(e)) => {
                let x = Err::<journal::Node, io::IoErrorView>(e);
                let i = choose|i: int| 0 <= i < init.len() && init[i] == x;
                assert(stats[i] == x);
            },
            _ => {},
        }
    }
}

/// Something on the way stops an operation exactly if it is a symbolic link or could not be looked
/// at; that it is missing does not. The first such thing decides on the error.
pub proof fn the_first_obstacle_decides(
    plain: Seq<char>,
    stats: Seq<journal::StatView>,
    k: int,
)
    requires
        0 <= k < stats.len(),
        forall|i: int|
            0 <= i < k ==> match #[trigger] stats[i] {
                Ok(node) => node != journal::Node::Symlink,
                Err(e) => e.kind == IoErrorKind::NotFound,
            },
    ensures
        stats[k] == Ok::<journal::Node, io::IoErrorView>(journal::Node::Symlink)
            ==> journal::path_problem(plain, stats) == Some(
            history::HistoryErrorView::InvalidPath(plain),
        ),
        stats[k] matches Err(e) ==> e.kind != IoErrorKind::NotFound ==> journal::path_problem(
            plain,
            stats,
        ) == Some(history::HistoryErrorView::Io(e)),
        k == stats.len() - 1 && match stats[k] {
            Ok(node) => node != journal::Node::Symlink,
            Err(e) => e.kind == IoErrorKind::NotFound,
        } ==> journal::path_problem(plain, stats) is None,
    decreases stats.len(),
{
    let init = stats.drop_last();
    if k < init.len() {
        assert forall|i: int| 0 <= i < k implies match #[trigger] init[i] {
            Ok(node) => node != journal::Node::Symlink,
            Err(e) => e.kind == IoErrorKind::NotFound,
        } by {
            assert(init[i] == stats[i]);
        }
        the_first_obstacle_decides(plain, init, k);
    } else if init.len() > 0 {
        assert forall|i: int| 0 <= i < init.len() implies match #[trigger] init[i] {
            Ok(node) => node != journal::Node::Symlink,
            Err(e) => e.kind == IoErrorKind::NotFound,
        } by {
            assert(init[i] == stats[i]);
        }
        assert(match stats[init.len() - 1] {
            Ok(node) => node != journal::Node::Symlink,
            Err(e) => e.kind == IoErrorKind::NotFound,
        });
        the_first_obstacle_decides(plain, init, init.len() - 1);
    }
}

proof fn lemma_looked_at_cause(
    op: journal::OperationView,
    path: Seq<char>,
    reply: journal::ReplyView,
)
    requires
        op.request() == Some(journal::stat_request(path)),
        answers(op.request()->0, reply),
    ensures
        journal::looked_at(path, reply) matches Err(e) ==> has_a_cause(op, reply, e),
{
    let plain = journal::plain_path(path);
    lemma_path_problem_cause(plain, reply->Stats_0);
}

proof fn lemma_probed_cause(
    op: journal::OperationView,
    path: Seq<char>,
    snapshot: history::SnapshotView,
    part: journal::Part,
    reply: journal::ReplyView,
)
    requires
        op.request() == Some(journal::probe_request(path, snapshot, part)),
        answers(op.request()->0, reply),
        part is Bytes ==> snapshot is Blob,
    ensures
        journal::probed(path, snapshot, part, reply) matches Err(e) ==> has_a_cause(op, reply, e),
{
    if part is Nodes {
        lemma_looked_at_cause(op, path, reply);
    }
}

proof fn lemma_prune_cause(
    op: journal::OperationView,
    reply: journal::ReplyView,
    tip: u64,
    entries: Seq<journal::EntryResultView>,
    i: int,
    after: journal::AfterView,
)
    requires
        0 <= i,
        forall|e: io::IoErrorView| #[trigger]
            entry_failed(entries, e) ==> has_a_cause(op, reply, history::HistoryErrorView::Io(e)),
    ensures
        op.prune_from(tip, entries, i, after).stage matches journal::StageView::Done(Err(e))
            ==> has_a_cause(op, reply, e),
    decreases entries.len() - i,
{
    reveal(journal::OperationView::pruned);
    reveal(journal::OperationView::finished);
    if i < entries.len() {
        if let Err(e) = entries[i] {
            assert(entries[i] == Err::<journal::EntryView, io::IoErrorView>(e));
            assert(entry_failed(entries, e));
        } else {
            lemma_prune_cause(op, reply, tip, entries, i + 1, after);
        }
    }
}

/// That the bytes of a file are compared only with a blob.
pub open spec fn compares_blobs(op: journal::OperationView) -> bool {
    match op.stage {
        journal::StageView::Recover { pending, index, tally: _, expected, part } => {
            let change = pending.change_set.files[index];
            part is Bytes ==> pending.side(
                change,
                if expected is None {
                    history::SnapshotSide::Expected
                } else {
                    history::SnapshotSide::Desired
                },
            ) is Blob
        },
        journal::StageView::Check { pending, index, conflicts: _, part } => part is Bytes
            ==> pending.side(
            pending.change_set.files[index],
            history::SnapshotSide::Expected,
        ) is Blob,
        journal::StageView::Confirm { pending, index, conflicts: _, part } => part is Bytes
            ==> pending.side(
            pending.change_set.files[index],
            history::SnapshotSide::Desired,
        ) is Blob,
        journal::StageView::Apply { pending, index, part } => {
            let change = pending.change_set.files[index];
            match part {
                journal::ApplyPart::Desired(q) => q is Bytes ==> pending.side(
                    change,
                    history::SnapshotSide::Desired,
                ) is Blob,
                journal::ApplyPart::Expected(q) => q is Bytes ==> pending.side(
                    change,
                    history::SnapshotSide::Expected,
                ) is Blob,
                journal::ApplyPart::Verify(q) => q is Bytes ==> pending.side(
                    change,
                    history::SnapshotSide::Desired,
                ) is Blob,
                journal::ApplyPart::Write => true,
            }
        },
        _ => true,
    }
}

/// That what is asked of a file is as it should be after the step, and that the step has a reason
/// to fail if it does.
pub open spec fn well_caused(
    op: journal::OperationView,
    reply: journal::ReplyView,
    next: journal::OperationView,
) -> bool {
    &&& compares_blobs(next)
    &&& next.stage matches journal::StageView::Done(Err(e)) ==> has_a_cause(op, reply, e)
}

proof fn lemma_of_files(
    op: journal::OperationView,
    reply: journal::ReplyView,
    p: history::PendingView,
    i: int,
    tally: journal::TallyView,
    conflicts: Seq<Seq<char>>,
)
    requires
        tally.conflicts.len() > 0 ==> op.stage is Recover,
        conflicts.len() > 0 ==> op.stage is Check || op.stage is Confirm,
        0 <= i,
    ensures
        well_caused(op, reply, op.recover_from(p, i, tally)),
        well_caused(op, reply, op.check_from(p, i, conflicts)),
        well_caused(op, reply, op.apply_from(p, i)),
        well_caused(op, reply, op.confirm_from(p, i, conflicts)),
{
    reveal(journal::OperationView::apply_from);
    reveal(journal::OperationView::confirm_from);
    reveal(journal::OperationView::check_from);
    reveal(journal::OperationView::recover_from);
    reveal(journal::OperationView::decided);
}

proof fn lemma_of_mutations(
    op: journal::OperationView,
    reply: journal::ReplyView,
    state: HistoryState,
    i: int,
    plain: Seq<Seq<char>>,
)
    requires
        0 <= i,
        plain.len() > 0 ==> (op.stage matches journal::StageView::Validate { plain: x, .. } && x
            == plain),
    ensures
        well_caused(op, reply, op.validate_from(state, i, plain)),
{
    reveal(journal::OperationView::validate_from);
    if i >= op.mutations().len() {
        lemma_of_captures(op, reply, state, 0, plain, Seq::empty());
    } else if paths::normalized(op.mutations()[i].path) is None {
        assert(paths::normalized(op.mutations()[i].path) is None);
    }
}

proof fn lemma_of_captures(
    op: journal::OperationView,
    reply: journal::ReplyView,
    state: HistoryState,
    i: int,
    plain: Seq<Seq<char>>,
    files: Seq<history::FileChangeView>,
)
    ensures
        well_caused(op, reply, op.capture_from(state, i, plain, files)),
{
    reveal(journal::OperationView::capture_from);
    lemma_of_files(
        op,
        reply,
        journal::commit_of(state, files),
        0,
        journal::TallyView::start(),
        Seq::empty(),
    );
}

proof fn lemma_of_state(
    op: journal::OperationView,
    reply: journal::ReplyView,
    state: HistoryState,
)
    requires
        op.stage is LoadState,
        reply matches journal::ReplyView::State(Ok(s)) ==> s == state,
    ensures
        well_caused(op, reply, op.loaded(state)),
{
    reveal(journal::OperationView::loaded);
    lemma_of_mutations(op, reply, state, 0, Seq::empty());
}

proof fn lemma_of_capture(
    store: history::StoreView,
    op: journal::OperationView,
    reply: journal::ReplyView,
)
    requires
        op.stage is Capture,
        op.wf(),
        answers(op.request()->0, reply),
    ensures
        well_caused(op, reply, op.next(store, reply)),
{
    reveal(journal::OperationView::on_capture);
    reveal(journal::OperationView::captured);
    if let journal::StageView::Capture { state, index, plain, files, part } = op.stage {
        if part is Nodes {
            lemma_looked_at_cause(op, op.mutations()[index].path, reply);
        }
        assert forall|more: Seq<history::FileChangeView>| well_caused(
            op,
            reply,
            #[trigger] op.capture_from(state, index + 1, plain, more),
        ) by {
            lemma_of_captures(op, reply, state, index + 1, plain, more);
        }
    }
}

proof fn lemma_of_comparison(
    store: history::StoreView,
    op: journal::OperationView,
    reply: journal::ReplyView,
)
    requires
        op.stage is Recover || op.stage is Check || op.stage is Confirm,
        op.wf(),
        compares_blobs(op),
        answers(op.request()->0, reply),
    ensures
        well_caused(op, reply, op.next(store, reply)),
{
    reveal(journal::OperationView::on_recover);
    reveal(journal::OperationView::on_check);
    reveal(journal::OperationView::on_confirm);
    let start = journal::TallyView::start();
    match op.stage {
        journal::StageView::Recover { pending, index, tally, expected, part } => {
            let change = pending.change_set.files[index];
            let side = if expected is None {
                history::SnapshotSide::Expected
            } else {
                history::SnapshotSide::Desired
            };
            lemma_probed_cause(op, change.path, pending.side(change, side), part, reply);
            assert forall|t: journal::TallyView| well_caused(
                op,
                reply,
                #[trigger] op.recover_from(pending, index + 1, t),
            ) by {
                lemma_of_files(op, reply, pending, index + 1, t, Seq::empty());
            }
        },
        journal::StageView::Check { pending, index, conflicts, part } => {
            let change = pending.change_set.files[index];
            let snapshot = pending.side(change, history::SnapshotSide::Expected);
            lemma_probed_cause(op, change.path, snapshot, part, reply);
            lemma_of_files(op, reply, pending, index + 1, start, conflicts);
            lemma_of_files(op, reply, pending, index + 1, start, conflicts.push(change.path));
        },
        journal::StageView::Confirm { pending, index, conflicts, part } => {
            let change = pending.change_set.files[index];
            let snapshot = pending.side(change, history::SnapshotSide::Desired);
            lemma_probed_cause(op, change.path, snapshot, part, reply);
            lemma_of_files(op, reply, pending, index + 1, start, conflicts);
            lemma_of_files(op, reply, pending, index + 1, start, conflicts.push(change.path));
        },
        _ => {},
    }
}

proof fn lemma_of_application(
    store: history::StoreView,
    op: journal::OperationView,
    reply: journal::ReplyView,
)
    requires
        op.stage is Apply,
        op.wf(),
        compares_blobs(op),
        answers(op.request()->0, reply),
    ensures
        well_caused(op, reply, op.next(store, reply)),
{
    reveal(journal::OperationView::on_apply);
    if let journal::StageView::Apply { pending, index, part } = op.stage {
        let change = pending.change_set.files[index];
        let expected = pending.side(change, history::SnapshotSide::Expected);
        let desired = pending.side(change, history::SnapshotSide::Desired);
        lemma_of_files(
            op,
            reply,
            pending,
            index + 1,
            journal::TallyView::start(),
            Seq::empty(),
        );
        match part {
            journal::ApplyPart::Desired(q) => {
                lemma_probed_cause(op, change.path, desired, q, reply);
            },
            journal::ApplyPart::Expected(q) => {
                lemma_probed_cause(op, change.path, expected, q, reply);
            },
            journal::ApplyPart::Verify(q) => {
                lemma_probed_cause(op, change.path, desired, q, reply);
            },
            journal::ApplyPart::Write => {},
        }
    }
}

/// An operation fails only for a reason: with an error of the file system that a reply brought,
/// with a path that is not to be used, with a conflict in which some file is not as it should be,
/// with the state leaving nothing to undo or to redo, or where a change did not show afterwards.
pub proof fn failures_have_a_cause(
    store: history::StoreView,
    op: journal::OperationView,
    reply: journal::ReplyView,
)
    requires
        op.request() is Some,
        op.wf(),
        compares_blobs(op),
        answers(op.request()->0, reply),
    ensures
        compares_blobs(op.next(store, reply)),
        op.next(store, reply).stage matches journal::StageView::Done(Err(e)) ==> has_a_cause(
            op,
            reply,
            e,
        ),
{
    let none = Seq::<Seq<char>>::empty();
    let start = journal::TallyView::start();
    match op.stage {
        journal::StageView::Capture { .. } => lemma_of_capture(store, op, reply),
        journal::StageView::Apply { .. } => lemma_of_application(store, op, reply),
        journal::StageView::Recover { .. } => lemma_of_comparison(store, op, reply),
        journal::StageView::Check { .. } => lemma_of_comparison(store, op, reply),
        journal::StageView::Confirm { .. } => lemma_of_comparison(store, op, reply),
        journal::StageView::LoadState { primary: _ } => {
            reveal(journal::OperationView::on_load_state);
            if let journal::ReplyView::State(Ok(state)) = reply {
                lemma_of_state(op, reply, state);
            } else {
                lemma_of_state(op, reply, HistoryState { cursor: 0, tip: 0 });
            }
        },
        journal::StageView::LoadTurn { kind, id: _, target, primary: _ } => {
            reveal(journal::OperationView::on_load_turn);
            if let journal::ReplyView::Turn(Ok(c)) = reply {
                lemma_of_files(op, reply, journal::replay(kind, c, target), 0, start, none);
            }
        },
        journal::StageView::ReadPending => {
            reveal(journal::OperationView::on_read_pending);
            if let journal::ReplyView::Pending(Ok(p)) = reply {
                lemma_of_files(op, reply, p, 0, start, none);
            }
        },
        journal::StageView::SavePending { pending } => {
            reveal(journal::OperationView::on_save_pending);
            lemma_of_files(op, reply, pending, 0, start, none);
        },
        journal::StageView::Validate { state, index, plain } => {
            reveal(journal::OperationView::on_validate);
            lemma_looked_at_cause(op, op.mutations()[index].path, reply);
            lemma_of_mutations(op, reply, state, index + 1, plain);
        },
        journal::StageView::ListTurns { tip, after } => {
            reveal(journal::OperationView::on_list_turns);
            reveal(journal::OperationView::pruned);
            reveal(journal::OperationView::finished);
            if let journal::ReplyView::Turns(Ok(entries)) = reply {
                lemma_prune_cause(op, reply, tip, entries, 0, after);
                lemma_prune_compares(op, tip, entries, 0, after);
            }
        },
        journal::StageView::PruneRemove { tip, entries, index, after } => {
            reveal(journal::OperationView::on_prune_remove);
            lemma_prune_cause(op, reply, tip, entries, index + 1, after);
            lemma_prune_compares(op, tip, entries, index + 1, after);
        },
        _ => {
            reveal(journal::OperationView::on_directories);
            reveal(journal::OperationView::on_drop_pending);
            reveal(journal::OperationView::on_read_replaced);
            reveal(journal::OperationView::on_save_turn);
            reveal(journal::OperationView::on_save_state);
            reveal(journal::OperationView::on_clear_pending);
            reveal(journal::OperationView::cleared);
            reveal(journal::OperationView::finished);
            reveal(journal::OperationView::on_prune_read);
        },
    }
}

proof fn lemma_prune_compares(
    op: journal::OperationView,
    tip: u64,
    entries: Seq<journal::EntryResultView>,
    i: int,
    after: journal::AfterView,
)
    ensures
        compares_blobs(op.prune_from(tip, entries, i, after)),
    decreases entries.len() - i,
{
    reveal(journal::OperationView::pruned);
    reveal(journal::OperationView::finished);
    if i < entries.len() {
        lemma_prune_compares(op, tip, entries, i + 1, after);
    }
}

// ---------------------------------------------------------------------------------------------
// Errors that are passed on

/// An operation whose writing fails fails with the error of the writing.
pub proof fn failed_writings_are_reported(
    store: history::StoreView,
    op: journal::OperationView,
    e: io::IoErrorView,
)
    requires
        op.stage is MakeDirectories || op.stage is SavePending || op.stage is SaveTurn
            || op.stage is SaveState,
    ensures
        op.next(store, journal::ReplyView::Done(Err(e))).stage == journal::StageView::Done(
            Err(history::HistoryErrorView::Io(e)),
        ),
{
    reveal(journal::OperationView::on_directories);
    reveal(journal::OperationView::on_save_pending);
    reveal(journal::OperationView::on_save_turn);
    reveal(journal::OperationView::on_save_state);
}

/// What is to be removed may be gone already: that is as good as a removal; any other failure is
/// reported.
pub proof fn what_is_gone_is_removed(
    store: history::StoreView,
    op: journal::OperationView,
    e: io::IoErrorView,
)
    requires
        op.stage is DropPending || op.stage is ClearPending || op.stage is PruneRemove,
    ensures
        e.kind == IoErrorKind::NotFound ==> op.next(store, journal::ReplyView::Done(Err(e)))
            == op.next(store, journal::ReplyView::Done(Ok(()))),
        e.kind != IoErrorKind::NotFound ==> op.next(
            store,
            journal::ReplyView::Done(Err(e)),
        ).stage == journal::StageView::Done(Err(history::HistoryErrorView::Io(e))),
{
    reveal(journal::OperationView::on_drop_pending);
    reveal(journal::OperationView::on_clear_pending);
    reveal(journal::OperationView::on_prune_remove);
}

/// Where nothing is pending there is nothing to recover; a pending operation that cannot be read
/// is reported. Where there is no directory of transactions there is nothing to prune; one that
/// cannot be listed is reported.
pub proof fn what_is_missing_is_nothing_to_do(
    store: history::StoreView,
    op: journal::OperationView,
    e: io::IoErrorView,
)
    ensures
        op.stage is ReadPending && e.kind == IoErrorKind::NotFound ==> op.next(
            store,
            journal::ReplyView::Pending(Err(e)),
        ).stage == (journal::StageView::LoadState { primary: None }),
        op.stage is ReadPending && e.kind != IoErrorKind::NotFound ==> op.next(
            store,
            journal::ReplyView::Pending(Err(e)),
        ).stage == journal::StageView::Done(Err(history::HistoryErrorView::Io(e))),
        op.stage is ListTurns && e.kind == IoErrorKind::NotFound ==> op.next(
            store,
            journal::ReplyView::Turns(Err(e)),
        ) == op.next(store, journal::ReplyView::Turns(Ok(Seq::empty()))),
        op.stage is ListTurns && e.kind != IoErrorKind::NotFound ==> op.next(
            store,
            journal::ReplyView::Turns(Err(e)),
        ).stage == journal::StageView::Done(Err(history::HistoryErrorView::Io(e))),
{
    reveal(journal::OperationView::on_read_pending);
    reveal(journal::OperationView::on_list_turns);
}

/// The state and the transactions are read from their backups where they cannot be read; where
/// neither can, the error is that of the file itself, but a state that is missing is that of a new
/// journal.
pub proof fn backups_are_read_second(
    store: history::StoreView,
    op: journal::OperationView,
    first: io::IoErrorView,
    second: io::IoErrorView,
)
    ensures
        op.stage == (journal::StageView::LoadState { primary: None }) ==> {
            let again = op.next(store, journal::ReplyView::State(Err(first)));
            &&& op.request() == Some(journal::RequestView::ReadState { backup: false })
            &&& again.request() == Some(journal::RequestView::ReadState { backup: true })
            &&& first.kind != IoErrorKind::NotFound ==> again.next(
                store,
                journal::ReplyView::State(Err(second)),
            ).stage == journal::StageView::Done(Err(history::HistoryErrorView::Io(first)))
            &&& first.kind == IoErrorKind::NotFound ==> again.next(
                store,
                journal::ReplyView::State(Err(second)),
            ) == again.next(
                store,
                journal::ReplyView::State(Ok(HistoryState { cursor: 0, tip: 0 })),
            )
        },
        op.stage matches journal::StageView::LoadTurn {
            kind: _,
            id,
            target: _,
            primary: None,
        } ==> {
            let again = op.next(store, journal::ReplyView::Turn(Err(first)));
            &&& op.request() == Some(journal::RequestView::ReadTurn { id, backup: false })
            &&& again.request() == Some(journal::RequestView::ReadTurn { id, backup: true })
            &&& again.next(store, journal::ReplyView::Turn(Err(second))).stage
                == journal::StageView::Done(Err(history::HistoryErrorView::Io(first)))
        },
{
    reveal(journal::OperationView::on_load_state);
    reveal(journal::OperationView::on_load_turn);
}

// ---------------------------------------------------------------------------------------------
// Blobs that are discarded

/// That a list of blobs holds every blob of some changes.
pub open spec fn holds_blobs_of(
    blobs: Seq<Seq<char>>,
    files: Seq<history::FileChangeView>,
) -> bool {
    forall|j: int|
        0 <= j < files.len() ==> ((#[trigger] files[j]).before
            matches history::SnapshotView::Blob { id, .. } ==> blobs.contains(id)) && (
        files[j].after matches history::SnapshotView::Blob { id, .. } ==> blobs.contains(id))
}

proof fn lemma_holds_blobs(files: Seq<history::FileChangeView>)
    ensures
        holds_blobs_of(history::files_blobs(files), files),
    decreases files.len(),
{
    if files.len() > 0 {
        let init = files.drop_last();
        let last = files.last();
        let head = history::files_blobs(init);
        let a = history::snapshot_blobs(last.before);
        let b = history::snapshot_blobs(last.after);
        let all = history::files_blobs(files);
        lemma_holds_blobs(init);
        assert(all == head + a + b);
        assert forall|j: int| 0 <= j < files.len() implies ((#[trigger] files[j]).before
            matches history::SnapshotView::Blob { id, .. } ==> all.contains(id)) && (
        files[j].after matches history::SnapshotView::Blob { id, .. } ==> all.contains(id)) by {
            if j < init.len() {
                assert(init[j] == files[j]);
                assert forall|id: Seq<char>| head.contains(id) implies all.contains(id) by {
                    let k = choose|k: int| 0 <= k < head.len() && head[k] == id;
                    assert(all[k] == id);
                }
            } else {
                if let history::SnapshotView::Blob { id, .. } = last.before {
                    assert(all[head.len() as int] == id);
                }
                if let history::SnapshotView::Blob { id, .. } = last.after {
                    assert(all[(head.len() + a.len()) as int] == id);
                }
            }
        }
    }
}

/// A commit that meets something else than a file, or that cannot copy the present contents of a
/// file or store the next ones, discards every blob that it has made, and then fails with the
/// reason.
pub proof fn failed_captures_discard_their_blobs(
    store: history::StoreView,
    op: journal::OperationView,
    reply: journal::ReplyView,
    e: io::IoErrorView,
    any: journal::ReplyView,
)
    requires
        op.stage is Capture,
    ensures
        op.stage matches journal::StageView::Capture { state: _, index, plain, files, part } ==> {
            let next = op.next(store, journal::ReplyView::Done(Err(e)));
            &&& part is Copy || part is Store ==> {
                &&& next.request() matches Some(journal::RequestView::Discard { blobs })
                &&& holds_blobs_of(blobs, files)
                &&& part matches journal::CapturePartView::Store { before, id: _ } ==> (before
                    matches history::SnapshotView::Blob { id: made, .. } ==> blobs.contains(made))
                &&& next.next(store, any).stage == journal::StageView::Done(
                    Err(history::HistoryErrorView::Io(e)),
                )
            }
            &&& part is Nodes && (journal::looked_at(op.mutations()[index].path, reply)
                matches Ok(Some(node)) && !(node is File)) ==> {
                let next = op.next(store, reply);
                &&& next.request() matches Some(journal::RequestView::Discard { blobs })
                &&& holds_blobs_of(blobs, files)
                &&& next.next(store, any).stage == journal::StageView::Done(
                    Err(
                        history::HistoryErrorView::InvalidPath(
                            paths::below(store.workspace, plain[index]),
                        ),
                    ),
                )
            }
        },
{
    reveal(journal::OperationView::on_capture);
    if let journal::StageView::Capture { state: _, index: _, plain: _, files, part } = op.stage {
        lemma_holds_blobs(files);
        if let journal::CapturePartView::Store { before, id: _ } = part {
            let a = history::snapshot_blobs(before);
            let b = history::files_blobs(files);
            assert forall|x: Seq<char>| b.contains(x) implies (a + b).contains(x) by {
                let k = choose|k: int| 0 <= k < b.len() && b[k] == x;
                assert((a + b)[a.len() + k] == x);
            }
            if let history::SnapshotView::Blob { id: made, .. } = before {
                assert((a + b)[0] == made);
            }
        }
    }
}

/// Every blob of a transaction that goes is discarded: of a commit that is taken back, of one that
/// another takes the place of, and of one that is outdated.
pub proof fn blobs_go_with_their_transaction(op: journal::OperationView)
    ensures
        op.stage matches journal::StageView::DropBlobs { pending } ==> (op.request()
            matches Some(journal::RequestView::Discard { blobs }) && holds_blobs_of(
            blobs,
            pending.change_set.files,
        )),
        op.stage matches journal::StageView::DropReplaced { pending: _, replaced } ==> (
        op.request() matches Some(journal::RequestView::Discard { blobs }) && holds_blobs_of(
            blobs,
            replaced.files,
        )),
        op.stage matches journal::StageView::PruneBlobs { outdated, .. } ==> (op.request()
            matches Some(journal::RequestView::Discard { blobs }) && holds_blobs_of(
            blobs,
            outdated.files,
        )),
{
    match op.stage {
        journal::StageView::DropBlobs { pending } => lemma_holds_blobs(pending.change_set.files),
        journal::StageView::DropReplaced { pending: _, replaced } => lemma_holds_blobs(
            replaced.files,
        ),
        journal::StageView::PruneBlobs { outdated, .. } => lemma_holds_blobs(outdated.files),
        _ => {},
    }
}

// ---------------------------------------------------------------------------------------------
// Numbers and names

/// Transactions are numbered one after the other: a commit has the number that follows that of the
/// last one applied, and is then the last one, applied and recorded.
pub proof fn commits_are_numbered_one_after_the_other(
    state: HistoryState,
    files: Seq<history::FileChangeView>,
)
    ensures
        journal::commit_of(state, files).change_set.id == vstd::math::min(
            state.cursor + 1,
            u64::MAX as int,
        ),
        journal::commit_of(state, files).change_set.files == files,
        journal::commit_of(state, files).target.cursor == journal::commit_of(
            state,
            files,
        ).change_set.id,
        journal::commit_of(state, files).target.tip == journal::commit_of(
            state,
            files,
        ).change_set.id,
        journal::commit_of(state, files).kind == history::PendingKind::Commit,
{
}

/// A transaction is outdated exactly if it is recorded in a file of its name and its number is
/// beyond the last one.
pub proof fn later_transactions_are_outdated(id: u64, tip: u64, other: Seq<char>)
    ensures
        journal::is_outdated(
            journal::EntryView {
                name: crate::numbers::decimal(id as nat) + ".json"@,
                is_file: true,
            },
            tip,
        ) <==> id > tip,
        !journal::is_outdated(journal::EntryView { name: other, is_file: false }, tip),
        history::turn_id(other) is None ==> !journal::is_outdated(
            journal::EntryView { name: other, is_file: true },
            tip,
        ),
{
    history::turn_names_read_back(id);
}

/// The journal takes mutations as they are given, in order: each with the path that it was given
/// under, the contents that the file is to hold, and the path with slashes for separators.
pub proof fn mutations_are_taken_as_they_are(
    platform: paths::Platform,
    list: Seq<history::FileMutationView>,
    i: int,
)
    requires
        0 <= i < list.len(),
    ensures
        journal::all_taken(platform, list).len() == list.len(),
        journal::all_taken(platform, list)[i].shown == list[i].path,
        journal::all_taken(platform, list)[i].contents == list[i].contents,
        platform != paths::Platform::Windows ==> journal::all_taken(platform, list)[i].path
            == list[i].path,
{
}

/// A mutation whose path has no plain form is refused under the path that it was given under, and
/// one for a file that an earlier one is for is refused under the plain path; any other is looked
/// at next.
pub proof fn mutations_are_refused_by_name(
    store: history::StoreView,
    op: journal::OperationView,
    reply: journal::ReplyView,
    state: HistoryState,
    k: int,
    plain: Seq<Seq<char>>,
)
    requires
        op.stage == (journal::StageView::Validate { state, index: k, plain }),
        0 <= k < op.mutations().len() - 1,
        journal::looked_at(op.mutations()[k].path, reply) is Ok,
    ensures
        paths::normalized(op.mutations()[k + 1].path) is None ==> op.next(store, reply).stage
            == journal::StageView::Done(
            Err(history::HistoryErrorView::InvalidPath(op.mutations()[k + 1].shown)),
        ),
        paths::normalized(op.mutations()[k + 1].path) matches Some(p) ==> plain.contains(p)
            ==> op.next(store, reply).stage == journal::StageView::Done(
            Err(history::HistoryErrorView::InvalidPath(p)),
        ),
        paths::normalized(op.mutations()[k + 1].path) matches Some(p) ==> !plain.contains(p)
            ==> op.next(store, reply).request() == Some(
            journal::RequestView::Stat { paths: paths::ancestry(p) },
        ),
{
    reveal(journal::OperationView::on_validate);
    reveal(journal::OperationView::validate_from);
}

/// What is compared of a file: that it is missing where there was none, and its bytes where there
/// was one. What stands at the end of the way decides on the former, the comparison on the latter.
pub proof fn files_are_compared_with_their_snapshots(
    path: Seq<char>,
    stats: Seq<journal::StatView>,
    id: Seq<char>,
    len: u64,
    r: Result<bool, io::IoErrorView>,
)
    requires
        stats.len() == paths::ancestry(journal::plain_path(path)).len(),
        journal::path_problem(journal::plain_path(path), stats) is None,
    ensures
        journal::probed(
            path,
            history::SnapshotView::Missing,
            journal::Part::Nodes,
            journal::ReplyView::Stats(stats),
        ) == Ok::<Option<bool>, history::HistoryErrorView>(Some(stats.last() is Err)),
        journal::probed(
            path,
            history::SnapshotView::Blob { id, len },
            journal::Part::Nodes,
            journal::ReplyView::Stats(stats),
        ) == Ok::<Option<bool>, history::HistoryErrorView>(None),
        journal::probe_request(
            path,
            history::SnapshotView::Blob { id, len },
            journal::Part::Bytes,
        ) == (journal::RequestView::Compare { path: journal::plain_path(path), blob: id, len }),
        journal::probed(
            path,
            history::SnapshotView::Blob { id, len },
            journal::Part::Bytes,
            journal::ReplyView::Equal(r),
        ) == match r {
            Ok(equal) => Ok::<Option<bool>, history::HistoryErrorView>(Some(equal)),
            Err(e) => Err(history::HistoryErrorView::Io(e)),
        },
{
}

// ---------------------------------------------------------------------------------------------
// Steps with a file

/// The file that an operation is comparing with a snapshot, and how far it has come with it.
pub open spec fn comparing(op: journal::OperationView) -> Option<(Seq<char>, journal::Part)> {
    match op.stage {
        journal::StageView::Recover { pending, index, tally: _, expected: _, part } => Some(
            (pending.change_set.files[index].path, part),
        ),
        journal::StageView::Check { pending, index, conflicts: _, part } => Some(
            (pending.change_set.files[index].path, part),
        ),
        journal::StageView::Confirm { pending, index, conflicts: _, part } => Some(
            (pending.change_set.files[index].path, part),
        ),
        journal::StageView::Apply { pending, index, part } => match part {
            journal::ApplyPart::Desired(q) => Some((pending.change_set.files[index].path, q)),
            journal::ApplyPart::Expected(q) => Some((pending.change_set.files[index].path, q)),
            journal::ApplyPart::Verify(q) => Some((pending.change_set.files[index].path, q)),
            journal::ApplyPart::Write => None,
        },
        _ => None,
    }
}

/// A comparison that fails is reported as such, and not taken for a difference; so is an obstacle
/// on the way to the file.
pub proof fn failed_comparisons_are_reported(
    store: history::StoreView,
    op: journal::OperationView,
    e: io::IoErrorView,
    stats: Seq<journal::StatView>,
)
    requires
        comparing(op) is Some,
        op.wf(),
    ensures
        comparing(op) matches Some((path, part)) ==> {
            let plain = journal::plain_path(path);
            let problem = journal::path_problem(plain, stats);
            &&& part is Bytes ==> op.next(store, journal::ReplyView::Equal(Err(e))).stage
                == journal::StageView::Done(Err(history::HistoryErrorView::Io(e)))
            &&& part is Nodes && stats.len() == paths::ancestry(plain).len() && problem is Some
                ==> op.next(store, journal::ReplyView::Stats(stats)).stage
                == journal::StageView::Done(Err(problem->0))
        },
{
    reveal(journal::OperationView::on_recover);
    reveal(journal::OperationView::on_check);
    reveal(journal::OperationView::on_confirm);
    reveal(journal::OperationView::on_apply);
}

/// How one file is changed: one that is as desired is left alone; one that is neither so nor as
/// expected is a conflict, and nothing is done to it; one that is as expected is changed; and a
/// change that does not show afterwards is a failure.
pub proof fn files_are_changed_only_from_what_is_expected(
    store: history::StoreView,
    op: journal::OperationView,
    p: history::PendingView,
    i: int,
    equal: bool,
)
    requires
        op.wf(),
        op.stage matches journal::StageView::Apply { pending, index, part: _ } && pending == p
            && index == i,
    ensures
        ({
            let change = p.change_set.files[i];
            let next = op.next(store, journal::ReplyView::Equal(Ok(equal)));
            let part = op.stage->Apply_part;
            &&& part == journal::ApplyPart::Expected(journal::Part::Bytes) && !equal
                ==> next.stage == journal::StageView::Done(
                Err(history::HistoryErrorView::Conflict(seq![change.path])),
            )
            &&& part == journal::ApplyPart::Expected(journal::Part::Bytes) && equal
                ==> next.request() == Some(
                match p.side(change, history::SnapshotSide::Desired) {
                    history::SnapshotView::Missing => journal::RequestView::RemoveWork {
                        path: journal::plain_path(change.path),
                    },
                    history::SnapshotView::Blob { id, len: _ } => journal::RequestView::Install {
                        blob: id,
                        path: journal::plain_path(change.path),
                    },
                },
            )
            &&& part == journal::ApplyPart::Verify(journal::Part::Bytes) && !equal ==> (
            next.stage matches journal::StageView::Done(Err(error)) && (error
                matches history::HistoryErrorView::Io(e) && e.kind == IoErrorKind::Other
                && e.message == "filesystem verification failed after change"@))
            &&& (part == journal::ApplyPart::Verify(journal::Part::Bytes) || part
                == journal::ApplyPart::Desired(journal::Part::Bytes)) && equal && i
                < p.change_set.files.len() - 1 && paths::normalized(
                p.change_set.files[i + 1].path,
            ) is Some ==> next.stage == (journal::StageView::Apply {
                pending: p,
                index: i + 1,
                part: journal::ApplyPart::Desired(journal::Part::Nodes),
            })
        }),
{
    reveal(journal::OperationView::on_apply);
    reveal(journal::OperationView::apply_from);
}

/// A file that is to be removed may be gone already; any other failure to remove or to replace a
/// file is reported.
pub proof fn failed_changes_are_reported(
    store: history::StoreView,
    op: journal::OperationView,
    e: io::IoErrorView,
)
    requires
        op.stage matches journal::StageView::Apply { part, .. } && part is Write,
    ensures
        op.request() is Some,
        op.request()->0 is RemoveWork && e.kind == IoErrorKind::NotFound ==> op.next(
            store,
            journal::ReplyView::Done(Err(e)),
        ) == op.next(store, journal::ReplyView::Done(Ok(()))),
        op.request()->0 is Install || e.kind != IoErrorKind::NotFound ==> op.next(
            store,
            journal::ReplyView::Done(Err(e)),
        ).stage == journal::StageView::Done(Err(history::HistoryErrorView::Io(e))),
        op.next(store, journal::ReplyView::Done(Ok(()))).stage matches journal::StageView::Apply {
            part,
            ..
        } && part == journal::ApplyPart::Verify(journal::Part::Nodes),
{
    reveal(journal::OperationView::on_apply);
}

// ---------------------------------------------------------------------------------------------
// Transactions that go

/// A commit that takes the place of another transaction discards the blobs of that one, unless it
/// is the same; a record that cannot be read is replaced all the same.
pub proof fn replaced_transactions_lose_their_blobs(
    store: history::StoreView,
    op: journal::OperationView,
    p: history::PendingView,
    c: history::ChangeSetView,
    e: io::IoErrorView,
)
    ensures
        op.stage == (journal::StageView::ReadReplaced { pending: p }) ==> {
            let found = op.next(store, journal::ReplyView::Turn(Ok(c)));
            let none = op.next(store, journal::ReplyView::Turn(Err(e)));
            &&& found.stage == (journal::StageView::SaveTurn { pending: p, replaced: Some(c) })
            &&& none.stage == (journal::StageView::SaveTurn { pending: p, replaced: None })
            &&& found.request() == Some(journal::RequestView::WriteTurn(p.change_set))
            &&& none.request() == Some(journal::RequestView::WriteTurn(p.change_set))
        },
        op.stage == (journal::StageView::ClearPending { pending: p, replaced: Some(c) }) && p.kind
            == history::PendingKind::Commit && c != p.change_set ==> (op.next(
            store,
            journal::ReplyView::Done(Ok(())),
        ).request() matches Some(journal::RequestView::Discard { blobs }) && holds_blobs_of(
            blobs,
            c.files,
        )),
        op.stage == (journal::StageView::ClearPending { pending: p, replaced: Some(p.change_set) })
            && p.kind == history::PendingKind::Commit ==> op.next(
            store,
            journal::ReplyView::Done(Ok(())),
        ).request() == Some(journal::RequestView::ListTurns),
{
    reveal(journal::OperationView::on_read_replaced);
    reveal(journal::OperationView::on_clear_pending);
    reveal(journal::OperationView::cleared);
    lemma_holds_blobs(c.files);
}

/// A transaction that is outdated is removed with its blobs; one whose record cannot be read is
/// removed all the same.
pub proof fn outdated_transactions_lose_their_blobs(
    store: history::StoreView,
    op: journal::OperationView,
    c: history::ChangeSetView,
    e: io::IoErrorView,
    any: journal::ReplyView,
)
    requires
        op.stage is PruneRead,
        op.wf(),
    ensures
        ({
            let name = op.stage->PruneRead_entries[op.stage->PruneRead_index]->Ok_0.name;
            let found = op.next(store, journal::ReplyView::Turn(Ok(c)));
            let none = op.next(store, journal::ReplyView::Turn(Err(e)));
            let remove = journal::RequestView::RemoveTurnFile { name };
            &&& op.request() == Some(journal::RequestView::ReadTurnFile { name })
            &&& found.request() matches Some(journal::RequestView::Discard { blobs })
            &&& holds_blobs_of(blobs, c.files)
            &&& found.next(store, any).request() == Some(remove)
            &&& none.request() == Some(remove)
        }),
{
    reveal(journal::OperationView::on_prune_read);
    lemma_holds_blobs(c.files);
}

/// What is decided on an interrupted operation once its last file has been compared: with a file
/// on neither side it is a conflict; with all files as it leaves them it is completed; with all as
/// it found them it is taken back, and a commit loses its blobs; with some on either side the files
/// are changed from the first on.
pub proof fn interrupted_operations_are_decided_by_their_files(
    store: history::StoreView,
    op: journal::OperationView,
    p: history::PendingView,
    tally: journal::TallyView,
    expected: bool,
    desired: bool,
)
    requires
        p.change_set.files.len() > 0,
        paths::normalized(p.change_set.files[0].path) is Some,
        op.stage == (journal::StageView::Recover {
            pending: p,
            index: p.change_set.files.len() - 1,
            tally,
            expected: Some(expected),
            part: journal::Part::Bytes,
        }),
    ensures
        ({
            let next = op.next(store, journal::ReplyView::Equal(Ok(desired)));
            let path = p.change_set.files.last().path;
            &&& tally.conflicts.len() == 0 && !expected && !desired ==> next.stage
                == journal::StageView::Done(
                Err(history::HistoryErrorView::Conflict(seq![path])),
            )
            &&& tally.conflicts.len() > 0 && (expected || desired) ==> next.stage
                == journal::StageView::Done(
                Err(history::HistoryErrorView::Conflict(tally.conflicts)),
            )
            &&& tally.conflicts.len() == 0 && tally.all_desired && desired ==> next.stage
                is Confirm
            &&& tally.conflicts.len() == 0 && tally.all_expected && expected && !desired ==> (
            match p.kind {
                history::PendingKind::Commit => next.request()
                    matches Some(journal::RequestView::Discard { blobs }) && holds_blobs_of(
                    blobs,
                    p.change_set.files,
                ),
                _ => next.request() == Some(journal::RequestView::RemovePending),
            })
            &&& tally.conflicts.len() == 0 && !tally.all_expected && !tally.all_desired && (expected
                || desired) ==> next.stage == (journal::StageView::Apply {
                pending: p,
                index: 0,
                part: journal::ApplyPart::Desired(journal::Part::Nodes),
            })
        }),
{
    reveal(journal::OperationView::on_recover);
    reveal(journal::OperationView::recover_from);
    reveal(journal::OperationView::decided);
    reveal(journal::OperationView::confirm_from);
    reveal(journal::OperationView::apply_from);
    lemma_holds_blobs(p.change_set.files);
    let path = p.change_set.files.last().path;
    assert(Seq::<Seq<char>>::empty().push(path) =~= seq![path]);
    if tally.conflicts.len() == 0 {
        assert(tally.conflicts.push(path) =~= seq![path]);
    }
}

} // verus!
