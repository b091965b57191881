//! What may follow what in the course of an operation.

use vstd::prelude::*;

use crate::history;
use crate::history::{HistoryState, SnapshotSide};
use crate::journal;
use crate::journal::{ApplyPart, Part};

verus! {

/// The change of files that an operation is about.
pub open spec fn held(op: journal::OperationView) -> Option<history::PendingView> {
    match op.stage {
        journal::StageView::Recover { pending, .. } => Some(pending),
        journal::StageView::DropBlobs { pending } => Some(pending),
        journal::StageView::Check { pending, .. } => Some(pending),
        journal::StageView::SavePending { pending } => Some(pending),
        journal::StageView::Apply { pending, .. } => Some(pending),
        journal::StageView::Confirm { pending, .. } => Some(pending),
        journal::StageView::ReadReplaced { pending } => Some(pending),
        journal::StageView::SaveTurn { pending, .. } => Some(pending),
        journal::StageView::SaveState { pending, .. } => Some(pending),
        journal::StageView::ClearPending { pending, .. } => Some(pending),
        journal::StageView::DropReplaced { pending, .. } => Some(pending),
        _ => None,
    }
}

/// Where the change of files comes from that an operation turns to.
pub open spec fn taken_up(
    op: journal::OperationView,
    reply: journal::ReplyView,
    p: history::PendingView,
) -> bool {
    ||| held(op) == Some(p)
    ||| op.stage is ReadPending && reply == journal::ReplyView::Pending(Ok(p))
    ||| op.stage matches journal::StageView::LoadTurn { target, .. } && p.target == target
    ||| (op.stage is LoadState || op.stage is Validate || op.stage is Capture) && p.target.cursor
        == p.target.tip
}

/// Which part of the change of a file follows another.
pub open spec fn applies(
    op: journal::OperationView,
    reply: journal::ReplyView,
    next: journal::OperationView,
) -> bool {
    match (op.stage, next.stage) {
        (
            journal::StageView::Apply { pending, index, part },
            journal::StageView::Apply { pending: p, index: i, part: q },
        ) => {
            let change = pending.change_set.files[index];
            let expected = pending.side(change, SnapshotSide::Expected);
            &&& q is Write || q == ApplyPart::Expected(Part::Bytes) ==> {
                &&& p == pending && i == index
                &&& part matches ApplyPart::Expected(x) && journal::probed(
                    change.path,
                    expected,
                    x,
                    reply,
                ) == Ok::<Option<bool>, history::HistoryErrorView>(
                    if q is Write {
                        Some(true)
                    } else {
                        None
                    },
                )
            }
        },
        (_, journal::StageView::Apply { part, .. }) => part == ApplyPart::Desired(Part::Nodes),
        _ => true,
    }
}

/// That a transaction is looked for because of the state that was read.
pub open spec fn sought(
    op: journal::OperationView,
    reply: journal::ReplyView,
    target: HistoryState,
) -> bool {
    ||| op.stage matches journal::StageView::LoadTurn { target: t, .. } && t == target
    ||| op.stage is LoadState && (reply matches journal::ReplyView::State(Ok(s)) && target.tip
        == s.tip && (target.cursor + 1 == s.cursor || (s.cursor < s.tip && target.cursor == s.cursor
        + 1)))
}

/// What may follow a stage of an operation.
pub open spec fn follows(
    op: journal::OperationView,
    reply: journal::ReplyView,
    next: journal::OperationView,
) -> bool {
    &&& next.goal == op.goal
    &&& held(next) matches Some(p) ==> taken_up(op, reply, p)
    &&& applies(op, reply, next)
    &&& match next.stage {
        journal::StageView::LoadState { primary } => primary matches Some(e) ==> {
            &&& op.stage == journal::StageView::LoadState { primary: None }
            &&& reply == journal::ReplyView::State(Err(e))
        },
        journal::StageView::LoadTurn { target, .. } => sought(op, reply, target),
        journal::StageView::ClearPending { .. } => op.stage is SaveState
            && reply matches journal::ReplyView::Done(Ok(_)),
        journal::StageView::DropReplaced { .. } => op.stage is ClearPending,
        journal::StageView::ListTurns { .. } => op.stage is ClearPending || op.stage is DropReplaced
            || op.stage is LoadState,
        journal::StageView::PruneRead { .. } => op.stage is ListTurns || op.stage is PruneRemove,
        journal::StageView::PruneBlobs { .. } => op.stage is PruneRead,
        journal::StageView::PruneRemove { .. } => op.stage is PruneRead || op.stage is PruneBlobs,
        journal::StageView::Done(Ok(_)) => op.stage is LoadState || op.stage is ClearPending
            || op.stage is ListTurns || op.stage is PruneRemove || op.stage is Done,
        _ => true,
    }
}

proof fn lemma_prune_follows(
    op: journal::OperationView,
    reply: journal::ReplyView,
    tip: u64,
    entries: Seq<journal::EntryResultView>,
    i: int,
    after: journal::AfterView,
)
    requires
        op.stage is ListTurns || op.stage is PruneRemove,
    ensures
        follows(op, reply, op.prune_from(tip, entries, i, after)),
    decreases entries.len() - i,
{
    reveal(journal::OperationView::pruned);
    reveal(journal::OperationView::finished);
    if i < entries.len() {
        lemma_prune_follows(op, reply, tip, entries, i + 1, after);
    }
}

/// Each reply leads to what may follow.
#[verifier::rlimit(50)]
pub proof fn lemma_follows(
    store: history::StoreView,
    op: journal::OperationView,
    reply: journal::ReplyView,
)
    ensures
        follows(op, reply, op.next(store, reply)),
{
    reveal(journal::OperationView::apply_from);
    reveal(journal::OperationView::confirm_from);
    reveal(journal::OperationView::check_from);
    reveal(journal::OperationView::recover_from);
    reveal(journal::OperationView::decided);
    reveal(journal::OperationView::cleared);
    reveal(journal::OperationView::finished);
    reveal(journal::OperationView::pruned);
    reveal(journal::OperationView::loaded);
    reveal(journal::OperationView::validate_from);
    reveal(journal::OperationView::capture_from);
    reveal(journal::OperationView::captured);
    match op.stage {
        journal::StageView::LoadState { .. } => {
            reveal(journal::OperationView::on_load_state);
        },
        journal::StageView::LoadTurn { .. } => {
            reveal(journal::OperationView::on_load_turn);
        },
        journal::StageView::ReadPending => {
            reveal(journal::OperationView::on_read_pending);
        },
        journal::StageView::Recover { .. } => {
            reveal(journal::OperationView::on_recover);
        },
        journal::StageView::Apply { .. } => {
            reveal(journal::OperationView::on_apply);
        },
        journal::StageView::Capture { .. } => {
            reveal(journal::OperationView::on_capture);
        },
        journal::StageView::Check { .. } => {
            reveal(journal::OperationView::on_check);
        },
        journal::StageView::Confirm { .. } => {
            reveal(journal::OperationView::on_confirm);
        },
        journal::StageView::ListTurns { tip, after } => {
            reveal(journal::OperationView::on_list_turns);
            if reply is Turns && reply->Turns_0 is Ok {
                lemma_prune_follows(op, reply, tip, reply->Turns_0->Ok_0, 0, after);
            }
        },
        journal::StageView::PruneRemove { tip, entries, index, after } => {
            reveal(journal::OperationView::on_prune_remove);
            lemma_prune_follows(op, reply, tip, entries, index + 1, after);
        },
        _ => {
            reveal(journal::OperationView::on_directories);
            reveal(journal::OperationView::on_drop_pending);
            reveal(journal::OperationView::on_save_pending);
            reveal(journal::OperationView::on_read_replaced);
            reveal(journal::OperationView::on_save_turn);
            reveal(journal::OperationView::on_save_state);
            reveal(journal::OperationView::on_clear_pending);
            reveal(journal::OperationView::on_prune_read);
            reveal(journal::OperationView::on_validate);
        },
    }
}

} // verus!
