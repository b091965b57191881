//! That every operation of the journal comes to an end.

use vstd::prelude::*;

use crate::history;
use crate::journal;
use crate::journal::{ApplyPart, Part};

verus! {

/// How far an operation is from its end: the phase, what is left of the phase's list, and what is
/// left to do for the entry at hand.
pub struct Distance {
    pub phase: int,
    pub entries: int,
    pub parts: int,
}

impl Distance {
    pub open spec fn shorter_than(self, other: Distance) -> bool {
        ||| self.phase < other.phase
        ||| self.phase == other.phase && self.entries < other.entries
        ||| self.phase == other.phase && self.entries == other.entries && self.parts < other.parts
    }

    pub open spec fn some(self) -> bool {
        self.phase >= 0 && self.entries >= 0 && self.parts >= 0
    }
}

pub open spec fn distance(phase: int, entries: int, parts: int) -> Distance {
    Distance { phase, entries, parts }
}

pub open spec fn part_rank(part: Part) -> int {
    if part == Part::Nodes {
        1
    } else {
        0
    }
}

/// How far an operation at a stage is from its end.
pub open spec fn stage_distance(op: journal::OperationView) -> Distance {
    match op.stage {
        journal::StageView::MakeDirectories => distance(31, 0, 0),
        journal::StageView::ReadPending => distance(30, 0, 0),
        journal::StageView::Recover { pending, index, tally: _, expected, part } => distance(
            29,
            pending.change_set.files.len() - index,
            part_rank(part) + if expected is None {
                2int
            } else {
                0
            },
        ),
        journal::StageView::DropBlobs { .. } => distance(28, 0, 0),
        journal::StageView::DropPending => distance(27, 0, 0),
        journal::StageView::LoadState { primary } => distance(
            26,
            0,
            if primary is None {
                1
            } else {
                0
            },
        ),
        journal::StageView::LoadTurn { kind: _, id: _, target: _, primary } => distance(
            25,
            0,
            if primary is None {
                1
            } else {
                0
            },
        ),
        journal::StageView::Validate { state: _, index, plain: _ } => distance(
            25,
            op.mutations().len() - index,
            0,
        ),
        journal::StageView::Capture { state: _, index, plain, files: _, part } => distance(
            24,
            plain.len() - index,
            match part {
                journal::CapturePartView::Nodes => 4,
                journal::CapturePartView::CopyId { .. } => 3,
                journal::CapturePartView::Copy { .. } => 2,
                journal::CapturePartView::StoreId { .. } => 1,
                journal::CapturePartView::Store { .. } => 0,
            },
        ),
        journal::StageView::Check { pending, index, conflicts: _, part } => distance(
            23,
            pending.change_set.files.len() - index,
            part_rank(part),
        ),
        journal::StageView::SavePending { .. } => distance(22, 0, 0),
        journal::StageView::Apply { pending, index, part } => distance(
            21,
            pending.change_set.files.len() - index,
            match part {
                ApplyPart::Desired(q) => 5 + part_rank(q),
                ApplyPart::Expected(q) => 3 + part_rank(q),
                ApplyPart::Write => 2,
                ApplyPart::Verify(q) => part_rank(q),
            },
        ),
        journal::StageView::Confirm { pending, index, conflicts: _, part } => distance(
            20,
            pending.change_set.files.len() - index,
            part_rank(part),
        ),
        journal::StageView::ReadReplaced { .. } => distance(19, 0, 0),
        journal::StageView::SaveTurn { .. } => distance(18, 0, 0),
        journal::StageView::SaveState { .. } => distance(17, 0, 0),
        journal::StageView::ClearPending { .. } => distance(16, 0, 0),
        journal::StageView::DropReplaced { .. } => distance(15, 0, 0),
        journal::StageView::ListTurns { .. } => distance(14, 0, 0),
        journal::StageView::PruneRead { tip: _, entries, index, after: _ } => distance(
            13,
            entries.len() - index,
            2,
        ),
        journal::StageView::PruneBlobs { tip: _, entries, index, after: _, outdated: _ } => {
            distance(13, entries.len() - index, 1)
        },
        journal::StageView::PruneRemove { tip: _, entries, index, after: _ } => distance(
            13,
            entries.len() - index,
            0,
        ),
        journal::StageView::CleanUp { .. } => distance(1, 0, 0),
        journal::StageView::Done(_) => distance(0, 0, 0),
    }
}

/// How far an operation is from its end.
pub open spec fn to_go(op: journal::OperationView) -> Distance {
    let d = stage_distance(op);
    if op.recovering && !(op.stage is Done) {
        distance(d.phase + 32, d.entries, d.parts)
    } else {
        d
    }
}

proof fn lemma_prune_from(
    op: journal::OperationView,
    tip: u64,
    entries: Seq<journal::EntryResultView>,
    i: int,
    after: journal::AfterView,
)
    requires
        0 <= i <= entries.len(),
    ensures
        ({
            let next = to_go(op.prune_from(tip, entries, i, after));
            let base = if op.recovering {
                32int
            } else {
                0
            };
            next.phase < 13 + base || (next.phase == 13 + base && next.entries <= entries.len()
                - i)
        }),
    decreases entries.len() - i,
{
    reveal(journal::OperationView::pruned);
    reveal(journal::OperationView::finished);
    if i < entries.len() {
        lemma_prune_from(op, tip, entries, i + 1, after);
    }
}

/// Whatever is replied, each step brings an operation nearer to its end; as a distance cannot
/// become shorter for ever, every operation comes to an end.
pub proof fn operations_come_to_an_end(
    store: history::StoreView,
    op: journal::OperationView,
    reply: journal::ReplyView,
)
    requires
        op.wf(),
        !(op.stage is Done),
    ensures
        to_go(op).some(),
        to_go(op.next(store, reply)).shorter_than(to_go(op)),
{
    reveal(journal::OperationView::recover_from);
    reveal(journal::OperationView::decided);
    reveal(journal::OperationView::check_from);
    reveal(journal::OperationView::apply_from);
    reveal(journal::OperationView::confirm_from);
    reveal(journal::OperationView::pruned);
    reveal(journal::OperationView::finished);
    match op.stage {
        journal::StageView::MakeDirectories => {
            reveal(journal::OperationView::on_directories);
        },
        journal::StageView::ReadPending => {
            reveal(journal::OperationView::on_read_pending);
        },
        journal::StageView::Recover { .. } => {
            reveal(journal::OperationView::on_recover);
        },
        journal::StageView::DropPending => {
            reveal(journal::OperationView::on_drop_pending);
        },
        journal::StageView::Check { .. } => {
            reveal(journal::OperationView::on_check);
        },
        journal::StageView::SavePending { .. } => {
            reveal(journal::OperationView::on_save_pending);
        },
        journal::StageView::Apply { .. } => {
            reveal(journal::OperationView::on_apply);
        },
        journal::StageView::Confirm { .. } => {
            reveal(journal::OperationView::on_confirm);
        },
        journal::StageView::ReadReplaced { .. } => {
            reveal(journal::OperationView::on_read_replaced);
        },
        journal::StageView::SaveTurn { .. } => {
            reveal(journal::OperationView::on_save_turn);
        },
        journal::StageView::SaveState { .. } => {
            reveal(journal::OperationView::on_save_state);
        },
        journal::StageView::ClearPending { .. } => {
            reveal(journal::OperationView::on_clear_pending);
            reveal(journal::OperationView::cleared);
        },
        journal::StageView::ListTurns { tip, after } => {
            reveal(journal::OperationView::on_list_turns);
            if reply is Turns && reply->Turns_0 is Ok {
                lemma_prune_from(op, tip, reply->Turns_0->Ok_0, 0, after);
            }
        },
        journal::StageView::PruneRead { .. } => {
            reveal(journal::OperationView::on_prune_read);
        },
        journal::StageView::PruneRemove { tip, entries, index, after } => {
            reveal(journal::OperationView::on_prune_remove);
            lemma_prune_from(op, tip, entries, index + 1, after);
        },
        journal::StageView::LoadState { .. } => {
            reveal(journal::OperationView::on_load_state);
            reveal(journal::OperationView::loaded);
            reveal(journal::OperationView::validate_from);
            reveal(journal::OperationView::capture_from);
        },
        journal::StageView::Validate { .. } => {
            reveal(journal::OperationView::on_validate);
            reveal(journal::OperationView::validate_from);
            reveal(journal::OperationView::capture_from);
        },
        journal::StageView::Capture { .. } => {
            reveal(journal::OperationView::on_capture);
            reveal(journal::OperationView::captured);
            reveal(journal::OperationView::capture_from);
        },
        journal::StageView::LoadTurn { .. } => {
            reveal(journal::OperationView::on_load_turn);
        },
        _ => {},
    }
}

} // verus!
