//! An operation on the journal that is under way.

use vstd::prelude::*;
use vstd::string::*;

use crate::history;
use crate::history::{
    ChangeSet, FileChange, FileMutation, HistoryError, HistoryState, HistoryStore, PendingKind,
    PendingOperation, Snapshot,
};
use crate::io;
use crate::io::{IoError, IoErrorKind};
use crate::journal;
use crate::journal::{
    After, ApplyPart, CapturePart, Entry, Goal, Mutation, Node, Outcome, Part, Reply, Request,
    Stage, Tally,
};
use crate::paths;
use crate::paths::Platform;
use crate::text;

verus! {

/// An operation on the journal that is under way: it says what it wants done next
/// ([`Operation::request`]) and goes on with what came of it ([`Operation::resume`]).
#[derive(Debug)]
pub struct Operation {
    goal: Goal,
    recovering: bool,
    stage: Stage,
}

impl View for Operation {
    type V = journal::OperationView;

    closed spec fn view(&self) -> journal::OperationView {
        journal::OperationView {
            goal: self.goal@,
            recovering: self.recovering,
            stage: self.stage@,
        }
    }
}

// ---------------------------------------------------------------------------------------------
// Reading replies

fn plain_of(path: &str) -> (r: String)
    ensures
        r@ == journal::plain_path(path@),
{
    match paths::normalize(path) {
        Some(plain) => plain,
        None => path.to_owned(),
    }
}

fn find_problem(plain: &str, stats: &Vec<Result<Node, IoError>>) -> (r: Option<HistoryError>)
    ensures
        match r {
            Some(e) => journal::path_problem(plain@, journal::stats_view(stats@)) == Some(e@),
            None => journal::path_problem(plain@, journal::stats_view(stats@)) is None,
        },
{
    let ghost all = journal::stats_view(stats@);
    let mut found: Option<HistoryError> = None;
    let mut i: usize = 0;
    while i < stats.len()
        invariant
            all == journal::stats_view(stats@),
            i <= stats@.len(),
            match found {
                Some(e) => journal::path_problem(plain@, all.take(i as int)) == Some(e@),
                None => journal::path_problem(plain@, all.take(i as int)) is None,
            },
        decreases stats@.len() - i,
    {
        assert(all.take(i + 1).drop_last() =~= all.take(i as int));
        assert(all[i as int] == io::result_view(stats@[i as int]));
        if found.is_none() {
            match &stats[i] {
                Ok(Node::Symlink) => {
                    found = Some(HistoryError::InvalidPath(plain.to_owned()));
                },
                Ok(_) => {},
                Err(e) => {
                    if !e.is_not_found() {
                        found = Some(HistoryError::Io(e.duplicate()));
                    }
                },
            }
        }
        i = i + 1;
    }
    assert(all.take(i as int) =~= all);
    found
}

fn unexpected_reply() -> (r: HistoryError)
    ensures
        r@ == journal::unexpected_reply(),
{
    HistoryError::Io(IoError::new(IoErrorKind::InvalidInput, "unexpected reply"))
}

fn look(path: &str, reply: &Reply) -> (r: Result<Option<Node>, HistoryError>)
    ensures
        match r {
            Ok(node) => journal::looked_at(path@, reply@) == Ok::<
                Option<Node>,
                history::HistoryErrorView,
            >(node),
            Err(e) => journal::looked_at(path@, reply@) == Err::<
                Option<Node>,
                history::HistoryErrorView,
            >(e@),
        },
{
    match reply {
        Reply::Stats(stats) => {
            let plain = plain_of(path);
            let way = paths::list_ancestry(plain.as_str());
            assert(text::texts(way@).len() == way@.len());
            assert(journal::stats_view(stats@).len() == stats@.len());
            assert(paths::ancestry(plain@).len() > 0);
            if stats.len() != way.len() {
                return Err(unexpected_reply());
            }
            match find_problem(plain.as_str(), stats) {
                Some(e) => Err(e),
                None => {
                    assert(journal::stats_view(stats@).last() == io::result_view(stats@.last()));
                    match &stats[stats.len() - 1] {
                        Ok(node) => Ok(Some(*node)),
                        Err(_) => Ok(None),
                    }
                },
            }
        },
        _ => Err(unexpected_reply()),
    }
}

fn probe(path: &str, snapshot: &Snapshot, part: Part, reply: &Reply) -> (r: Result<
    Option<bool>,
    HistoryError,
>)
    ensures
        match r {
            Ok(same) => journal::probed(path@, snapshot@, part, reply@) == Ok::<
                Option<bool>,
                history::HistoryErrorView,
            >(same),
            Err(e) => journal::probed(path@, snapshot@, part, reply@) == Err::<
                Option<bool>,
                history::HistoryErrorView,
            >(e@),
        },
{
    match part {
        Part::Nodes => match look(path, reply) {
            Ok(node) => match snapshot {
                Snapshot::Missing => Ok(Some(node.is_none())),
                Snapshot::Blob { .. } => Ok(None),
            },
            Err(e) => Err(e),
        },
        Part::Bytes => match reply {
            Reply::Equal(Ok(equal)) => Ok(Some(*equal)),
            Reply::Equal(Err(e)) => Err(HistoryError::Io(e.duplicate())),
            _ => Err(unexpected_reply()),
        },
    }
}

fn request_stat(path: &str) -> (r: Request)
    ensures
        r@ == journal::stat_request(path@),
{
    Request::Stat { paths: paths::list_ancestry(plain_of(path).as_str()) }
}

fn request_probe(path: &str, snapshot: &Snapshot, part: Part) -> (r: Request)
    ensures
        r@ == journal::probe_request(path@, snapshot@, part),
{
    match (part, snapshot) {
        (Part::Bytes, Snapshot::Blob { id, len }) => Request::Compare {
            path: plain_of(path),
            blob: id.clone(),
            len: *len,
        },
        _ => request_stat(path),
    }
}

// ---------------------------------------------------------------------------------------------
// Going on

/// An operation apart from its stage.
struct Head {
    goal: Goal,
    recovering: bool,
    stage: Ghost<journal::StageView>,
}

impl Head {
    spec fn view(&self) -> journal::OperationView {
        journal::OperationView {
            goal: self.goal@,
            recovering: self.recovering,
            stage: self.stage@,
        }
    }

    fn at(self, stage: Stage) -> (r: Operation)
        ensures
            r@ == self@.at(stage@),
    {
        Operation { goal: self.goal, recovering: self.recovering, stage }
    }

    fn failed(self, e: HistoryError) -> (r: Operation)
        ensures
            r@ == self@.failed(e@),
            r@.wf(),
    {
        self.at(Stage::Done(Err(e)))
    }

    fn failed_io(self, e: IoError) -> (r: Operation)
        ensures
            r@ == self@.failed(history::HistoryErrorView::Io(e@)),
            r@.wf(),
    {
        self.failed(HistoryError::Io(e))
    }

    fn unexpected(self) -> (r: Operation)
        ensures
            r@ == self@.unexpected(),
            r@.wf(),
    {
        self.failed(unexpected_reply())
    }

    fn recovered(self) -> (r: Operation)
        ensures
            r@ == self@.recovered(),
            r@.wf(),
    {
        Operation {
            goal: self.goal,
            recovering: false,
            stage: Stage::LoadState { primary: None },
        }
    }

    fn confirm_from(self, p: PendingOperation, i: usize, conflicts: Vec<String>) -> (r: Operation)
        requires
            i <= p.change_set.files@.len(),
        ensures
            r@ == self@.confirm_from(p@, i as int, text::texts(conflicts@)),
            r@.wf(),
    {
        reveal(journal::OperationView::confirm_from);
        assert(p@.change_set.files.len() == p.change_set.files@.len());
        if i >= p.change_set.files.len() {
            assert(text::texts(conflicts@).len() == conflicts@.len());
            if conflicts.len() > 0 {
                self.failed(HistoryError::Conflict(conflicts))
            } else if p.kind == PendingKind::Commit {
                self.at(Stage::ReadReplaced { pending: p })
            } else {
                self.at(Stage::SaveState { pending: p, replaced: None })
            }
        } else {
            assert(p@.change_set.files[i as int] == p.change_set.files@[i as int]@);
            let path = p.change_set.files[i].path.as_str();
            if paths::normalize(path).is_none() {
                let path = path.to_owned();
                self.failed(HistoryError::InvalidPath(path))
            } else {
                self.at(Stage::Confirm { pending: p, index: i, conflicts, part: Part::Nodes })
            }
        }
    }

    fn check_from(self, p: PendingOperation, i: usize, conflicts: Vec<String>) -> (r: Operation)
        requires
            i <= p.change_set.files@.len(),
        ensures
            r@ == self@.check_from(p@, i as int, text::texts(conflicts@)),
            r@.wf(),
    {
        reveal(journal::OperationView::check_from);
        assert(p@.change_set.files.len() == p.change_set.files@.len());
        if i >= p.change_set.files.len() {
            assert(text::texts(conflicts@).len() == conflicts@.len());
            if conflicts.len() > 0 {
                self.failed(HistoryError::Conflict(conflicts))
            } else {
                self.at(Stage::SavePending { pending: p })
            }
        } else {
            assert(p@.change_set.files[i as int] == p.change_set.files@[i as int]@);
            let path = p.change_set.files[i].path.as_str();
            if paths::normalize(path).is_none() {
                let path = path.to_owned();
                self.failed(HistoryError::InvalidPath(path))
            } else {
                self.at(Stage::Check { pending: p, index: i, conflicts, part: Part::Nodes })
            }
        }
    }

    fn apply_from(self, p: PendingOperation, i: usize) -> (r: Operation)
        requires
            i <= p.change_set.files@.len(),
        ensures
            r@ == self@.apply_from(p@, i as int),
            r@.wf(),
    {
        reveal(journal::OperationView::apply_from);
        assert(p@.change_set.files.len() == p.change_set.files@.len());
        if i >= p.change_set.files.len() {
            let none: Vec<String> = Vec::new();
            assert(text::texts(none@) =~= Seq::empty());
            self.confirm_from(p, 0, none)
        } else {
            assert(p@.change_set.files[i as int] == p.change_set.files@[i as int]@);
            let path = p.change_set.files[i].path.as_str();
            if paths::normalize(path).is_none() {
                let path = path.to_owned();
                self.failed(HistoryError::InvalidPath(path))
            } else {
                self.at(
                    Stage::Apply { pending: p, index: i, part: ApplyPart::Desired(Part::Nodes) },
                )
            }
        }
    }

    fn decided(self, p: PendingOperation, tally: Tally) -> (r: Operation)
        ensures
            r@ == self@.decided(p@, tally@),
            r@.wf(),
    {
        reveal(journal::OperationView::decided);
        assert(text::texts(tally.conflicts@).len() == tally.conflicts@.len());
        if tally.conflicts.len() > 0 {
            self.failed(HistoryError::Conflict(tally.conflicts))
        } else if tally.all_desired {
            let none: Vec<String> = Vec::new();
            assert(text::texts(none@) =~= Seq::empty());
            self.confirm_from(p, 0, none)
        } else if tally.all_expected {
            if p.kind == PendingKind::Commit {
                self.at(Stage::DropBlobs { pending: p })
            } else {
                self.at(Stage::DropPending)
            }
        } else {
            self.apply_from(p, 0)
        }
    }

    fn recover_from(self, p: PendingOperation, i: usize, tally: Tally) -> (r: Operation)
        requires
            i <= p.change_set.files@.len(),
        ensures
            r@ == self@.recover_from(p@, i as int, tally@),
            r@.wf(),
    {
        reveal(journal::OperationView::recover_from);
        assert(p@.change_set.files.len() == p.change_set.files@.len());
        if i >= p.change_set.files.len() {
            self.decided(p, tally)
        } else {
            assert(p@.change_set.files[i as int] == p.change_set.files@[i as int]@);
            let path = p.change_set.files[i].path.as_str();
            if paths::normalize(path).is_none() {
                let path = path.to_owned();
                self.failed(HistoryError::InvalidPath(path))
            } else {
                self.at(
                    Stage::Recover {
                        pending: p,
                        index: i,
                        tally,
                        expected: None,
                        part: Part::Nodes,
                    },
                )
            }
        }
    }

    fn finished(self, p: PendingOperation) -> (r: Operation)
        ensures
            r@ == self@.finished(p@),
            r@.wf(),
    {
        reveal(journal::OperationView::finished);
        if self.recovering {
            self.recovered()
        } else {
            self.at(Stage::Done(Ok(Outcome::Applied(p.change_set))))
        }
    }

    fn cleared(self, p: PendingOperation, replaced: Option<ChangeSet>) -> (r: Operation)
        ensures
            r@ == self@.cleared(p@, journal::change_set_option(replaced)),
            r@.wf(),
    {
        reveal(journal::OperationView::cleared);
        if p.kind != PendingKind::Commit {
            return self.finished(p);
        }
        if let Some(c) = replaced {
            if !c.same(&p.change_set) {
                return self.at(Stage::DropReplaced { pending: p, replaced: c });
            }
        }
        self.at(Stage::ListTurns { tip: p.target.tip, after: After::Finish(p) })
    }

    fn pruned(self, after: After) -> (r: Operation)
        ensures
            r@ == self@.pruned(after@),
            r@.wf(),
    {
        reveal(journal::OperationView::pruned);
        match after {
            After::Finish(p) => self.finished(p),
            After::Opened => self.at(Stage::Done(Ok(Outcome::Opened))),
        }
    }

    fn prune_from(
        self,
        tip: u64,
        entries: Vec<Result<Entry, IoError>>,
        start: usize,
        after: After,
    ) -> (r: Operation)
        requires
            start <= entries@.len(),
        ensures
            r@ == self@.prune_from(
                tip,
                journal::entries_view(entries@),
                start as int,
                after@,
            ),
            r@.wf(),
    {
        let ghost all = journal::entries_view(entries@);
        let ghost whole = self@.prune_from(tip, all, start as int, after@);
        let mut i: usize = start;
        while i < entries.len()
            invariant
                all == journal::entries_view(entries@),
                all.len() == entries@.len(),
                i <= entries@.len(),
                whole == self@.prune_from(tip, all, start as int, after@),
                whole == self@.prune_from(tip, all, i as int, after@),
            decreases entries@.len() - i,
        {
            assert(all[i as int] == journal::entry_view(entries@[i as int]));
            let outdated: bool = match &entries[i] {
                Err(e) => {
                    let e = e.duplicate();
                    return self.failed_io(e);
                },
                Ok(entry) => entry.is_file && (match history::parse_turn_id(entry.name.as_str()) {
                    Some(id) => id > tip,
                    None => false,
                }),
            };
            if outdated {
                return self.at(Stage::PruneRead { tip, entries, index: i, after });
            }
            i = i + 1;
        }
        self.pruned(after)
    }
}

impl Goal {
    /// How many files are to be changed.
    fn count(&self) -> (r: usize)
        ensures
            r == (match self@ {
                journal::GoalView::Record(list) => list.len(),
                _ => 0,
            }),
    {
        match self {
            Goal::Record(list) => {
                assert(journal::mutations_view(list@).len() == list@.len());
                list.len()
            },
            _ => 0,
        }
    }

    /// The change of file `i`.
    fn mutation(&self, i: usize) -> (r: &Mutation)
        requires
            self@ matches journal::GoalView::Record(list) && i < list.len(),
        ensures
            self@ matches journal::GoalView::Record(list) && r@ == list[i as int],
    {
        match self {
            Goal::Record(list) => {
                assert(journal::mutations_view(list@).len() == list@.len());
                assert(journal::mutations_view(list@)[i as int] == list@[i as int]@);
                &list[i]
            },
            _ => {
                proof {
                    assert(false);
                }
                unreached()
            },
        }
    }
}

impl Head {
    fn capture_from(
        self,
        state: HistoryState,
        i: usize,
        plain: Vec<String>,
        files: Vec<FileChange>,
    ) -> (r: Operation)
        requires
            i <= plain@.len(),
            plain@.len() == self@.mutations().len(),
        ensures
            r@ == self@.capture_from(
                state,
                i as int,
                text::texts(plain@),
                history::files_view(files@),
            ),
            r@.wf(),
    {
        reveal(journal::OperationView::capture_from);
        assert(text::texts(plain@).len() == plain@.len());
        if i >= plain.len() {
            let id: u64 = if state.cursor == u64::MAX {
                u64::MAX
            } else {
                state.cursor + 1
            };
            let p = PendingOperation {
                kind: PendingKind::Commit,
                change_set: ChangeSet { id, files },
                target: HistoryState { cursor: id, tip: id },
            };
            let none: Vec<String> = Vec::new();
            assert(text::texts(none@) =~= Seq::empty());
            assert(p@ == journal::commit_of(state, history::files_view(files@)));
            self.check_from(p, 0, none)
        } else {
            self.at(Stage::Capture { state, index: i, plain, files, part: CapturePart::Nodes })
        }
    }

    fn validate_from(self, state: HistoryState, i: usize, plain: Vec<String>) -> (r: Operation)
        requires
            self@.goal is Record,
            i == plain@.len(),
            i <= self@.mutations().len(),
        ensures
            r@ == self@.validate_from(state, i as int, text::texts(plain@)),
            r@.wf(),
    {
        reveal(journal::OperationView::validate_from);
        assert(text::texts(plain@).len() == plain@.len());
        if i >= self.goal.count() {
            let none: Vec<FileChange> = Vec::new();
            assert(history::files_view(none@) =~= Seq::empty());
            self.capture_from(state, 0, plain, none)
        } else {
            match paths::normalize(self.goal.mutation(i).path.as_str()) {
                None => {
                    let shown = self.goal.mutation(i).shown.clone();
                    self.failed(HistoryError::InvalidPath(shown))
                },
                Some(p) => if text::contains_text(&plain, p.as_str()) {
                    self.failed(HistoryError::InvalidPath(p))
                } else {
                    let mut plain = plain;
                    text::push_text(&mut plain, p.as_str());
                    self.at(Stage::Validate { state, index: i, plain })
                },
            }
        }
    }

    fn captured(
        self,
        state: HistoryState,
        i: usize,
        plain: Vec<String>,
        files: Vec<FileChange>,
        before: Snapshot,
    ) -> (r: Operation)
        requires
            self@.goal is Record,
            i < plain.len(),
            plain@.len() == self@.mutations().len(),
        ensures
            r@ == self@.captured(
                state,
                i as int,
                text::texts(plain@),
                history::files_view(files@),
                before@,
            ),
            r@.wf(),
    {
        reveal(journal::OperationView::captured);
        assert(text::texts(plain@).len() == plain@.len());
        assert(text::texts(plain@)[i as int] == plain@[i as int]@);
        if self.goal.mutation(i).contents.is_some() {
            self.at(
                Stage::Capture {
                    state,
                    index: i,
                    plain,
                    files,
                    part: CapturePart::StoreId { before },
                },
            )
        } else {
            let mut files = files;
            let ghost old_files = history::files_view(files@);
            let change = FileChange {
                path: plain[i].clone(),
                before,
                after: Snapshot::Missing,
            };
            files.push(change);
            assert(history::files_view(files@) =~= old_files.push(change@));
            self.capture_from(state, i + 1, plain, files)
        }
    }

    fn loaded(self, state: HistoryState) -> (r: Operation)
        ensures
            r@ == self@.loaded(state),
            r@.wf(),
    {
        reveal(journal::OperationView::loaded);
        match &self.goal {
            Goal::Open => self.at(Stage::ListTurns { tip: state.tip, after: After::Opened }),
            Goal::State => self.at(Stage::Done(Ok(Outcome::State(state)))),
            Goal::Record(_) => {
                let none: Vec<String> = Vec::new();
                assert(text::texts(none@) =~= Seq::empty());
                self.validate_from(state, 0, none)
            },
            Goal::Undo => if state.cursor == 0 {
                self.failed(HistoryError::NothingToUndo)
            } else {
                self.at(
                    Stage::LoadTurn {
                        kind: PendingKind::Undo,
                        id: state.cursor,
                        target: HistoryState { cursor: state.cursor - 1, tip: state.tip },
                        primary: None,
                    },
                )
            },
            Goal::Redo => if state.cursor >= state.tip {
                self.failed(HistoryError::NothingToRedo)
            } else {
                self.at(
                    Stage::LoadTurn {
                        kind: PendingKind::Redo,
                        id: state.cursor + 1,
                        target: HistoryState { cursor: state.cursor + 1, tip: state.tip },
                        primary: None,
                    },
                )
            },
        }
    }
}

impl Head {
    fn on_recover(
        self,
        p: PendingOperation,
        i: usize,
        tally: Tally,
        expected: Option<bool>,
        part: Part,
        reply: Reply,
    ) -> (r: Operation)
        requires
            i < p.change_set.files.len(),
        ensures
            r@ == self@.on_recover(p@, i as int, tally@, expected, part, reply@),
            r@.wf(),
    {
        reveal(journal::OperationView::on_recover);
        assert(p@.change_set.files.len() == p.change_set.files@.len());
        assert(p@.change_set.files[i as int] == p.change_set.files@[i as int]@);
        let change = &p.change_set.files[i];
        let snapshot = if expected.is_none() {
            p.expected(change)
        } else {
            p.desired(change)
        };
        match probe(change.path.as_str(), snapshot, part, &reply) {
            Err(e) => self.failed(e),
            Ok(None) => self.at(
                Stage::Recover { pending: p, index: i, tally, expected, part: Part::Bytes },
            ),
            Ok(Some(same)) => match expected {
                None => self.at(
                    Stage::Recover {
                        pending: p,
                        index: i,
                        tally,
                        expected: Some(same),
                        part: Part::Nodes,
                    },
                ),
                Some(e) => {
                    let mut conflicts = tally.conflicts;
                    if !e && !same {
                        text::push_text(&mut conflicts, change.path.as_str());
                    }
                    let tally = Tally {
                        all_expected: tally.all_expected && e,
                        all_desired: tally.all_desired && same,
                        conflicts,
                    };
                    self.recover_from(p, i + 1, tally)
                },
            },
        }
    }

    fn on_check(
        self,
        p: PendingOperation,
        i: usize,
        conflicts: Vec<String>,
        part: Part,
        reply: Reply,
    ) -> (r: Operation)
        requires
            i < p.change_set.files.len(),
        ensures
            r@ == self@.on_check(p@, i as int, text::texts(conflicts@), part, reply@),
            r@.wf(),
    {
        reveal(journal::OperationView::on_check);
        assert(p@.change_set.files.len() == p.change_set.files@.len());
        assert(p@.change_set.files[i as int] == p.change_set.files@[i as int]@);
        let change = &p.change_set.files[i];
        match probe(change.path.as_str(), p.expected(change), part, &reply) {
            Err(e) => self.failed(e),
            Ok(None) => self.at(
                Stage::Check { pending: p, index: i, conflicts, part: Part::Bytes },
            ),
            Ok(Some(same)) => {
                let mut conflicts = conflicts;
                if !same {
                    text::push_text(&mut conflicts, change.path.as_str());
                }
                self.check_from(p, i + 1, conflicts)
            },
        }
    }

    fn on_confirm(
        self,
        p: PendingOperation,
        i: usize,
        conflicts: Vec<String>,
        part: Part,
        reply: Reply,
    ) -> (r: Operation)
        requires
            i < p.change_set.files.len(),
        ensures
            r@ == self@.on_confirm(p@, i as int, text::texts(conflicts@), part, reply@),
            r@.wf(),
    {
        reveal(journal::OperationView::on_confirm);
        assert(p@.change_set.files.len() == p.change_set.files@.len());
        assert(p@.change_set.files[i as int] == p.change_set.files@[i as int]@);
        let change = &p.change_set.files[i];
        match probe(change.path.as_str(), p.desired(change), part, &reply) {
            Err(e) => self.failed(e),
            Ok(None) => self.at(
                Stage::Confirm { pending: p, index: i, conflicts, part: Part::Bytes },
            ),
            Ok(Some(same)) => {
                let mut conflicts = conflicts;
                if !same {
                    text::push_text(&mut conflicts, change.path.as_str());
                }
                self.confirm_from(p, i + 1, conflicts)
            },
        }
    }

    fn on_apply(self, p: PendingOperation, i: usize, part: ApplyPart, reply: Reply) -> (r:
        Operation)
        requires
            i < p.change_set.files.len(),
        ensures
            r@ == self@.on_apply(p@, i as int, part, reply@),
            r@.wf(),
    {
        reveal(journal::OperationView::on_apply);
        assert(p@.change_set.files.len() == p.change_set.files@.len());
        assert(p@.change_set.files[i as int] == p.change_set.files@[i as int]@);
        let change = &p.change_set.files[i];
        match part {
            ApplyPart::Desired(q) => match probe(
                change.path.as_str(),
                p.desired(change),
                q,
                &reply,
            ) {
                Err(e) => self.failed(e),
                Ok(None) => self.at(
                    Stage::Apply { pending: p, index: i, part: ApplyPart::Desired(Part::Bytes) },
                ),
                Ok(Some(true)) => self.apply_from(p, i + 1),
                Ok(Some(false)) => self.at(
                    Stage::Apply { pending: p, index: i, part: ApplyPart::Expected(Part::Nodes) },
                ),
            },
            ApplyPart::Expected(q) => match probe(
                change.path.as_str(),
                p.expected(change),
                q,
                &reply,
            ) {
                Err(e) => self.failed(e),
                Ok(None) => self.at(
                    Stage::Apply { pending: p, index: i, part: ApplyPart::Expected(Part::Bytes) },
                ),
                Ok(Some(true)) => self.at(
                    Stage::Apply { pending: p, index: i, part: ApplyPart::Write },
                ),
                Ok(Some(false)) => {
                    let mut conflicts: Vec<String> = Vec::new();
                    assert(text::texts(conflicts@) =~= Seq::empty());
                    text::push_text(&mut conflicts, change.path.as_str());
                    assert(text::texts(conflicts@) =~= seq![change.path@]);
                    self.failed(HistoryError::Conflict(conflicts))
                },
            },
            ApplyPart::Write => match reply {
                Reply::Done(r) => {
                    if let Err(e) = r {
                        let gone: bool = match p.desired(change) {
                            Snapshot::Missing => e.is_not_found(),
                            Snapshot::Blob { .. } => false,
                        };
                        if !gone {
                            return self.failed_io(e);
                        }
                    }
                    self.at(
                        Stage::Apply { pending: p, index: i, part: ApplyPart::Verify(Part::Nodes) },
                    )
                },
                _ => self.unexpected(),
            },
            ApplyPart::Verify(q) => match probe(
                change.path.as_str(),
                p.desired(change),
                q,
                &reply,
            ) {
                Err(e) => self.failed(e),
                Ok(None) => self.at(
                    Stage::Apply { pending: p, index: i, part: ApplyPart::Verify(Part::Bytes) },
                ),
                Ok(Some(true)) => self.apply_from(p, i + 1),
                Ok(Some(false)) => self.failed_io(
                    IoError::new(IoErrorKind::Other, "filesystem verification failed after change"),
                ),
            },
        }
    }

    fn on_capture(
        self,
        store: &HistoryStore,
        state: HistoryState,
        i: usize,
        plain: Vec<String>,
        files: Vec<FileChange>,
        part: CapturePart,
        reply: Reply,
    ) -> (r: Operation)
        requires
            self@.goal is Record,
            i < plain.len(),
            plain@.len() == self@.mutations().len(),
            part@ is Store ==> self@.mutations()[i as int].contents is Some,
            part@ is StoreId ==> self@.mutations()[i as int].contents is Some,
        ensures
            r@ == self@.on_capture(
                store@,
                state,
                i as int,
                text::texts(plain@),
                history::files_view(files@),
                part@,
                reply@,
            ),
            r@.wf(),
    {
        reveal(journal::OperationView::on_capture);
        assert(text::texts(plain@).len() == plain@.len());
        assert(text::texts(plain@)[i as int] == plain@[i as int]@);
        match part {
            CapturePart::Nodes => match look(self.goal.mutation(i).path.as_str(), &reply) {
                Err(e) => self.failed(e),
                Ok(None) => self.captured(state, i, plain, files, Snapshot::Missing),
                Ok(Some(Node::File { len })) => self.at(
                    Stage::Capture {
                        state,
                        index: i,
                        plain,
                        files,
                        part: CapturePart::CopyId { len },
                    },
                ),
                Ok(Some(_)) => {
                    let error = HistoryError::InvalidPath(store.work_path(plain[i].as_str()));
                    let blobs = history::list_blobs(&Snapshot::Missing, &files);
                    assert(text::texts(blobs@) =~= history::files_blobs(
                        history::files_view(files@),
                    ));
                    self.at(Stage::CleanUp { error, blobs })
                },
            },
            CapturePart::CopyId { len } => match reply {
                Reply::BlobId(id) => self.at(
                    Stage::Capture {
                        state,
                        index: i,
                        plain,
                        files,
                        part: CapturePart::Copy { len, id },
                    },
                ),
                _ => self.unexpected(),
            },
            CapturePart::Copy { len, id } => match reply {
                Reply::Done(Ok(_)) => self.captured(
                    state,
                    i,
                    plain,
                    files,
                    Snapshot::Blob { id, len },
                ),
                Reply::Done(Err(e)) => {
                    let blobs = history::list_blobs(&Snapshot::Missing, &files);
                    assert(text::texts(blobs@) =~= history::files_blobs(
                        history::files_view(files@),
                    ));
                    self.at(Stage::CleanUp { error: HistoryError::Io(e), blobs })
                },
                _ => self.unexpected(),
            },
            CapturePart::StoreId { before } => match reply {
                Reply::BlobId(id) => self.at(
                    Stage::Capture {
                        state,
                        index: i,
                        plain,
                        files,
                        part: CapturePart::Store { before, id },
                    },
                ),
                _ => self.unexpected(),
            },
            CapturePart::Store { before, id } => match reply {
                Reply::Done(Ok(_)) => {
                    let len: usize = match &self.goal.mutation(i).contents {
                        Some(bytes) => bytes.len(),
                        None => 0,
                    };
                    let change = FileChange {
                        path: plain[i].clone(),
                        before,
                        after: Snapshot::Blob { id, len: len as u64 },
                    };
                    let mut files = files;
                    let ghost old_files = history::files_view(files@);
                    files.push(change);
                    assert(history::files_view(files@) =~= old_files.push(change@));
                    self.capture_from(state, i + 1, plain, files)
                },
                Reply::Done(Err(e)) => {
                    let blobs = history::list_blobs(&before, &files);
                    self.at(Stage::CleanUp { error: HistoryError::Io(e), blobs })
                },
                _ => self.unexpected(),
            },
        }
    }
}

impl Head {
    fn on_directories(
        self,
        reply: Reply,
    ) -> (r: Operation)
        ensures
            r@ == self@.on_directories(reply@),
            r@.wf(),
    {
        reveal(journal::OperationView::on_directories);
        match reply {
            Reply::Done(Ok(_)) => self.at(Stage::ReadPending),
            Reply::Done(Err(e)) => self.failed_io(e),
            _ => self.unexpected(),
        }
    }

    fn on_read_pending(
        self,
        reply: Reply,
    ) -> (r: Operation)
        ensures
            r@ == self@.on_read_pending(reply@),
            r@.wf(),
    {
        reveal(journal::OperationView::on_read_pending);
        match reply {
            Reply::Pending(Ok(p)) => {
                let none: Vec<String> = Vec::new();
                assert(text::texts(none@) =~= Seq::empty());
                self.recover_from(
                    p,
                    0,
                    Tally { all_expected: true, all_desired: true, conflicts: none },
                )
            },
            Reply::Pending(Err(e)) => if e.is_not_found() {
                self.recovered()
            } else {
                self.failed_io(e)
            },
            _ => self.unexpected(),
        }
    }

    fn on_drop_pending(
        self,
        reply: Reply,
    ) -> (r: Operation)
        ensures
            r@ == self@.on_drop_pending(reply@),
            r@.wf(),
    {
        reveal(journal::OperationView::on_drop_pending);
        match reply {
            Reply::Done(Ok(_)) => self.recovered(),
            Reply::Done(Err(e)) => if e.is_not_found() {
                self.recovered()
            } else {
                self.failed_io(e)
            },
            _ => self.unexpected(),
        }
    }

    fn on_save_pending(
        self,
        pending: PendingOperation,
        reply: Reply,
    ) -> (r: Operation)
        ensures
            r@ == self@.on_save_pending(pending@, reply@),
            r@.wf(),
    {
        reveal(journal::OperationView::on_save_pending);
        match reply {
            Reply::Done(Ok(_)) => self.apply_from(pending, 0),
            Reply::Done(Err(e)) => self.failed_io(e),
            _ => self.unexpected(),
        }
    }

    fn on_read_replaced(
        self,
        pending: PendingOperation,
        reply: Reply,
    ) -> (r: Operation)
        ensures
            r@ == self@.on_read_replaced(pending@, reply@),
            r@.wf(),
    {
        reveal(journal::OperationView::on_read_replaced);
        match reply {
            Reply::Turn(Ok(c)) => self.at(Stage::SaveTurn { pending, replaced: Some(c) }),
            Reply::Turn(Err(_)) => self.at(Stage::SaveTurn { pending, replaced: None }),
            _ => self.unexpected(),
        }
    }

    fn on_save_turn(
        self,
        pending: PendingOperation,
        replaced: Option<ChangeSet>,
        reply: Reply,
    ) -> (r: Operation)
        ensures
            r@ == self@.on_save_turn(pending@, journal::change_set_option(replaced), reply@),
            r@.wf(),
    {
        reveal(journal::OperationView::on_save_turn);
        match reply {
            Reply::Done(Ok(_)) => self.at(Stage::SaveState { pending, replaced }),
            Reply::Done(Err(e)) => self.failed_io(e),
            _ => self.unexpected(),
        }
    }

    fn on_save_state(
        self,
        pending: PendingOperation,
        replaced: Option<ChangeSet>,
        reply: Reply,
    ) -> (r: Operation)
        ensures
            r@ == self@.on_save_state(pending@, journal::change_set_option(replaced), reply@),
            r@.wf(),
    {
        reveal(journal::OperationView::on_save_state);
        match reply {
            Reply::Done(Ok(_)) => self.at(Stage::ClearPending { pending, replaced }),
            Reply::Done(Err(e)) => self.failed_io(e),
            _ => self.unexpected(),
        }
    }

    fn on_clear_pending(
        self,
        pending: PendingOperation,
        replaced: Option<ChangeSet>,
        reply: Reply,
    ) -> (r: Operation)
        ensures
            r@ == self@.on_clear_pending(pending@, journal::change_set_option(replaced), reply@),
            r@.wf(),
    {
        reveal(journal::OperationView::on_clear_pending);
        match reply {
            Reply::Done(Ok(_)) => self.cleared(pending, replaced),
            Reply::Done(Err(e)) => if e.is_not_found() {
                self.cleared(pending, replaced)
            } else {
                self.failed_io(e)
            },
            _ => self.unexpected(),
        }
    }

    fn on_list_turns(
        self,
        tip: u64,
        after: After,
        reply: Reply,
    ) -> (r: Operation)
        ensures
            r@ == self@.on_list_turns(tip, after@, reply@),
            r@.wf(),
    {
        reveal(journal::OperationView::on_list_turns);
        match reply {
            Reply::Turns(Ok(entries)) => self.prune_from(tip, entries, 0, after),
            Reply::Turns(Err(e)) => if e.is_not_found() {
                self.pruned(after)
            } else {
                self.failed_io(e)
            },
            _ => self.unexpected(),
        }
    }

    fn on_prune_read(
        self,
        tip: u64,
        entries: Vec<Result<Entry, IoError>>,
        index: usize,
        after: After,
        reply: Reply,
    ) -> (r: Operation)
        requires
            index < entries@.len(),
            entries@[index as int] is Ok,
        ensures
            r@ == self@.on_prune_read(
                tip,
                journal::entries_view(entries@),
                index as int,
                after@,
                reply@,
            ),
            r@.wf(),
    {
        reveal(journal::OperationView::on_prune_read);
        match reply {
            Reply::Turn(Ok(outdated)) => self.at(
                Stage::PruneBlobs { tip, entries, index, after, outdated },
            ),
            Reply::Turn(Err(_)) => self.at(Stage::PruneRemove { tip, entries, index, after }),
            _ => self.unexpected(),
        }
    }

    fn on_prune_remove(
        self,
        tip: u64,
        entries: Vec<Result<Entry, IoError>>,
        index: usize,
        after: After,
        reply: Reply,
    ) -> (r: Operation)
        requires
            index < entries@.len(),
            entries@[index as int] is Ok,
        ensures
            r@ == self@.on_prune_remove(
                tip,
                journal::entries_view(entries@),
                index as int,
                after@,
                reply@,
            ),
            r@.wf(),
    {
        reveal(journal::OperationView::on_prune_remove);
        match reply {
            Reply::Done(r) => {
                if let Err(e) = r {
                    if !e.is_not_found() {
                        return self.failed_io(e);
                    }
                }
                assert(journal::entries_view(entries@).len() == entries@.len());
                let total: usize = entries.len();
                assert(index < total);
                self.prune_from(tip, entries, index + 1, after)
            },
            _ => self.unexpected(),
        }
    }

    fn on_load_state(
        self,
        primary: Option<IoError>,
        reply: Reply,
    ) -> (r: Operation)
        ensures
            r@ == self@.on_load_state(journal::error_option(primary), reply@),
            r@.wf(),
    {
        reveal(journal::OperationView::on_load_state);
        match reply {
            Reply::State(Ok(state)) => self.loaded(state),
            Reply::State(Err(e)) => match primary {
                None => self.at(Stage::LoadState { primary: Some(e) }),
                Some(first) => if first.is_not_found() {
                    self.loaded(HistoryState::default())
                } else {
                    self.failed_io(first)
                },
            },
            _ => self.unexpected(),
        }
    }

    fn on_validate(
        self,
        state: HistoryState,
        index: usize,
        plain: Vec<String>,
        reply: Reply,
    ) -> (r: Operation)
        requires
            index < self@.mutations().len(),
            plain@.len() == index + 1,
        ensures
            r@ == self@.on_validate(state, index as int, text::texts(plain@), reply@),
            r@.wf(),
    {
        reveal(journal::OperationView::on_validate);
        {
            match look(self.goal.mutation(index).path.as_str(), &reply) {
                Err(e) => self.failed(e),
                Ok(_) => {
                    let n: usize = plain.len();
                    assert(text::texts(plain@).len() == n);
                    self.validate_from(state, index + 1, plain)
                },
            }
        }
    }

    fn on_load_turn(
        self,
        kind: PendingKind,
        id: u64,
        target: HistoryState,
        primary: Option<IoError>,
        reply: Reply,
    ) -> (r: Operation)
        ensures
            r@ == self@.on_load_turn(kind, id, target, journal::error_option(primary), reply@),
            r@.wf(),
    {
        reveal(journal::OperationView::on_load_turn);
        match reply {
            Reply::Turn(Ok(c)) => {
                let none: Vec<String> = Vec::new();
                assert(text::texts(none@) =~= Seq::empty());
                self.check_from(
                    PendingOperation { kind, change_set: c, target },
                    0,
                    none,
                )
            },
            Reply::Turn(Err(e)) => match primary {
                None => self.at(Stage::LoadTurn { kind, id, target, primary: Some(e) }),
                Some(first) => self.failed_io(first),
            },
            _ => self.unexpected(),
        }
    }
}

// ---------------------------------------------------------------------------------------------
// Operations

fn request_blobs(files: &Vec<FileChange>) -> (r: Request)
    ensures
        r@ == (journal::RequestView::Discard {
            blobs: history::files_blobs(history::files_view(files@)),
        }),
{
    let blobs = history::list_blobs(&Snapshot::Missing, files);
    assert(text::texts(blobs@) =~= history::files_blobs(history::files_view(files@)));
    Request::Discard { blobs }
}

fn request_entry(entries: &Vec<Result<Entry, IoError>>, i: usize) -> (r: String)
    requires
        i < entries@.len(),
        entries@[i as int] is Ok,
    ensures
        r@ == journal::entries_view(entries@)[i as int]->Ok_0.name,
{
    assert(journal::entries_view(entries@)[i as int] == journal::entry_view(entries@[i as int]));
    match &entries[i] {
        Ok(entry) => entry.name.clone(),
        Err(_) => String::new(),
    }
}

impl Operation {
    fn start(goal: Goal, stage: Stage) -> (r: Operation)
        ensures
            r@ == (journal::OperationView { goal: goal@, recovering: true, stage: stage@ }),
    {
        Operation { goal, recovering: true, stage }
    }

    /// What the operation wants done next; nothing once it has come to its end.
    pub fn request(&self) -> (r: Option<Request>)
        requires
            self@.wf(),
        ensures
            match r {
                Some(request) => self@.request() == Some(request@),
                None => self@.request() is None,
            },
    {
        match &self.stage {
            Stage::MakeDirectories => Some(Request::MakeDirectories),
            Stage::ReadPending => Some(Request::ReadPending),
            Stage::Recover { pending, index, tally: _, expected, part } => {
                assert(pending@.change_set.files[*index as int]
                    == pending.change_set.files@[*index as int]@);
                let change = &pending.change_set.files[*index];
                let snapshot = if expected.is_none() {
                    pending.expected(change)
                } else {
                    pending.desired(change)
                };
                Some(request_probe(change.path.as_str(), snapshot, *part))
            },
            Stage::DropBlobs { pending } => Some(request_blobs(&pending.change_set.files)),
            Stage::DropPending => Some(Request::RemovePending),
            Stage::Check { pending, index, conflicts: _, part } => {
                assert(pending@.change_set.files[*index as int]
                    == pending.change_set.files@[*index as int]@);
                let change = &pending.change_set.files[*index];
                Some(request_probe(change.path.as_str(), pending.expected(change), *part))
            },
            Stage::SavePending { pending } => Some(Request::WritePending(pending.duplicate())),
            Stage::Apply { pending, index, part } => {
                assert(pending@.change_set.files[*index as int]
                    == pending.change_set.files@[*index as int]@);
                let change = &pending.change_set.files[*index];
                match part {
                    ApplyPart::Desired(q) => Some(
                        request_probe(change.path.as_str(), pending.desired(change), *q),
                    ),
                    ApplyPart::Expected(q) => Some(
                        request_probe(change.path.as_str(), pending.expected(change), *q),
                    ),
                    ApplyPart::Write => match pending.desired(change) {
                        Snapshot::Missing => Some(
                            Request::RemoveWork { path: plain_of(change.path.as_str()) },
                        ),
                        Snapshot::Blob { id, .. } => Some(
                            Request::Install {
                                blob: id.clone(),
                                path: plain_of(change.path.as_str()),
                            },
                        ),
                    },
                    ApplyPart::Verify(q) => Some(
                        request_probe(change.path.as_str(), pending.desired(change), *q),
                    ),
                }
            },
            Stage::Confirm { pending, index, conflicts: _, part } => {
                assert(pending@.change_set.files[*index as int]
                    == pending.change_set.files@[*index as int]@);
                let change = &pending.change_set.files[*index];
                Some(request_probe(change.path.as_str(), pending.desired(change), *part))
            },
            Stage::ReadReplaced { pending } => Some(
                Request::ReadTurn { id: pending.change_set.id, backup: false },
            ),
            Stage::SaveTurn { pending, replaced: _ } => Some(
                Request::WriteTurn(pending.change_set.duplicate()),
            ),
            Stage::SaveState { pending, replaced: _ } => Some(
                Request::WriteState(pending.target),
            ),
            Stage::ClearPending { pending: _, replaced: _ } => Some(Request::RemovePending),
            Stage::DropReplaced { pending: _, replaced } => Some(request_blobs(&replaced.files)),
            Stage::ListTurns { .. } => Some(Request::ListTurns),
            Stage::PruneRead { tip: _, entries, index, after: _ } => {
                assert(journal::entries_view(entries@)[*index as int] == journal::entry_view(
                    entries@[*index as int],
                ));
                Some(Request::ReadTurnFile { name: request_entry(entries, *index) })
            },
            Stage::PruneBlobs { tip: _, entries: _, index: _, after: _, outdated } => Some(
                request_blobs(&outdated.files),
            ),
            Stage::PruneRemove { tip: _, entries, index, after: _ } => {
                assert(journal::entries_view(entries@)[*index as int] == journal::entry_view(
                    entries@[*index as int],
                ));
                Some(Request::RemoveTurnFile { name: request_entry(entries, *index) })
            },
            Stage::LoadState { primary } => Some(Request::ReadState { backup: primary.is_some() }),
            Stage::Validate { state: _, index, plain: _ } => Some(
                request_stat(self.goal.mutation(*index).path.as_str()),
            ),
            Stage::Capture { state: _, index, plain, files: _, part } => {
                assert(text::texts(plain@).len() == plain@.len());
                assert(text::texts(plain@)[*index as int] == plain@[*index as int]@);
                match part {
                    CapturePart::Nodes => Some(
                        request_stat(self.goal.mutation(*index).path.as_str()),
                    ),
                    CapturePart::CopyId { .. } => Some(Request::NewBlobId),
                    CapturePart::Copy { len: _, id } => Some(
                        Request::CopyToBlob { path: plain[*index].clone(), blob: id.clone() },
                    ),
                    CapturePart::StoreId { .. } => Some(Request::NewBlobId),
                    CapturePart::Store { before: _, id } => {
                        let bytes = match &self.goal.mutation(*index).contents {
                            Some(bytes) => text::copied_bytes(bytes),
                            None => Vec::new(),
                        };
                        Some(Request::StoreBlob { blob: id.clone(), bytes })
                    },
                }
            },
            Stage::CleanUp { error: _, blobs } => Some(
                Request::Discard { blobs: text::copied(blobs) },
            ),
            Stage::LoadTurn { kind: _, id, target: _, primary } => Some(
                Request::ReadTurn { id: *id, backup: primary.is_some() },
            ),
            Stage::Done(_) => None,
        }
    }

    /// Goes on with what came of the request.
    pub fn resume(self, store: &HistoryStore, reply: Reply) -> (r: Operation)
        requires
            self@.wf(),
        ensures
            r@ == self@.next(store@, reply@),
            r@.wf(),
    {
        let ghost before = self@;
        let Operation { goal, recovering, stage } = self;
        let head = Head { goal, recovering, stage: Ghost(stage@) };
        assert(head@ == before);
        match stage {
            Stage::MakeDirectories => head.on_directories(reply),
            Stage::ReadPending => head.on_read_pending(reply),
            Stage::Recover { pending, index, tally, expected, part } => {
                assert(pending@.change_set.files.len() == pending.change_set.files@.len());
                head.on_recover(pending, index, tally, expected, part, reply)
            },
            Stage::DropBlobs { pending: _ } => head.at(Stage::DropPending),
            Stage::DropPending => head.on_drop_pending(reply),
            Stage::Check { pending, index, conflicts, part } => {
                assert(pending@.change_set.files.len() == pending.change_set.files@.len());
                head.on_check(pending, index, conflicts, part, reply)
            },
            Stage::SavePending { pending } => head.on_save_pending(pending, reply),
            Stage::Apply { pending, index, part } => {
                assert(pending@.change_set.files.len() == pending.change_set.files@.len());
                head.on_apply(pending, index, part, reply)
            },
            Stage::Confirm { pending, index, conflicts, part } => {
                assert(pending@.change_set.files.len() == pending.change_set.files@.len());
                head.on_confirm(pending, index, conflicts, part, reply)
            },
            Stage::ReadReplaced { pending } => head.on_read_replaced(pending, reply),
            Stage::SaveTurn { pending, replaced } => head.on_save_turn(pending, replaced, reply),
            Stage::SaveState { pending, replaced } => head.on_save_state(pending, replaced, reply),
            Stage::ClearPending { pending, replaced } => head.on_clear_pending(
                pending,
                replaced,
                reply,
            ),
            Stage::DropReplaced { pending, replaced: _ } => head.at(
                Stage::ListTurns { tip: pending.target.tip, after: After::Finish(pending) },
            ),
            Stage::ListTurns { tip, after } => head.on_list_turns(tip, after, reply),
            Stage::PruneRead { tip, entries, index, after } => head.on_prune_read(
                tip,
                entries,
                index,
                after,
                reply,
            ),
            Stage::PruneBlobs { tip, entries, index, after, outdated: _ } => head.at(
                Stage::PruneRemove { tip, entries, index, after },
            ),
            Stage::PruneRemove { tip, entries, index, after } => head.on_prune_remove(
                tip,
                entries,
                index,
                after,
                reply,
            ),
            Stage::LoadState { primary } => head.on_load_state(primary, reply),
            Stage::Validate { state, index, plain } => head.on_validate(state, index, plain, reply),
            Stage::Capture { state, index, plain, files, part } => {
                assert(text::texts(plain@).len() == plain@.len());
                let n: usize = plain.len();
                assert(index < n);
                head.on_capture(store, state, index, plain, files, part, reply)
            },
            Stage::CleanUp { error, blobs: _ } => head.failed(error),
            Stage::LoadTurn { kind, id, target, primary } => head.on_load_turn(
                kind,
                id,
                target,
                primary,
                reply,
            ),
            Stage::Done(r) => head.at(Stage::Done(r)),
        }
    }

    /// How the operation ended; before that it is handed back.
    pub fn outcome(self) -> (r: Result<Result<Outcome, HistoryError>, Operation>)
        ensures
            match r {
                Ok(Ok(outcome)) => self@.stage == journal::StageView::Done(Ok(outcome@)),
                Ok(Err(e)) => self@.stage == journal::StageView::Done(Err(e@)),
                Err(op) => op == self && !(self@.stage is Done),
            },
    {
        let Operation { goal, recovering, stage } = self;
        match stage {
            Stage::Done(r) => Ok(r),
            other => Err(Operation { goal, recovering, stage: other }),
        }
    }
}

fn take_all(platform: Platform, mutations: Vec<FileMutation>) -> (r: Vec<Mutation>)
    ensures
        journal::mutations_view(r@) == journal::all_taken(
            platform,
            history::mutations_view(mutations@),
        ),
{
    let ghost all = journal::all_taken(platform, history::mutations_view(mutations@));
    let mut r: Vec<Mutation> = Vec::new();
    let mut i: usize = 0;
    assert(journal::mutations_view(r@) =~= all.take(0));
    while i < mutations.len()
        invariant
            all == journal::all_taken(platform, history::mutations_view(mutations@)),
            i <= mutations@.len(),
            journal::mutations_view(r@) == all.take(i as int),
        decreases mutations@.len() - i,
    {
        let ghost before = journal::mutations_view(r@);
        let m = &mutations[i];
        let contents = match &m.contents {
            Some(bytes) => Some(text::copied_bytes(bytes)),
            None => None,
        };
        let next = Mutation {
            shown: m.path.clone(),
            path: paths::to_portable(platform, m.path.as_str()),
            contents,
        };
        assert(next@ == all[i as int]);
        r.push(next);
        assert(journal::mutations_view(r@) =~= before.push(all[i as int]));
        assert(all.take(i + 1) =~= all.take(i as int).push(all[i as int]));
        i = i + 1;
    }
    assert(all.take(i as int) =~= all);
    r
}

impl HistoryStore {
    /// Opens the journal below `root` of the directory `workspace`: an operation that an earlier
    /// process left behind is completed or taken back, and outdated transactions are dropped.
    pub fn open(
        root: String,
        workspace: String,
        workspace_is_dir: bool,
        platform: Platform,
    ) -> (r: Result<(HistoryStore, Operation), HistoryError>)
        ensures
            match r {
                Ok((store, op)) => {
                    &&& workspace_is_dir
                    &&& store@ == (history::StoreView {
                        root: root@,
                        workspace: workspace@,
                        platform,
                    })
                    &&& op@ == (journal::OperationView {
                        goal: journal::GoalView::Open,
                        recovering: true,
                        stage: journal::StageView::MakeDirectories,
                    })
                    &&& op@.wf()
                },
                Err(e) => !workspace_is_dir && e@ == history::HistoryErrorView::InvalidPath(
                    workspace@,
                ),
            },
    {
        match HistoryStore::at(root, workspace, workspace_is_dir, platform) {
            Ok(store) => Ok((store, Operation::start(Goal::Open, Stage::MakeDirectories))),
            Err(e) => Err(e),
        }
    }

    /// Reads how many transactions are applied and recorded.
    pub fn state(&self) -> (r: Operation)
        ensures
            r@ == (journal::OperationView {
                goal: journal::GoalView::State,
                recovering: false,
                stage: journal::StageView::LoadState { primary: None },
            }),
            r@.wf(),
    {
        Operation {
            goal: Goal::State,
            recovering: false,
            stage: Stage::LoadState { primary: None },
        }
    }

    /// Records the changes as a transaction and applies them.
    pub fn record_and_apply(&self, mutations: Vec<FileMutation>) -> (r: Operation)
        ensures
            r@ == (journal::OperationView {
                goal: journal::GoalView::Record(
                    journal::all_taken(self@.platform, history::mutations_view(mutations@)),
                ),
                recovering: true,
                stage: journal::StageView::ReadPending,
            }),
            r@.wf(),
    {
        Operation::start(Goal::Record(take_all(self.platform(), mutations)), Stage::ReadPending)
    }

    /// Takes the last applied transaction back.
    pub fn undo(&self) -> (r: Operation)
        ensures
            r@ == (journal::OperationView {
                goal: journal::GoalView::Undo,
                recovering: true,
                stage: journal::StageView::ReadPending,
            }),
            r@.wf(),
    {
        Operation::start(Goal::Undo, Stage::ReadPending)
    }

    /// Applies the next recorded transaction again.
    pub fn redo(&self) -> (r: Operation)
        ensures
            r@ == (journal::OperationView {
                goal: journal::GoalView::Redo,
                recovering: true,
                stage: journal::StageView::ReadPending,
            }),
            r@.wf(),
    {
        Operation::start(Goal::Redo, Stage::ReadPending)
    }
}

} // verus!
