//! The operations of the journal, as a state machine: what an operation wants done to the disk
//! ([`Request`]), what may come of it ([`Reply`]), and how the operation goes on from there.

use vstd::prelude::*;
use vstd::string::*;

use crate::history;
use crate::history::{
    ChangeSet, FileChange, HistoryError, HistoryState, PendingKind, PendingOperation,
    Snapshot, SnapshotSide,
};
use crate::io;
use crate::io::{IoError, IoErrorKind};
use crate::paths;
use crate::paths::Platform;
use crate::text;

verus! {

// ---------------------------------------------------------------------------------------------
// Requests and replies

/// What stands at a path; a symbolic link is not followed.
#[derive(Debug, Clone, Copy, PartialEq, Eq, Structural)]
pub enum Node {
    File { len: u64 },
    Symlink,
    Other,
}

/// What an [`Entry`] holds.
#[verifier::ext_equal]
pub struct EntryView {
    pub name: Seq<char>,
    pub is_file: bool,
}

/// An entry of a directory.
#[derive(Debug, Clone, PartialEq, Eq)]
pub struct Entry {
    pub name: String,
    pub is_file: bool,
}

impl View for Entry {
    type V = EntryView;

    open spec fn view(&self) -> EntryView {
        EntryView { name: self.name@, is_file: self.is_file }
    }
}

/// What a [`Request`] holds.
pub enum RequestView {
    MakeDirectories,
    Stat { paths: Seq<Seq<char>> },
    Compare { path: Seq<char>, blob: Seq<char>, len: u64 },
    CopyToBlob { path: Seq<char>, blob: Seq<char> },
    StoreBlob { blob: Seq<char>, bytes: Seq<u8> },
    Install { blob: Seq<char>, path: Seq<char> },
    RemoveWork { path: Seq<char> },
    Discard { blobs: Seq<Seq<char>> },
    NewBlobId,
    ReadPending,
    WritePending(history::PendingView),
    RemovePending,
    ReadState { backup: bool },
    WriteState(HistoryState),
    ReadTurn { id: u64, backup: bool },
    WriteTurn(history::ChangeSetView),
    ListTurns,
    ReadTurnFile { name: Seq<char> },
    RemoveTurnFile { name: Seq<char> },
}

/// What an operation wants done next.
#[derive(Debug, Clone, PartialEq, Eq)]
pub enum Request {
    /// Create the directories for blobs and turns. Replied to by `Done`.
    MakeDirectories,
    /// Look at each of these paths of the workspace, in order. Replied to by `Stats`.
    Stat { paths: Vec<String> },
    /// Compare a file of the workspace with a blob; both must have length `len`. Replied to by
    /// `Equal`.
    Compare { path: String, blob: String, len: u64 },
    /// Copy a file of the workspace to a new blob. Replied to by `Done`.
    CopyToBlob { path: String, blob: String },
    /// Write a new blob. Replied to by `Done`.
    StoreBlob { blob: String, bytes: Vec<u8> },
    /// Replace a file of the workspace by the contents of a blob. Replied to by `Done`.
    Install { blob: String, path: String },
    /// Remove a file of the workspace. Replied to by `Done`.
    RemoveWork { path: String },
    /// Remove these blobs as far as possible. Replied to by anything.
    Discard { blobs: Vec<String> },
    /// Make an identifier that no blob has. Replied to by `BlobId`.
    NewBlobId,
    /// Read the pending operation. Replied to by `Pending`.
    ReadPending,
    /// Write the pending operation. Replied to by `Done`.
    WritePending(PendingOperation),
    /// Remove the pending operation. Replied to by `Done`.
    RemovePending,
    /// Read the state, or its backup. Replied to by `State`.
    ReadState { backup: bool },
    /// Write the state and keep a backup. Replied to by `Done`.
    WriteState(HistoryState),
    /// Read a transaction, or its backup. Replied to by `Turn`.
    ReadTurn { id: u64, backup: bool },
    /// Write a transaction. Replied to by `Done`.
    WriteTurn(ChangeSet),
    /// List the directory of the transactions. Replied to by `Turns`.
    ListTurns,
    /// Read the transaction in a file of that directory. Replied to by `Turn`.
    ReadTurnFile { name: String },
    /// Remove a file of that directory. Replied to by `Done`.
    RemoveTurnFile { name: String },
}

impl View for Request {
    type V = RequestView;

    open spec fn view(&self) -> RequestView {
        match *self {
            Request::MakeDirectories => RequestView::MakeDirectories,
            Request::Stat { paths } => RequestView::Stat { paths: text::texts(paths@) },
            Request::Compare { path, blob, len } => RequestView::Compare {
                path: path@,
                blob: blob@,
                len,
            },
            Request::CopyToBlob { path, blob } => RequestView::CopyToBlob {
                path: path@,
                blob: blob@,
            },
            Request::StoreBlob { blob, bytes } => RequestView::StoreBlob {
                blob: blob@,
                bytes: bytes@,
            },
            Request::Install { blob, path } => RequestView::Install { blob: blob@, path: path@ },
            Request::RemoveWork { path } => RequestView::RemoveWork { path: path@ },
            Request::Discard { blobs } => RequestView::Discard { blobs: text::texts(blobs@) },
            Request::NewBlobId => RequestView::NewBlobId,
            Request::ReadPending => RequestView::ReadPending,
            Request::WritePending(p) => RequestView::WritePending(p@),
            Request::RemovePending => RequestView::RemovePending,
            Request::ReadState { backup } => RequestView::ReadState { backup },
            Request::WriteState(s) => RequestView::WriteState(s),
            Request::ReadTurn { id, backup } => RequestView::ReadTurn { id, backup },
            Request::WriteTurn(c) => RequestView::WriteTurn(c@),
            Request::ListTurns => RequestView::ListTurns,
            Request::ReadTurnFile { name } => RequestView::ReadTurnFile { name: name@ },
            Request::RemoveTurnFile { name } => RequestView::RemoveTurnFile { name: name@ },
        }
    }
}

pub type StatView = Result<Node, io::IoErrorView>;

pub type EntryResultView = Result<EntryView, io::IoErrorView>;

/// What a [`Reply`] holds.
pub enum ReplyView {
    Done(Result<(), io::IoErrorView>),
    Stats(Seq<StatView>),
    Equal(Result<bool, io::IoErrorView>),
    BlobId(Seq<char>),
    Pending(Result<history::PendingView, io::IoErrorView>),
    State(Result<HistoryState, io::IoErrorView>),
    Turn(Result<history::ChangeSetView, io::IoErrorView>),
    Turns(Result<Seq<EntryResultView>, io::IoErrorView>),
}

/// What came of a request.
#[derive(Debug)]
pub enum Reply {
    Done(Result<(), IoError>),
    Stats(Vec<Result<Node, IoError>>),
    Equal(Result<bool, IoError>),
    BlobId(String),
    Pending(Result<PendingOperation, IoError>),
    State(Result<HistoryState, IoError>),
    Turn(Result<ChangeSet, IoError>),
    Turns(Result<Vec<Result<Entry, IoError>>, IoError>),
}

pub open spec fn stats_view(list: Seq<Result<Node, IoError>>) -> Seq<StatView> {
    list.map_values(|s: Result<Node, IoError>| io::result_view(s))
}

pub open spec fn entry_view(entry: Result<Entry, IoError>) -> EntryResultView {
    match entry {
        Ok(entry) => Ok(entry@),
        Err(e) => Err(e@),
    }
}

pub open spec fn entries_view(list: Seq<Result<Entry, IoError>>) -> Seq<EntryResultView> {
    list.map_values(|s: Result<Entry, IoError>| entry_view(s))
}

impl View for Reply {
    type V = ReplyView;

    open spec fn view(&self) -> ReplyView {
        match *self {
            Reply::Done(r) => ReplyView::Done(io::result_view(r)),
            Reply::Stats(list) => ReplyView::Stats(stats_view(list@)),
            Reply::Equal(r) => ReplyView::Equal(io::result_view(r)),
            Reply::BlobId(id) => ReplyView::BlobId(id@),
            Reply::Pending(r) => ReplyView::Pending(
                match r {
                    Ok(p) => Ok(p@),
                    Err(e) => Err(e@),
                },
            ),
            Reply::State(r) => ReplyView::State(io::result_view(r)),
            Reply::Turn(r) => ReplyView::Turn(
                match r {
                    Ok(c) => Ok(c@),
                    Err(e) => Err(e@),
                },
            ),
            Reply::Turns(r) => ReplyView::Turns(
                match r {
                    Ok(list) => Ok(entries_view(list@)),
                    Err(e) => Err(e@),
                },
            ),
        }
    }
}

// ---------------------------------------------------------------------------------------------
// The state of an operation

/// What a [`Mutation`] holds.
#[verifier::ext_equal]
pub struct MutationView {
    pub shown: Seq<char>,
    pub path: Seq<char>,
    pub contents: Option<Seq<u8>>,
}

/// A file to be changed: the path as it was given, the path with slashes for separators, and what
/// the file is to hold.
#[derive(Debug)]
pub struct Mutation {
    pub shown: String,
    pub path: String,
    pub contents: Option<Vec<u8>>,
}

impl View for Mutation {
    type V = MutationView;

    open spec fn view(&self) -> MutationView {
        MutationView {
            shown: self.shown@,
            path: self.path@,
            contents: match self.contents {
                Some(bytes) => Some(bytes@),
                None => None,
            },
        }
    }
}

pub open spec fn mutations_view(list: Seq<Mutation>) -> Seq<MutationView> {
    list.map_values(|m: Mutation| m@)
}

/// What a mutation is to the journal of a workspace on a platform.
pub open spec fn taken(platform: Platform, m: history::FileMutationView) -> MutationView {
    MutationView {
        shown: m.path,
        path: paths::portable(platform, m.path),
        contents: m.contents,
    }
}

/// What mutations are to the journal of a workspace on a platform.
pub open spec fn all_taken(
    platform: Platform,
    list: Seq<history::FileMutationView>,
) -> Seq<MutationView> {
    list.map_values(|m: history::FileMutationView| taken(platform, m))
}

/// What an operation is for.
#[derive(Debug)]
pub enum Goal {
    Open,
    State,
    Record(Vec<Mutation>),
    Undo,
    Redo,
}

pub enum GoalView {
    Open,
    State,
    Record(Seq<MutationView>),
    Undo,
    Redo,
}

impl View for Goal {
    type V = GoalView;

    open spec fn view(&self) -> GoalView {
        match *self {
            Goal::Open => GoalView::Open,
            Goal::State => GoalView::State,
            Goal::Record(list) => GoalView::Record(mutations_view(list@)),
            Goal::Undo => GoalView::Undo,
            Goal::Redo => GoalView::Redo,
        }
    }
}

/// A file is compared with a snapshot in two parts: the path to it, and its bytes.
#[derive(Debug, Clone, Copy, PartialEq, Eq, Structural)]
pub enum Part {
    Nodes,
    Bytes,
}

/// How far the change of one file has come.
#[derive(Debug, Clone, Copy, PartialEq, Eq, Structural)]
pub enum ApplyPart {
    /// Does the file have the desired contents already?
    Desired(Part),
    /// Does it have the expected contents?
    Expected(Part),
    /// The file is being changed.
    Write,
    /// Does it have the desired contents now?
    Verify(Part),
}

/// How far the capture of one file has come.
#[derive(Debug)]
pub enum CapturePart {
    Nodes,
    CopyId { len: u64 },
    Copy { len: u64, id: String },
    StoreId { before: Snapshot },
    Store { before: Snapshot, id: String },
}

pub enum CapturePartView {
    Nodes,
    CopyId { len: u64 },
    Copy { len: u64, id: Seq<char> },
    StoreId { before: history::SnapshotView },
    Store { before: history::SnapshotView, id: Seq<char> },
}

impl View for CapturePart {
    type V = CapturePartView;

    open spec fn view(&self) -> CapturePartView {
        match *self {
            CapturePart::Nodes => CapturePartView::Nodes,
            CapturePart::CopyId { len } => CapturePartView::CopyId { len },
            CapturePart::Copy { len, id } => CapturePartView::Copy { len, id: id@ },
            CapturePart::StoreId { before } => CapturePartView::StoreId { before: before@ },
            CapturePart::Store { before, id } => CapturePartView::Store {
                before: before@,
                id: id@,
            },
        }
    }
}

/// What was seen of a pending operation's files so far.
#[derive(Debug)]
pub struct Tally {
    pub all_expected: bool,
    pub all_desired: bool,
    pub conflicts: Vec<String>,
}

#[verifier::ext_equal]
pub struct TallyView {
    pub all_expected: bool,
    pub all_desired: bool,
    pub conflicts: Seq<Seq<char>>,
}

impl View for Tally {
    type V = TallyView;

    open spec fn view(&self) -> TallyView {
        TallyView {
            all_expected: self.all_expected,
            all_desired: self.all_desired,
            conflicts: text::texts(self.conflicts@),
        }
    }
}

/// What follows once outdated transactions are gone.
#[derive(Debug)]
pub enum After {
    Finish(PendingOperation),
    Opened,
}

pub enum AfterView {
    Finish(history::PendingView),
    Opened,
}

impl View for After {
    type V = AfterView;

    open spec fn view(&self) -> AfterView {
        match *self {
            After::Finish(p) => AfterView::Finish(p@),
            After::Opened => AfterView::Opened,
        }
    }
}

/// How an operation ends well.
#[derive(Debug, Clone, PartialEq, Eq)]
pub enum Outcome {
    Opened,
    State(HistoryState),
    Applied(ChangeSet),
}

pub enum OutcomeView {
    Opened,
    State(HistoryState),
    Applied(history::ChangeSetView),
}

impl View for Outcome {
    type V = OutcomeView;

    open spec fn view(&self) -> OutcomeView {
        match *self {
            Outcome::Opened => OutcomeView::Opened,
            Outcome::State(s) => OutcomeView::State(s),
            Outcome::Applied(c) => OutcomeView::Applied(c@),
        }
    }
}

/// Where an operation stands.
#[derive(Debug)]
pub enum Stage {
    MakeDirectories,
    ReadPending,
    /// Comparing file `index` with both sides; `expected` is the verdict on the first.
    Recover {
        pending: PendingOperation,
        index: usize,
        tally: Tally,
        expected: Option<bool>,
        part: Part,
    },
    DropBlobs { pending: PendingOperation },
    DropPending,
    /// Comparing file `index` with the expected side, before anything is changed.
    Check { pending: PendingOperation, index: usize, conflicts: Vec<String>, part: Part },
    SavePending { pending: PendingOperation },
    Apply { pending: PendingOperation, index: usize, part: ApplyPart },
    /// Comparing file `index` with the desired side, after everything was changed.
    Confirm { pending: PendingOperation, index: usize, conflicts: Vec<String>, part: Part },
    ReadReplaced { pending: PendingOperation },
    SaveTurn { pending: PendingOperation, replaced: Option<ChangeSet> },
    SaveState { pending: PendingOperation, replaced: Option<ChangeSet> },
    ClearPending { pending: PendingOperation, replaced: Option<ChangeSet> },
    DropReplaced { pending: PendingOperation, replaced: ChangeSet },
    ListTurns { tip: u64, after: After },
    PruneRead { tip: u64, entries: Vec<Result<Entry, IoError>>, index: usize, after: After },
    PruneBlobs {
        tip: u64,
        entries: Vec<Result<Entry, IoError>>,
        index: usize,
        after: After,
        outdated: ChangeSet,
    },
    PruneRemove { tip: u64, entries: Vec<Result<Entry, IoError>>, index: usize, after: After },
    LoadState { primary: Option<IoError> },
    Validate { state: HistoryState, index: usize, plain: Vec<String> },
    Capture {
        state: HistoryState,
        index: usize,
        plain: Vec<String>,
        files: Vec<FileChange>,
        part: CapturePart,
    },
    CleanUp { error: HistoryError, blobs: Vec<String> },
    LoadTurn {
        kind: PendingKind,
        id: u64,
        target: HistoryState,
        primary: Option<IoError>,
    },
    Done(Result<Outcome, HistoryError>),
}

pub enum StageView {
    MakeDirectories,
    ReadPending,
    Recover {
        pending: history::PendingView,
        index: int,
        tally: TallyView,
        expected: Option<bool>,
        part: Part,
    },
    DropBlobs { pending: history::PendingView },
    DropPending,
    Check { pending: history::PendingView, index: int, conflicts: Seq<Seq<char>>, part: Part },
    SavePending { pending: history::PendingView },
    Apply { pending: history::PendingView, index: int, part: ApplyPart },
    Confirm { pending: history::PendingView, index: int, conflicts: Seq<Seq<char>>, part: Part },
    ReadReplaced { pending: history::PendingView },
    SaveTurn { pending: history::PendingView, replaced: Option<history::ChangeSetView> },
    SaveState { pending: history::PendingView, replaced: Option<history::ChangeSetView> },
    ClearPending { pending: history::PendingView, replaced: Option<history::ChangeSetView> },
    DropReplaced { pending: history::PendingView, replaced: history::ChangeSetView },
    ListTurns { tip: u64, after: AfterView },
    PruneRead { tip: u64, entries: Seq<EntryResultView>, index: int, after: AfterView },
    PruneBlobs {
        tip: u64,
        entries: Seq<EntryResultView>,
        index: int,
        after: AfterView,
        outdated: history::ChangeSetView,
    },
    PruneRemove { tip: u64, entries: Seq<EntryResultView>, index: int, after: AfterView },
    LoadState { primary: Option<io::IoErrorView> },
    Validate { state: HistoryState, index: int, plain: Seq<Seq<char>> },
    Capture {
        state: HistoryState,
        index: int,
        plain: Seq<Seq<char>>,
        files: Seq<history::FileChangeView>,
        part: CapturePartView,
    },
    CleanUp { error: history::HistoryErrorView, blobs: Seq<Seq<char>> },
    LoadTurn {
        kind: PendingKind,
        id: u64,
        target: HistoryState,
        primary: Option<io::IoErrorView>,
    },
    Done(Result<OutcomeView, history::HistoryErrorView>),
}

pub open spec fn change_set_option(c: Option<ChangeSet>) -> Option<history::ChangeSetView> {
    match c {
        Some(c) => Some(c@),
        None => None,
    }
}

pub open spec fn error_option(e: Option<IoError>) -> Option<io::IoErrorView> {
    match e {
        Some(e) => Some(e@),
        None => None,
    }
}

impl View for Stage {
    type V = StageView;

    open spec fn view(&self) -> StageView {
        match *self {
            Stage::MakeDirectories => StageView::MakeDirectories,
            Stage::ReadPending => StageView::ReadPending,
            Stage::Recover { pending, index, tally, expected, part } => StageView::Recover {
                pending: pending@,
                index: index as int,
                tally: tally@,
                expected,
                part,
            },
            Stage::DropBlobs { pending } => StageView::DropBlobs { pending: pending@ },
            Stage::DropPending => StageView::DropPending,
            Stage::Check { pending, index, conflicts, part } => StageView::Check {
                pending: pending@,
                index: index as int,
                conflicts: text::texts(conflicts@),
                part,
            },
            Stage::SavePending { pending } => StageView::SavePending { pending: pending@ },
            Stage::Apply { pending, index, part } => StageView::Apply {
                pending: pending@,
                index: index as int,
                part,
            },
            Stage::Confirm { pending, index, conflicts, part } => StageView::Confirm {
                pending: pending@,
                index: index as int,
                conflicts: text::texts(conflicts@),
                part,
            },
            Stage::ReadReplaced { pending } => StageView::ReadReplaced { pending: pending@ },
            Stage::SaveTurn { pending, replaced } => StageView::SaveTurn {
                pending: pending@,
                replaced: change_set_option(replaced),
            },
            Stage::SaveState { pending, replaced } => StageView::SaveState {
                pending: pending@,
                replaced: change_set_option(replaced),
            },
            Stage::ClearPending { pending, replaced } => StageView::ClearPending {
                pending: pending@,
                replaced: change_set_option(replaced),
            },
            Stage::DropReplaced { pending, replaced } => StageView::DropReplaced {
                pending: pending@,
                replaced: replaced@,
            },
            Stage::ListTurns { tip, after } => StageView::ListTurns { tip, after: after@ },
            Stage::PruneRead { tip, entries, index, after } => StageView::PruneRead {
                tip,
                entries: entries_view(entries@),
                index: index as int,
                after: after@,
            },
            Stage::PruneBlobs { tip, entries, index, after, outdated } => StageView::PruneBlobs {
                tip,
                entries: entries_view(entries@),
                index: index as int,
                after: after@,
                outdated: outdated@,
            },
            Stage::PruneRemove { tip, entries, index, after } => StageView::PruneRemove {
                tip,
                entries: entries_view(entries@),
                index: index as int,
                after: after@,
            },
            Stage::LoadState { primary } => StageView::LoadState {
                primary: error_option(primary),
            },
            Stage::Validate { state, index, plain } => StageView::Validate {
                state,
                index: index as int,
                plain: text::texts(plain@),
            },
            Stage::Capture { state, index, plain, files, part } => StageView::Capture {
                state,
                index: index as int,
                plain: text::texts(plain@),
                files: history::files_view(files@),
                part: part@,
            },
            Stage::CleanUp { error, blobs } => StageView::CleanUp {
                error: error@,
                blobs: text::texts(blobs@),
            },
            Stage::LoadTurn { kind, id, target, primary } => StageView::LoadTurn {
                kind,
                id,
                target,
                primary: error_option(primary),
            },
            Stage::Done(r) => StageView::Done(
                match r {
                    Ok(o) => Ok(o@),
                    Err(e) => Err(e@),
                },
            ),
        }
    }
}

/// What an [`Operation`] holds.
pub struct OperationView {
    pub goal: GoalView,
    /// Whether an earlier operation is being completed or taken back.
    pub recovering: bool,
    pub stage: StageView,
}

// ---------------------------------------------------------------------------------------------
// What an operation does with a reply

/// The plain form of a path; a path that has none stands for itself.
pub open spec fn plain_path(path: Seq<char>) -> Seq<char> {
    match paths::normalized(path) {
        Some(plain) => plain,
        None => path,
    }
}

/// Why nothing may be done at a plain path, if so: something on the way is a symbolic link, or
/// could not be looked at. What is missing is no reason.
pub open spec fn path_problem(plain: Seq<char>, stats: Seq<StatView>) -> Option<
    history::HistoryErrorView,
>
    decreases stats.len(),
{
    if stats.len() == 0 {
        None
    } else {
        match path_problem(plain, stats.drop_last()) {
            Some(e) => Some(e),
            None => match stats.last() {
                Ok(Node::Symlink) => Some(history::HistoryErrorView::InvalidPath(plain)),
                Ok(_) => None,
                Err(e) => if e.kind == IoErrorKind::NotFound {
                    None
                } else {
                    Some(history::HistoryErrorView::Io(e))
                },
            },
        }
    }
}

pub open spec fn unexpected_reply() -> history::HistoryErrorView {
    history::HistoryErrorView::Io(
        io::IoErrorView { kind: IoErrorKind::InvalidInput, message: "unexpected reply"@ },
    )
}

pub open spec fn verification_failure() -> history::HistoryErrorView {
    history::HistoryErrorView::Io(
        io::IoErrorView {
            kind: IoErrorKind::Other,
            message: "filesystem verification failed after change"@,
        },
    )
}

pub open spec fn stat_request(path: Seq<char>) -> RequestView {
    RequestView::Stat { paths: paths::ancestry(plain_path(path)) }
}

/// What is asked to compare the file at `path` with a snapshot.
pub open spec fn probe_request(
    path: Seq<char>,
    snapshot: history::SnapshotView,
    part: Part,
) -> RequestView {
    match (part, snapshot) {
        (Part::Bytes, history::SnapshotView::Blob { id, len }) => RequestView::Compare {
            path: plain_path(path),
            blob: id,
            len,
        },
        _ => stat_request(path),
    }
}

/// What the stats of the way to `path` say: the node at its end, or none where it is missing.
pub open spec fn looked_at(path: Seq<char>, reply: ReplyView) -> Result<
    Option<Node>,
    history::HistoryErrorView,
> {
    match reply {
        ReplyView::Stats(stats) => {
            let plain = plain_path(path);
            if stats.len() != paths::ancestry(plain).len() {
                Err(unexpected_reply())
            } else {
                match path_problem(plain, stats) {
                    Some(e) => Err(e),
                    None => match stats.last() {
                        Ok(node) => Ok(Some(node)),
                        Err(_) => Ok(None),
                    },
                }
            }
        },
        _ => Err(unexpected_reply()),
    }
}

/// What the reply says on whether the file at `path` is as in the snapshot; nothing where the
/// bytes have to be compared yet.
pub open spec fn probed(
    path: Seq<char>,
    snapshot: history::SnapshotView,
    part: Part,
    reply: ReplyView,
) -> Result<Option<bool>, history::HistoryErrorView> {
    match part {
        Part::Nodes => match looked_at(path, reply) {
            Ok(node) => match snapshot {
                history::SnapshotView::Missing => Ok(Some(node is None)),
                history::SnapshotView::Blob { .. } => Ok(None),
            },
            Err(e) => Err(e),
        },
        Part::Bytes => match reply {
            ReplyView::Equal(Ok(equal)) => Ok(Some(equal)),
            ReplyView::Equal(Err(e)) => Err(history::HistoryErrorView::Io(e)),
            _ => Err(unexpected_reply()),
        },
    }
}

impl TallyView {
    pub open spec fn start() -> TallyView {
        TallyView { all_expected: true, all_desired: true, conflicts: Seq::empty() }
    }

    /// The tally with one more file.
    pub open spec fn counted(self, path: Seq<char>, expected: bool, desired: bool) -> TallyView {
        TallyView {
            all_expected: self.all_expected && expected,
            all_desired: self.all_desired && desired,
            conflicts: if expected || desired {
                self.conflicts
            } else {
                self.conflicts.push(path)
            },
        }
    }
}

pub open spec fn is_outdated(entry: EntryView, tip: u64) -> bool {
    entry.is_file && match history::turn_id(entry.name) {
        Some(id) => id > tip,
        None => false,
    }
}

/// The operation that brings a recorded transaction back or forth.
pub open spec fn replay(
    kind: PendingKind,
    change_set: history::ChangeSetView,
    target: HistoryState,
) -> history::PendingView {
    history::PendingView { kind, change_set, target }
}

/// The number of the transaction that follows a state.
pub open spec fn next_id(state: HistoryState) -> u64 {
    if state.cursor == u64::MAX {
        u64::MAX
    } else {
        (state.cursor + 1) as u64
    }
}

/// The operation that a commit of the given changes is.
pub open spec fn commit_of(
    state: HistoryState,
    files: Seq<history::FileChangeView>,
) -> history::PendingView {
    let id = next_id(state);
    history::PendingView {
        kind: PendingKind::Commit,
        change_set: history::ChangeSetView { id, files },
        target: HistoryState { cursor: id, tip: id },
    }
}

impl OperationView {
    pub open spec fn mutations(self) -> Seq<MutationView> {
        match self.goal {
            GoalView::Record(list) => list,
            _ => Seq::empty(),
        }
    }

    pub open spec fn at(self, stage: StageView) -> OperationView {
        OperationView { stage, ..self }
    }

    pub open spec fn failed(self, e: history::HistoryErrorView) -> OperationView {
        self.at(StageView::Done(Err(e)))
    }

    pub open spec fn unexpected(self) -> OperationView {
        self.failed(unexpected_reply())
    }

    /// Nothing is left of an earlier operation.
    pub open spec fn recovered(self) -> OperationView {
        OperationView {
            recovering: false,
            stage: StageView::LoadState { primary: None },
            ..self
        }
    }

    /// Goes on with file `i` of an earlier operation.
    #[verifier::opaque]
    pub open spec fn recover_from(
        self,
        p: history::PendingView,
        i: int,
        tally: TallyView,
    ) -> OperationView {
        if i >= p.change_set.files.len() {
            self.decided(p, tally)
        } else if paths::normalized(p.change_set.files[i].path) is None {
            self.failed(history::HistoryErrorView::InvalidPath(p.change_set.files[i].path))
        } else {
            self.at(
                StageView::Recover {
                    pending: p,
                    index: i,
                    tally,
                    expected: None,
                    part: Part::Nodes,
                },
            )
        }
    }

    /// Completes an earlier operation or takes it back, by what was found of its files.
    #[verifier::opaque]
    pub open spec fn decided(self, p: history::PendingView, tally: TallyView) -> OperationView {
        if tally.conflicts.len() > 0 {
            self.failed(history::HistoryErrorView::Conflict(tally.conflicts))
        } else if tally.all_desired {
            self.confirm_from(p, 0, Seq::empty())
        } else if tally.all_expected {
            if p.kind == PendingKind::Commit {
                self.at(StageView::DropBlobs { pending: p })
            } else {
                self.at(StageView::DropPending)
            }
        } else {
            self.apply_from(p, 0)
        }
    }

    /// Goes on with the check of the files from `i` on, before anything is changed.
    #[verifier::opaque]
    pub open spec fn check_from(
        self,
        p: history::PendingView,
        i: int,
        conflicts: Seq<Seq<char>>,
    ) -> OperationView {
        if i >= p.change_set.files.len() {
            if conflicts.len() > 0 {
                self.failed(history::HistoryErrorView::Conflict(conflicts))
            } else {
                self.at(StageView::SavePending { pending: p })
            }
        } else if paths::normalized(p.change_set.files[i].path) is None {
            self.failed(history::HistoryErrorView::InvalidPath(p.change_set.files[i].path))
        } else {
            self.at(StageView::Check { pending: p, index: i, conflicts, part: Part::Nodes })
        }
    }

    /// Goes on with the change of the files from `i` on.
    #[verifier::opaque]
    pub open spec fn apply_from(self, p: history::PendingView, i: int) -> OperationView {
        if i >= p.change_set.files.len() {
            self.confirm_from(p, 0, Seq::empty())
        } else if paths::normalized(p.change_set.files[i].path) is None {
            self.failed(history::HistoryErrorView::InvalidPath(p.change_set.files[i].path))
        } else {
            self.at(
                StageView::Apply { pending: p, index: i, part: ApplyPart::Desired(Part::Nodes) },
            )
        }
    }

    /// Goes on with the check of the files from `i` on, after everything was changed.
    #[verifier::opaque]
    pub open spec fn confirm_from(
        self,
        p: history::PendingView,
        i: int,
        conflicts: Seq<Seq<char>>,
    ) -> OperationView {
        if i >= p.change_set.files.len() {
            if conflicts.len() > 0 {
                self.failed(history::HistoryErrorView::Conflict(conflicts))
            } else if p.kind == PendingKind::Commit {
                self.at(StageView::ReadReplaced { pending: p })
            } else {
                self.at(StageView::SaveState { pending: p, replaced: None })
            }
        } else if paths::normalized(p.change_set.files[i].path) is None {
            self.failed(history::HistoryErrorView::InvalidPath(p.change_set.files[i].path))
        } else {
            self.at(StageView::Confirm { pending: p, index: i, conflicts, part: Part::Nodes })
        }
    }

    /// The pending operation is off the disk.
    #[verifier::opaque]
    pub open spec fn cleared(
        self,
        p: history::PendingView,
        replaced: Option<history::ChangeSetView>,
    ) -> OperationView {
        if p.kind != PendingKind::Commit {
            self.finished(p)
        } else {
            match replaced {
                Some(c) if c != p.change_set => self.at(
                    StageView::DropReplaced { pending: p, replaced: c },
                ),
                _ => self.at(
                    StageView::ListTurns { tip: p.target.tip, after: AfterView::Finish(p) },
                ),
            }
        }
    }

    #[verifier::opaque]
    pub open spec fn finished(self, p: history::PendingView) -> OperationView {
        if self.recovering {
            self.recovered()
        } else {
            self.at(StageView::Done(Ok(OutcomeView::Applied(p.change_set))))
        }
    }

    /// Goes on to the next outdated transaction from entry `i` on.
    pub open spec fn prune_from(
        self,
        tip: u64,
        entries: Seq<EntryResultView>,
        i: int,
        after: AfterView,
    ) -> OperationView
        decreases entries.len() - i,
    {
        if i >= entries.len() {
            self.pruned(after)
        } else {
            match entries[i] {
                Err(e) => self.failed(history::HistoryErrorView::Io(e)),
                Ok(entry) => if is_outdated(entry, tip) {
                    self.at(StageView::PruneRead { tip, entries, index: i, after })
                } else {
                    self.prune_from(tip, entries, i + 1, after)
                },
            }
        }
    }

    #[verifier::opaque]
    pub open spec fn pruned(self, after: AfterView) -> OperationView {
        match after {
            AfterView::Finish(p) => self.finished(p),
            AfterView::Opened => self.at(StageView::Done(Ok(OutcomeView::Opened))),
        }
    }

    /// Turns to the goal, the state being known.
    #[verifier::opaque]
    pub open spec fn loaded(self, state: HistoryState) -> OperationView {
        match self.goal {
            GoalView::Open => self.at(
                StageView::ListTurns { tip: state.tip, after: AfterView::Opened },
            ),
            GoalView::State => self.at(StageView::Done(Ok(OutcomeView::State(state)))),
            GoalView::Record(_) => self.validate_from(state, 0, Seq::empty()),
            GoalView::Undo => if state.cursor == 0 {
                self.failed(history::HistoryErrorView::NothingToUndo)
            } else {
                self.at(
                    StageView::LoadTurn {
                        kind: PendingKind::Undo,
                        id: state.cursor,
                        target: HistoryState {
                            cursor: (state.cursor - 1) as u64,
                            tip: state.tip,
                        },
                        primary: None,
                    },
                )
            },
            GoalView::Redo => if state.cursor >= state.tip {
                self.failed(history::HistoryErrorView::NothingToRedo)
            } else {
                self.at(
                    StageView::LoadTurn {
                        kind: PendingKind::Redo,
                        id: (state.cursor + 1) as u64,
                        target: HistoryState {
                            cursor: (state.cursor + 1) as u64,
                            tip: state.tip,
                        },
                        primary: None,
                    },
                )
            },
        }
    }

    /// Goes on with the paths of the mutations from `i` on; `plain` holds those before.
    #[verifier::opaque]
    pub open spec fn validate_from(
        self,
        state: HistoryState,
        i: int,
        plain: Seq<Seq<char>>,
    ) -> OperationView {
        if i >= self.mutations().len() {
            self.capture_from(state, 0, plain, Seq::empty())
        } else {
            match paths::normalized(self.mutations()[i].path) {
                None => self.failed(
                    history::HistoryErrorView::InvalidPath(self.mutations()[i].shown),
                ),
                Some(p) => if plain.contains(p) {
                    self.failed(history::HistoryErrorView::InvalidPath(p))
                } else {
                    self.at(StageView::Validate { state, index: i, plain: plain.push(p) })
                },
            }
        }
    }

    /// Goes on with the capture of the files from `i` on; `files` holds the changes before.
    #[verifier::opaque]
    pub open spec fn capture_from(
        self,
        state: HistoryState,
        i: int,
        plain: Seq<Seq<char>>,
        files: Seq<history::FileChangeView>,
    ) -> OperationView {
        if i >= plain.len() {
            self.check_from(commit_of(state, files), 0, Seq::empty())
        } else {
            self.at(
                StageView::Capture { state, index: i, plain, files, part: CapturePartView::Nodes },
            )
        }
    }

    /// The present contents of file `i` are captured.
    #[verifier::opaque]
    pub open spec fn captured(
        self,
        state: HistoryState,
        i: int,
        plain: Seq<Seq<char>>,
        files: Seq<history::FileChangeView>,
        before: history::SnapshotView,
    ) -> OperationView {
        match self.mutations()[i].contents {
            Some(_) => self.at(
                StageView::Capture {
                    state,
                    index: i,
                    plain,
                    files,
                    part: CapturePartView::StoreId { before },
                },
            ),
            None => self.capture_from(
                state,
                i + 1,
                plain,
                files.push(
                    history::FileChangeView {
                        path: plain[i],
                        before,
                        after: history::SnapshotView::Missing,
                    },
                ),
            ),
        }
    }

    /// Fails once the given blobs are discarded.
    pub open spec fn cleaning_up(
        self,
        e: history::HistoryErrorView,
        blobs: Seq<Seq<char>>,
    ) -> OperationView {
        self.at(StageView::CleanUp { error: e, blobs })
    }
}

impl OperationView {
    #[verifier::opaque]
    pub open spec fn on_recover(
        self,
        p: history::PendingView,
        i: int,
        tally: TallyView,
        expected: Option<bool>,
        part: Part,
        reply: ReplyView,
    ) -> OperationView {
        let change = p.change_set.files[i];
        let side = if expected is None {
            SnapshotSide::Expected
        } else {
            SnapshotSide::Desired
        };
        match probed(change.path, p.side(change, side), part, reply) {
            Err(e) => self.failed(e),
            Ok(None) => self.at(
                StageView::Recover { pending: p, index: i, tally, expected, part: Part::Bytes },
            ),
            Ok(Some(same)) => match expected {
                None => self.at(
                    StageView::Recover {
                        pending: p,
                        index: i,
                        tally,
                        expected: Some(same),
                        part: Part::Nodes,
                    },
                ),
                Some(e) => self.recover_from(p, i + 1, tally.counted(change.path, e, same)),
            },
        }
    }

    #[verifier::opaque]
    pub open spec fn on_check(
        self,
        p: history::PendingView,
        i: int,
        conflicts: Seq<Seq<char>>,
        part: Part,
        reply: ReplyView,
    ) -> OperationView {
        let change = p.change_set.files[i];
        match probed(change.path, p.side(change, SnapshotSide::Expected), part, reply) {
            Err(e) => self.failed(e),
            Ok(None) => self.at(
                StageView::Check { pending: p, index: i, conflicts, part: Part::Bytes },
            ),
            Ok(Some(same)) => self.check_from(
                p,
                i + 1,
                if same {
                    conflicts
                } else {
                    conflicts.push(change.path)
                },
            ),
        }
    }

    #[verifier::opaque]
    pub open spec fn on_confirm(
        self,
        p: history::PendingView,
        i: int,
        conflicts: Seq<Seq<char>>,
        part: Part,
        reply: ReplyView,
    ) -> OperationView {
        let change = p.change_set.files[i];
        match probed(change.path, p.side(change, SnapshotSide::Desired), part, reply) {
            Err(e) => self.failed(e),
            Ok(None) => self.at(
                StageView::Confirm { pending: p, index: i, conflicts, part: Part::Bytes },
            ),
            Ok(Some(same)) => self.confirm_from(
                p,
                i + 1,
                if same {
                    conflicts
                } else {
                    conflicts.push(change.path)
                },
            ),
        }
    }

    #[verifier::opaque]
    pub open spec fn on_apply(
        self,
        p: history::PendingView,
        i: int,
        part: ApplyPart,
        reply: ReplyView,
    ) -> OperationView {
        let change = p.change_set.files[i];
        let expected = p.side(change, SnapshotSide::Expected);
        let desired = p.side(change, SnapshotSide::Desired);
        match part {
            ApplyPart::Desired(q) => match probed(change.path, desired, q, reply) {
                Err(e) => self.failed(e),
                Ok(None) => self.at(
                    StageView::Apply {
                        pending: p,
                        index: i,
                        part: ApplyPart::Desired(Part::Bytes),
                    },
                ),
                Ok(Some(true)) => self.apply_from(p, i + 1),
                Ok(Some(false)) => self.at(
                    StageView::Apply {
                        pending: p,
                        index: i,
                        part: ApplyPart::Expected(Part::Nodes),
                    },
                ),
            },
            ApplyPart::Expected(q) => match probed(change.path, expected, q, reply) {
                Err(e) => self.failed(e),
                Ok(None) => self.at(
                    StageView::Apply {
                        pending: p,
                        index: i,
                        part: ApplyPart::Expected(Part::Bytes),
                    },
                ),
                Ok(Some(true)) => self.at(
                    StageView::Apply { pending: p, index: i, part: ApplyPart::Write },
                ),
                Ok(Some(false)) => self.failed(
                    history::HistoryErrorView::Conflict(seq![change.path]),
                ),
            },
            ApplyPart::Write => match reply {
                ReplyView::Done(Err(e)) if !(desired is Missing && e.kind
                    == IoErrorKind::NotFound) => self.failed(history::HistoryErrorView::Io(e)),
                ReplyView::Done(_) => self.at(
                    StageView::Apply { pending: p, index: i, part: ApplyPart::Verify(Part::Nodes) },
                ),
                _ => self.unexpected(),
            },
            ApplyPart::Verify(q) => match probed(change.path, desired, q, reply) {
                Err(e) => self.failed(e),
                Ok(None) => self.at(
                    StageView::Apply { pending: p, index: i, part: ApplyPart::Verify(Part::Bytes) },
                ),
                Ok(Some(true)) => self.apply_from(p, i + 1),
                Ok(Some(false)) => self.failed(verification_failure()),
            },
        }
    }

    #[verifier::opaque]
    pub open spec fn on_capture(
        self,
        store: history::StoreView,
        state: HistoryState,
        i: int,
        plain: Seq<Seq<char>>,
        files: Seq<history::FileChangeView>,
        part: CapturePartView,
        reply: ReplyView,
    ) -> OperationView {
        match part {
            CapturePartView::Nodes => match looked_at(self.mutations()[i].path, reply) {
                Err(e) => self.failed(e),
                Ok(None) => self.captured(
                    state,
                    i,
                    plain,
                    files,
                    history::SnapshotView::Missing,
                ),
                Ok(Some(Node::File { len })) => self.at(
                    StageView::Capture {
                        state,
                        index: i,
                        plain,
                        files,
                        part: CapturePartView::CopyId { len },
                    },
                ),
                Ok(Some(_)) => self.cleaning_up(
                    history::HistoryErrorView::InvalidPath(store.work_path(plain[i])),
                    history::files_blobs(files),
                ),
            },
            CapturePartView::CopyId { len } => match reply {
                ReplyView::BlobId(id) => self.at(
                    StageView::Capture {
                        state,
                        index: i,
                        plain,
                        files,
                        part: CapturePartView::Copy { len, id },
                    },
                ),
                _ => self.unexpected(),
            },
            CapturePartView::Copy { len, id } => match reply {
                ReplyView::Done(Ok(_)) => self.captured(
                    state,
                    i,
                    plain,
                    files,
                    history::SnapshotView::Blob { id, len },
                ),
                ReplyView::Done(Err(e)) => self.cleaning_up(
                    history::HistoryErrorView::Io(e),
                    history::files_blobs(files),
                ),
                _ => self.unexpected(),
            },
            CapturePartView::StoreId { before } => match reply {
                ReplyView::BlobId(id) => self.at(
                    StageView::Capture {
                        state,
                        index: i,
                        plain,
                        files,
                        part: CapturePartView::Store { before, id },
                    },
                ),
                _ => self.unexpected(),
            },
            CapturePartView::Store { before, id } => match reply {
                ReplyView::Done(Ok(_)) => self.capture_from(
                    state,
                    i + 1,
                    plain,
                    files.push(
                        history::FileChangeView {
                            path: plain[i],
                            before,
                            after: history::SnapshotView::Blob {
                                id,
                                len: self.mutations()[i].contents->0.len() as u64,
                            },
                        },
                    ),
                ),
                ReplyView::Done(Err(e)) => self.cleaning_up(
                    history::HistoryErrorView::Io(e),
                    history::snapshot_blobs(before) + history::files_blobs(files),
                ),
                _ => self.unexpected(),
            },
        }
    }

    #[verifier::opaque]
    pub open spec fn on_directories(
        self,
        reply: ReplyView,
    ) -> OperationView {
        match reply {
            ReplyView::Done(Ok(_)) => self.at(StageView::ReadPending),
            ReplyView::Done(Err(e)) => self.failed(history::HistoryErrorView::Io(e)),
            _ => self.unexpected(),
        }
    }

    #[verifier::opaque]
    pub open spec fn on_read_pending(
        self,
        reply: ReplyView,
    ) -> OperationView {
        match reply {
            ReplyView::Pending(Ok(p)) => self.recover_from(p, 0, TallyView::start()),
            ReplyView::Pending(Err(e)) => if e.kind == IoErrorKind::NotFound {
                self.recovered()
            } else {
                self.failed(history::HistoryErrorView::Io(e))
            },
            _ => self.unexpected(),
        }
    }

    #[verifier::opaque]
    pub open spec fn on_drop_pending(
        self,
        reply: ReplyView,
    ) -> OperationView {
        match reply {
            ReplyView::Done(Err(e)) if e.kind != IoErrorKind::NotFound => self.failed(
                history::HistoryErrorView::Io(e),
            ),
            ReplyView::Done(_) => self.recovered(),
            _ => self.unexpected(),
        }
    }

    #[verifier::opaque]
    pub open spec fn on_save_pending(
        self,
        pending: history::PendingView,
        reply: ReplyView,
    ) -> OperationView {
        match reply {
            ReplyView::Done(Ok(_)) => self.apply_from(pending, 0),
            ReplyView::Done(Err(e)) => self.failed(history::HistoryErrorView::Io(e)),
            _ => self.unexpected(),
        }
    }

    #[verifier::opaque]
    pub open spec fn on_read_replaced(
        self,
        pending: history::PendingView,
        reply: ReplyView,
    ) -> OperationView {
        match reply {
            ReplyView::Turn(Ok(c)) => self.at(
                StageView::SaveTurn { pending, replaced: Some(c) },
            ),
            ReplyView::Turn(Err(_)) => self.at(
                StageView::SaveTurn { pending, replaced: None },
            ),
            _ => self.unexpected(),
        }
    }

    #[verifier::opaque]
    pub open spec fn on_save_turn(
        self,
        pending: history::PendingView,
        replaced: Option<history::ChangeSetView>,
        reply: ReplyView,
    ) -> OperationView {
        match reply {
            ReplyView::Done(Ok(_)) => self.at(StageView::SaveState { pending, replaced }),
            ReplyView::Done(Err(e)) => self.failed(history::HistoryErrorView::Io(e)),
            _ => self.unexpected(),
        }
    }

    #[verifier::opaque]
    pub open spec fn on_save_state(
        self,
        pending: history::PendingView,
        replaced: Option<history::ChangeSetView>,
        reply: ReplyView,
    ) -> OperationView {
        match reply {
            ReplyView::Done(Ok(_)) => self.at(StageView::ClearPending { pending, replaced }),
            ReplyView::Done(Err(e)) => self.failed(history::HistoryErrorView::Io(e)),
            _ => self.unexpected(),
        }
    }

    #[verifier::opaque]
    pub open spec fn on_clear_pending(
        self,
        pending: history::PendingView,
        replaced: Option<history::ChangeSetView>,
        reply: ReplyView,
    ) -> OperationView {
        match reply {
            ReplyView::Done(Err(e)) if e.kind != IoErrorKind::NotFound => self.failed(
                history::HistoryErrorView::Io(e),
            ),
            ReplyView::Done(_) => self.cleared(pending, replaced),
            _ => self.unexpected(),
        }
    }

    #[verifier::opaque]
    pub open spec fn on_list_turns(
        self,
        tip: u64,
        after: AfterView,
        reply: ReplyView,
    ) -> OperationView {
        match reply {
            ReplyView::Turns(Ok(entries)) => self.prune_from(tip, entries, 0, after),
            ReplyView::Turns(Err(e)) => if e.kind == IoErrorKind::NotFound {
                self.pruned(after)
            } else {
                self.failed(history::HistoryErrorView::Io(e))
            },
            _ => self.unexpected(),
        }
    }

    #[verifier::opaque]
    pub open spec fn on_prune_read(
        self,
        tip: u64,
        entries: Seq<EntryResultView>,
        index: int,
        after: AfterView,
        reply: ReplyView,
    ) -> OperationView {
        match reply {
            ReplyView::Turn(Ok(outdated)) => self.at(
                StageView::PruneBlobs { tip, entries, index, after, outdated },
            ),
            ReplyView::Turn(Err(_)) => self.at(
                StageView::PruneRemove { tip, entries, index, after },
            ),
            _ => self.unexpected(),
        }
    }

    #[verifier::opaque]
    pub open spec fn on_prune_remove(
        self,
        tip: u64,
        entries: Seq<EntryResultView>,
        index: int,
        after: AfterView,
        reply: ReplyView,
    ) -> OperationView {
        match reply {
            ReplyView::Done(Err(e)) if e.kind != IoErrorKind::NotFound => self.failed(
                history::HistoryErrorView::Io(e),
            ),
            ReplyView::Done(_) => self.prune_from(tip, entries, index + 1, after),
            _ => self.unexpected(),
        }
    }

    #[verifier::opaque]
    pub open spec fn on_load_state(
        self,
        primary: Option<io::IoErrorView>,
        reply: ReplyView,
    ) -> OperationView {
        match reply {
            ReplyView::State(Ok(state)) => self.loaded(state),
            ReplyView::State(Err(e)) => match primary {
                None => self.at(StageView::LoadState { primary: Some(e) }),
                Some(first) => if first.kind == IoErrorKind::NotFound {
                    self.loaded(HistoryState { cursor: 0, tip: 0 })
                } else {
                    self.failed(history::HistoryErrorView::Io(first))
                },
            },
            _ => self.unexpected(),
        }
    }

    #[verifier::opaque]
    pub open spec fn on_validate(
        self,
        state: HistoryState,
        index: int,
        plain: Seq<Seq<char>>,
        reply: ReplyView,
    ) -> OperationView {
        match looked_at(
            self.mutations()[index].path,
            reply,
        ) {
            Err(e) => self.failed(e),
            Ok(_) => self.validate_from(state, index + 1, plain),
        }
    }

    #[verifier::opaque]
    pub open spec fn on_load_turn(
        self,
        kind: PendingKind,
        id: u64,
        target: HistoryState,
        primary: Option<io::IoErrorView>,
        reply: ReplyView,
    ) -> OperationView {
        match reply {
            ReplyView::Turn(Ok(c)) => self.check_from(
                replay(kind, c, target),
                0,
                Seq::empty(),
            ),
            ReplyView::Turn(Err(e)) => match primary {
                None => self.at(StageView::LoadTurn { kind, id, target, primary: Some(e) }),
                Some(first) => self.failed(history::HistoryErrorView::Io(first)),
            },
            _ => self.unexpected(),
        }
    }

    /// The operation after a reply.
    pub open spec fn next(self, store: history::StoreView, reply: ReplyView) -> OperationView {
        match self.stage {
            StageView::MakeDirectories => self.on_directories(reply),
            StageView::ReadPending => self.on_read_pending(reply),
            StageView::Recover { pending, index, tally, expected, part } => self.on_recover(
                pending,
                index,
                tally,
                expected,
                part,
                reply,
            ),
            StageView::DropBlobs { pending: _ } => self.at(StageView::DropPending),
            StageView::DropPending => self.on_drop_pending(reply),
            StageView::Check { pending, index, conflicts, part } => self.on_check(
                pending,
                index,
                conflicts,
                part,
                reply,
            ),
            StageView::SavePending { pending } => self.on_save_pending(pending, reply),
            StageView::Apply { pending, index, part } => self.on_apply(
                pending,
                index,
                part,
                reply,
            ),
            StageView::Confirm { pending, index, conflicts, part } => self.on_confirm(
                pending,
                index,
                conflicts,
                part,
                reply,
            ),
            StageView::ReadReplaced { pending } => self.on_read_replaced(pending, reply),
            StageView::SaveTurn { pending, replaced } => self.on_save_turn(
                pending,
                replaced,
                reply,
            ),
            StageView::SaveState { pending, replaced } => self.on_save_state(
                pending,
                replaced,
                reply,
            ),
            StageView::ClearPending { pending, replaced } => self.on_clear_pending(
                pending,
                replaced,
                reply,
            ),
            StageView::DropReplaced { pending, replaced: _ } => self.at(
                StageView::ListTurns { tip: pending.target.tip, after: AfterView::Finish(pending) },
            ),
            StageView::ListTurns { tip, after } => self.on_list_turns(tip, after, reply),
            StageView::PruneRead { tip, entries, index, after } => self.on_prune_read(
                tip,
                entries,
                index,
                after,
                reply,
            ),
            StageView::PruneBlobs { tip, entries, index, after, outdated: _ } => self.at(
                StageView::PruneRemove { tip, entries, index, after },
            ),
            StageView::PruneRemove { tip, entries, index, after } => self.on_prune_remove(
                tip,
                entries,
                index,
                after,
                reply,
            ),
            StageView::LoadState { primary } => self.on_load_state(primary, reply),
            StageView::Validate { state, index, plain } => self.on_validate(
                state,
                index,
                plain,
                reply,
            ),
            StageView::Capture { state, index, plain, files, part } => self.on_capture(
                store,
                state,
                index,
                plain,
                files,
                part,
                reply,
            ),
            StageView::CleanUp { error, blobs: _ } => self.failed(error),
            StageView::LoadTurn { kind, id, target, primary } => self.on_load_turn(
                kind,
                id,
                target,
                primary,
                reply,
            ),
            StageView::Done(_) => self,
        }
    }

    /// What the operation wants done next; nothing once it has come to its end.
    pub open spec fn request(self) -> Option<RequestView> {
        match self.stage {
            StageView::MakeDirectories => Some(RequestView::MakeDirectories),
            StageView::ReadPending => Some(RequestView::ReadPending),
            StageView::Recover { pending, index, tally: _, expected, part } => {
                let change = pending.change_set.files[index];
                let side = if expected is None {
                    SnapshotSide::Expected
                } else {
                    SnapshotSide::Desired
                };
                Some(probe_request(change.path, pending.side(change, side), part))
            },
            StageView::DropBlobs { pending } => Some(
                RequestView::Discard { blobs: history::files_blobs(pending.change_set.files) },
            ),
            StageView::DropPending => Some(RequestView::RemovePending),
            StageView::Check { pending, index, conflicts: _, part } => {
                let change = pending.change_set.files[index];
                Some(
                    probe_request(
                        change.path,
                        pending.side(change, SnapshotSide::Expected),
                        part,
                    ),
                )
            },
            StageView::SavePending { pending } => Some(RequestView::WritePending(pending)),
            StageView::Apply { pending, index, part } => {
                let change = pending.change_set.files[index];
                let expected = pending.side(change, SnapshotSide::Expected);
                let desired = pending.side(change, SnapshotSide::Desired);
                match part {
                    ApplyPart::Desired(q) => Some(probe_request(change.path, desired, q)),
                    ApplyPart::Expected(q) => Some(probe_request(change.path, expected, q)),
                    ApplyPart::Write => match desired {
                        history::SnapshotView::Missing => Some(
                            RequestView::RemoveWork { path: plain_path(change.path) },
                        ),
                        history::SnapshotView::Blob { id, .. } => Some(
                            RequestView::Install { blob: id, path: plain_path(change.path) },
                        ),
                    },
                    ApplyPart::Verify(q) => Some(probe_request(change.path, desired, q)),
                }
            },
            StageView::Confirm { pending, index, conflicts: _, part } => {
                let change = pending.change_set.files[index];
                Some(
                    probe_request(change.path, pending.side(change, SnapshotSide::Desired), part),
                )
            },
            StageView::ReadReplaced { pending } => Some(
                RequestView::ReadTurn { id: pending.change_set.id, backup: false },
            ),
            StageView::SaveTurn { pending, replaced: _ } => Some(
                RequestView::WriteTurn(pending.change_set),
            ),
            StageView::SaveState { pending, replaced: _ } => Some(
                RequestView::WriteState(pending.target),
            ),
            StageView::ClearPending { pending: _, replaced: _ } => Some(
                RequestView::RemovePending,
            ),
            StageView::DropReplaced { pending: _, replaced } => Some(
                RequestView::Discard { blobs: history::files_blobs(replaced.files) },
            ),
            StageView::ListTurns { .. } => Some(RequestView::ListTurns),
            StageView::PruneRead { tip: _, entries, index, after: _ } => Some(
                RequestView::ReadTurnFile { name: entries[index]->Ok_0.name },
            ),
            StageView::PruneBlobs { tip: _, entries: _, index: _, after: _, outdated } => Some(
                RequestView::Discard { blobs: history::files_blobs(outdated.files) },
            ),
            StageView::PruneRemove { tip: _, entries, index, after: _ } => Some(
                RequestView::RemoveTurnFile { name: entries[index]->Ok_0.name },
            ),
            StageView::LoadState { primary } => Some(
                RequestView::ReadState { backup: primary is Some },
            ),
            StageView::Validate { state: _, index, plain: _ } => Some(
                stat_request(self.mutations()[index].path),
            ),
            StageView::Capture { state: _, index, plain, files: _, part } => match part {
                CapturePartView::Nodes => Some(stat_request(self.mutations()[index].path)),
                CapturePartView::CopyId { .. } => Some(RequestView::NewBlobId),
                CapturePartView::Copy { len: _, id } => Some(
                    RequestView::CopyToBlob { path: plain[index], blob: id },
                ),
                CapturePartView::StoreId { .. } => Some(RequestView::NewBlobId),
                CapturePartView::Store { before: _, id } => Some(
                    RequestView::StoreBlob {
                        blob: id,
                        bytes: self.mutations()[index].contents->0,
                    },
                ),
            },
            StageView::CleanUp { error: _, blobs } => Some(RequestView::Discard { blobs }),
            StageView::LoadTurn { kind: _, id, target: _, primary } => Some(
                RequestView::ReadTurn { id, backup: primary is Some },
            ),
            StageView::Done(_) => None,
        }
    }

    /// That the indices of the stage lie in their lists.
    pub open spec fn wf(self) -> bool {
        match self.stage {
            StageView::Recover { pending, index, .. } => 0 <= index
                < pending.change_set.files.len(),
            StageView::Check { pending, index, .. } => 0 <= index < pending.change_set.files.len(),
            StageView::Apply { pending, index, .. } => 0 <= index < pending.change_set.files.len(),
            StageView::Confirm { pending, index, .. } => 0 <= index
                < pending.change_set.files.len(),
            StageView::PruneRead { tip: _, entries, index, after: _ } => 0 <= index
                < entries.len() && entries[index] is Ok,
            StageView::PruneBlobs { tip: _, entries, index, after: _, outdated: _ } => 0 <= index
                < entries.len() && entries[index] is Ok,
            StageView::PruneRemove { tip: _, entries, index, after: _ } => 0 <= index
                < entries.len() && entries[index] is Ok,
            StageView::Validate { state: _, index, plain } => 0 <= index
                < self.mutations().len() && plain.len() == index + 1,
            StageView::Capture { state: _, index, plain, files, part } => {
                &&& 0 <= index < self.mutations().len()
                &&& plain.len() == self.mutations().len()
                &&& part is StoreId || part is Store ==> self.mutations()[index].contents is Some
            },
            _ => true,
        }
    }
}

} // verus!
