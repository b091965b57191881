//! The operations on the store of sessions, as a state machine: what an operation wants done to
//! the disk, what may come of it, and how the operation goes on from there.

use vstd::prelude::*;
use vstd::string::*;

use crate::io;
use crate::io::{IoError, IoErrorKind};
use crate::paths;
use crate::replacement;
use crate::replacement::{Replacement, Rules};
use crate::session;
use crate::session::{
    Environment, LoadedSession, MessageRole, Platform, SessionList, SessionMetadata, SessionRecord,
};
use crate::text;

verus! {

// ---------------------------------------------------------------------------------------------
// Places

/// The directory of sessions, by its path.
#[derive(Debug, Clone, PartialEq, Eq)]
pub struct SessionStore {
    root: String,
}

impl View for SessionStore {
    type V = Seq<char>;

    closed spec fn view(&self) -> Seq<char> {
        self.root@
    }
}

pub open spec fn metadata_place(dir: Seq<char>) -> Seq<char> {
    paths::below(dir, "meta.json"@)
}

pub open spec fn metadata_backup_place(dir: Seq<char>) -> Seq<char> {
    paths::below(dir, "meta.bak"@)
}

pub open spec fn records_place(dir: Seq<char>) -> Seq<char> {
    paths::below(dir, "records.jsonl"@)
}

/// Begins to replace the metadata of the session in a directory, whose path slashes part on every
/// platform. The name that the path ends with
/// is looked at once the directory is there; the temporary file stays where it could not be
/// filled.
pub fn atomic_write(dir: &str, pid: u32, counter: u64) -> (r: Result<Replacement, IoError>)
    ensures
        replacement::outcome_view(r) == replacement::beginning(
            Platform::Unix,
            metadata_place(dir@),
            metadata_backup_place(dir@),
            paths::last_name(metadata_place(dir@)) is Some,
            (Rules { replaces: true, keeps_backup: false, tidies: false }),
            pid,
            counter,
        ),
{
    let path = paths::join(dir, "meta.json");
    let named: bool = paths::file_name(path.as_str()).is_some();
    let rules = Rules { replaces: true, keeps_backup: false, tidies: false };
    let backup = paths::join(dir, "meta.bak");
    Replacement::start(Platform::Unix, path.as_str(), backup, named, rules, pid, counter)
}

// ---------------------------------------------------------------------------------------------
// Requests and replies

/// An entry of the directory of sessions.
#[derive(Debug, Clone, PartialEq, Eq)]
pub struct DirectoryEntry {
    pub name: String,
    pub is_dir: bool,
}

#[verifier::ext_equal]
pub struct DirectoryEntryView {
    pub name: Seq<char>,
    pub is_dir: bool,
}

impl View for DirectoryEntry {
    type V = DirectoryEntryView;

    open spec fn view(&self) -> DirectoryEntryView {
        DirectoryEntryView { name: self.name@, is_dir: self.is_dir }
    }
}

pub type DirectoryEntryResult = Result<DirectoryEntryView, io::IoErrorView>;

pub open spec fn entry_view(entry: Result<DirectoryEntry, IoError>) -> DirectoryEntryResult {
    match entry {
        Ok(entry) => Ok(entry@),
        Err(e) => Err(e@),
    }
}

pub open spec fn entries_view(list: Seq<Result<DirectoryEntry, IoError>>) -> Seq<
    DirectoryEntryResult,
> {
    list.map_values(|e: Result<DirectoryEntry, IoError>| entry_view(e))
}

/// What an operation on the store wants done next.
#[derive(Debug, Clone, PartialEq, Eq)]
pub enum SessionRequest {
    /// Create a directory and those on the way to it. Replied to by `Done`.
    MakeDirectories { path: String },
    /// Make an identifier for a new session. Replied to by `SessionId`.
    NewSessionId,
    /// Create a directory that must not be there yet. Replied to by `Done`.
    MakeDirectory { path: String },
    /// Say what time it is. Replied to by `Millis`.
    Clock,
    /// Replace the metadata in a session's directory. Replied to by `Done`.
    WriteMetadata { dir: String, metadata: SessionMetadata },
    /// Remove a directory and all in it. Replied to by `Done`.
    RemoveAll { path: String },
    /// List a directory. Replied to by `Entries`.
    ListDirectory { path: String },
    /// Read the metadata in a file. Replied to by `Metadata`.
    ReadMetadata { path: String },
    /// Read a file as text. Replied to by `Contents`.
    ReadRecords { path: String },
    /// Read a record from its text. Replied to by `Record`.
    ParseRecord { text: String },
    /// Say whether a path leads to a directory. Replied to by `IsDirectory`.
    IsDirectory { path: String },
    /// Write a record at the end of a file, which is created where it is missing. Replied to by
    /// `Done`.
    AppendRecord { path: String, record: SessionRecord },
}

pub enum SessionRequestView {
    MakeDirectories { path: Seq<char> },
    NewSessionId,
    MakeDirectory { path: Seq<char> },
    Clock,
    WriteMetadata { dir: Seq<char>, metadata: session::MetadataView },
    RemoveAll { path: Seq<char> },
    ListDirectory { path: Seq<char> },
    ReadMetadata { path: Seq<char> },
    ReadRecords { path: Seq<char> },
    ParseRecord { text: Seq<char> },
    IsDirectory { path: Seq<char> },
    AppendRecord { path: Seq<char>, record: session::RecordView },
}

impl View for SessionRequest {
    type V = SessionRequestView;

    open spec fn view(&self) -> SessionRequestView {
        match *self {
            SessionRequest::MakeDirectories { path } => SessionRequestView::MakeDirectories {
                path: path@,
            },
            SessionRequest::NewSessionId => SessionRequestView::NewSessionId,
            SessionRequest::MakeDirectory { path } => SessionRequestView::MakeDirectory {
                path: path@,
            },
            SessionRequest::Clock => SessionRequestView::Clock,
            SessionRequest::WriteMetadata { dir, metadata } => SessionRequestView::WriteMetadata {
                dir: dir@,
                metadata: metadata@,
            },
            SessionRequest::RemoveAll { path } => SessionRequestView::RemoveAll { path: path@ },
            SessionRequest::ListDirectory { path } => SessionRequestView::ListDirectory {
                path: path@,
            },
            SessionRequest::ReadMetadata { path } => SessionRequestView::ReadMetadata {
                path: path@,
            },
            SessionRequest::ReadRecords { path } => SessionRequestView::ReadRecords {
                path: path@,
            },
            SessionRequest::ParseRecord { text } => SessionRequestView::ParseRecord {
                text: text@,
            },
            SessionRequest::IsDirectory { path } => SessionRequestView::IsDirectory {
                path: path@,
            },
            SessionRequest::AppendRecord { path, record } => SessionRequestView::AppendRecord {
                path: path@,
                record: record@,
            },
        }
    }
}

/// What came of a request.
#[derive(Debug)]
pub enum SessionReply {
    Done(Result<(), IoError>),
    SessionId(String),
    Millis(u64),
    Entries(Result<Vec<Result<DirectoryEntry, IoError>>, IoError>),
    Metadata(Result<SessionMetadata, IoError>),
    Contents(Result<String, IoError>),
    Record(Option<SessionRecord>),
    IsDirectory(bool),
}

pub enum SessionReplyView {
    Done(Result<(), io::IoErrorView>),
    SessionId(Seq<char>),
    Millis(u64),
    Entries(Result<Seq<DirectoryEntryResult>, io::IoErrorView>),
    Metadata(Result<session::MetadataView, io::IoErrorView>),
    Contents(Result<Seq<char>, io::IoErrorView>),
    Record(Option<session::RecordView>),
    IsDirectory(bool),
}

impl View for SessionReply {
    type V = SessionReplyView;

    open spec fn view(&self) -> SessionReplyView {
        match *self {
            SessionReply::Done(r) => SessionReplyView::Done(io::result_view(r)),
            SessionReply::SessionId(id) => SessionReplyView::SessionId(id@),
            SessionReply::Millis(n) => SessionReplyView::Millis(n),
            SessionReply::Entries(r) => SessionReplyView::Entries(
                match r {
                    Ok(list) => Ok(entries_view(list@)),
                    Err(e) => Err(e@),
                },
            ),
            SessionReply::Metadata(r) => SessionReplyView::Metadata(
                match r {
                    Ok(m) => Ok(m@),
                    Err(e) => Err(e@),
                },
            ),
            SessionReply::Contents(r) => SessionReplyView::Contents(session::text_result(r)),
            SessionReply::Record(r) => SessionReplyView::Record(
                match r {
                    Some(record) => Some(record@),
                    None => None,
                },
            ),
            SessionReply::IsDirectory(b) => SessionReplyView::IsDirectory(b),
        }
    }
}

// ---------------------------------------------------------------------------------------------
// The state of an operation

/// How an operation on the store ends well.
#[derive(Debug, Clone, PartialEq, Eq)]
pub enum SessionOutcome {
    Created(SessionMetadata),
    Listed(SessionList),
    Loaded(LoadedSession),
    Finished,
}

pub enum SessionOutcomeView {
    Created(session::MetadataView),
    Listed(session::ListView),
    Loaded(session::LoadedView),
    Finished,
}

impl View for SessionOutcome {
    type V = SessionOutcomeView;

    open spec fn view(&self) -> SessionOutcomeView {
        match *self {
            SessionOutcome::Created(m) => SessionOutcomeView::Created(m@),
            SessionOutcome::Listed(l) => SessionOutcomeView::Listed(l@),
            SessionOutcome::Loaded(l) => SessionOutcomeView::Loaded(l@),
            SessionOutcome::Finished => SessionOutcomeView::Finished,
        }
    }
}

/// Where an operation on the store stands.
#[derive(Debug)]
pub enum SessionStage {
    MakeRoot { workspace: String },
    NewId { workspace: String },
    MakeDirectory { workspace: String, id: String },
    Clock { workspace: String, id: String },
    SaveNew { metadata: SessionMetadata },
    Discard { id: String, error: IoError },
    List,
    /// Reading the metadata of entry `index`, or its backup after the error `primary`.
    Read {
        entries: Vec<Result<DirectoryEntry, IoError>>,
        index: usize,
        found: Vec<SessionMetadata>,
        skipped: usize,
        backup: bool,
    },
    LoadMetadata { id: String, primary: Option<IoError> },
    LoadRecords { id: String, metadata: SessionMetadata },
    /// Reading the record with text `index`.
    Parse {
        metadata: SessionMetadata,
        texts: Vec<String>,
        index: usize,
        records: Vec<SessionRecord>,
        corrupted: usize,
    },
    LookForAppend { id: String, record: SessionRecord },
    Append { id: String, record: SessionRecord },
    LookForSave { metadata: SessionMetadata },
    Save { metadata: SessionMetadata },
    Remove { id: String },
    Done(Result<SessionOutcome, IoError>),
}

pub enum SessionStageView {
    MakeRoot { workspace: Seq<char> },
    NewId { workspace: Seq<char> },
    MakeDirectory { workspace: Seq<char>, id: Seq<char> },
    Clock { workspace: Seq<char>, id: Seq<char> },
    SaveNew { metadata: session::MetadataView },
    Discard { id: Seq<char>, error: io::IoErrorView },
    List,
    Read {
        entries: Seq<DirectoryEntryResult>,
        index: int,
        found: Seq<session::MetadataView>,
        skipped: usize,
        backup: bool,
    },
    LoadMetadata { id: Seq<char>, primary: Option<io::IoErrorView> },
    LoadRecords { id: Seq<char>, metadata: session::MetadataView },
    Parse {
        metadata: session::MetadataView,
        texts: Seq<Seq<char>>,
        index: int,
        records: Seq<session::RecordView>,
        corrupted: usize,
    },
    LookForAppend { id: Seq<char>, record: session::RecordView },
    Append { id: Seq<char>, record: session::RecordView },
    LookForSave { metadata: session::MetadataView },
    Save { metadata: session::MetadataView },
    Remove { id: Seq<char> },
    Done(Result<SessionOutcomeView, io::IoErrorView>),
}

impl View for SessionStage {
    type V = SessionStageView;

    open spec fn view(&self) -> SessionStageView {
        match *self {
            SessionStage::MakeRoot { workspace } => SessionStageView::MakeRoot {
                workspace: workspace@,
            },
            SessionStage::NewId { workspace } => SessionStageView::NewId { workspace: workspace@ },
            SessionStage::MakeDirectory { workspace, id } => SessionStageView::MakeDirectory {
                workspace: workspace@,
                id: id@,
            },
            SessionStage::Clock { workspace, id } => SessionStageView::Clock {
                workspace: workspace@,
                id: id@,
            },
            SessionStage::SaveNew { metadata } => SessionStageView::SaveNew {
                metadata: metadata@,
            },
            SessionStage::Discard { id, error } => SessionStageView::Discard {
                id: id@,
                error: error@,
            },
            SessionStage::List => SessionStageView::List,
            SessionStage::Read { entries, index, found, skipped, backup } => SessionStageView::Read {
                entries: entries_view(entries@),
                index: index as int,
                found: session::sessions_view(found@),
                skipped,
                backup,
            },
            SessionStage::LoadMetadata { id, primary } => SessionStageView::LoadMetadata {
                id: id@,
                primary: match primary {
                    Some(e) => Some(e@),
                    None => None,
                },
            },
            SessionStage::LoadRecords { id, metadata } => SessionStageView::LoadRecords {
                id: id@,
                metadata: metadata@,
            },
            SessionStage::Parse { metadata, texts, index, records, corrupted } => {
                SessionStageView::Parse {
                    metadata: metadata@,
                    texts: text::texts(texts@),
                    index: index as int,
                    records: session::records_view(records@),
                    corrupted,
                }
            },
            SessionStage::LookForAppend { id, record } => SessionStageView::LookForAppend {
                id: id@,
                record: record@,
            },
            SessionStage::Append { id, record } => SessionStageView::Append {
                id: id@,
                record: record@,
            },
            SessionStage::LookForSave { metadata } => SessionStageView::LookForSave {
                metadata: metadata@,
            },
            SessionStage::Save { metadata } => SessionStageView::Save { metadata: metadata@ },
            SessionStage::Remove { id } => SessionStageView::Remove { id: id@ },
            SessionStage::Done(r) => SessionStageView::Done(
                match r {
                    Ok(o) => Ok(o@),
                    Err(e) => Err(e@),
                },
            ),
        }
    }
}

/// What a [`SessionOperation`] holds.
pub struct SessionOperationView {
    pub root: Seq<char>,
    pub stage: SessionStageView,
}

/// An operation on the store that is under way.
#[derive(Debug)]
pub struct SessionOperation {
    root: String,
    stage: SessionStage,
}

impl View for SessionOperation {
    type V = SessionOperationView;

    closed spec fn view(&self) -> SessionOperationView {
        SessionOperationView { root: self.root@, stage: self.stage@ }
    }
}

// ---------------------------------------------------------------------------------------------
// What an operation does with a reply

/// The metadata of a session that was just created.
pub open spec fn fresh_metadata(
    id: Seq<char>,
    workspace: Seq<char>,
    now: u64,
) -> session::MetadataView {
    session::MetadataView {
        id,
        title: "New session"@,
        created_at: now,
        updated_at: now,
        workspace,
        provider: None,
        account: None,
        model: None,
        history_cursor: 0,
    }
}

/// One more, up to the largest number.
pub open spec fn counted(n: usize) -> usize {
    if n == usize::MAX {
        n
    } else {
        (n + 1) as usize
    }
}

impl SessionOperationView {
    pub open spec fn at(self, stage: SessionStageView) -> SessionOperationView {
        SessionOperationView { stage, ..self }
    }

    pub open spec fn failed(self, e: io::IoErrorView) -> SessionOperationView {
        self.at(SessionStageView::Done(Err(e)))
    }

    pub open spec fn ended(self, outcome: SessionOutcomeView) -> SessionOperationView {
        self.at(SessionStageView::Done(Ok(outcome)))
    }

    pub open spec fn directory(self, id: Seq<char>) -> Seq<char> {
        paths::below(self.root, id)
    }

    /// Goes on to the next directory from entry `i` on; at the end the list is sorted.
    pub open spec fn read_from(
        self,
        entries: Seq<DirectoryEntryResult>,
        i: int,
        found: Seq<session::MetadataView>,
        skipped: usize,
    ) -> SessionOperationView
        decreases entries.len() - i,
    {
        if i >= entries.len() {
            self.ended(
                SessionOutcomeView::Listed(
                    session::ListView {
                        sessions: session::in_list_order(found),
                        skipped_corrupt: skipped,
                    },
                ),
            )
        } else {
            match entries[i] {
                Err(e) => self.failed(e),
                Ok(entry) => if entry.is_dir {
                    self.at(
                        SessionStageView::Read { entries, index: i, found, skipped, backup: false },
                    )
                } else {
                    self.read_from(entries, i + 1, found, skipped)
                },
            }
        }
    }

    /// Goes on with the record with text `i`.
    pub open spec fn parse_from(
        self,
        metadata: session::MetadataView,
        texts: Seq<Seq<char>>,
        i: int,
        records: Seq<session::RecordView>,
        corrupted: usize,
    ) -> SessionOperationView {
        if i >= texts.len() {
            self.ended(
                SessionOutcomeView::Loaded(
                    session::LoadedView { metadata, records, corrupted_records: corrupted },
                ),
            )
        } else {
            self.at(SessionStageView::Parse { metadata, texts, index: i, records, corrupted })
        }
    }

    /// The operation after a reply.
    pub open spec fn next(self, reply: SessionReplyView) -> SessionOperationView {
        match (self.stage, reply) {
            (SessionStageView::MakeRoot { workspace }, SessionReplyView::Done(r)) => match r {
                Ok(_) => self.at(SessionStageView::NewId { workspace }),
                Err(e) => self.failed(e),
            },
            (SessionStageView::NewId { workspace }, SessionReplyView::SessionId(id)) => self.at(
                SessionStageView::MakeDirectory { workspace, id },
            ),
            (
                SessionStageView::MakeDirectory { workspace, id },
                SessionReplyView::Done(r),
            ) => match r {
                Ok(_) => self.at(SessionStageView::Clock { workspace, id }),
                Err(e) => if e.kind == IoErrorKind::AlreadyExists {
                    self.at(SessionStageView::NewId { workspace })
                } else {
                    self.failed(e)
                },
            },
            (SessionStageView::Clock { workspace, id }, SessionReplyView::Millis(now)) => self.at(
                SessionStageView::SaveNew { metadata: fresh_metadata(id, workspace, now) },
            ),
            (SessionStageView::SaveNew { metadata }, SessionReplyView::Done(r)) => match r {
                Ok(_) => self.ended(SessionOutcomeView::Created(metadata)),
                Err(e) => self.at(SessionStageView::Discard { id: metadata.id, error: e }),
            },
            (SessionStageView::Discard { id: _, error }, _) => self.failed(error),
            (SessionStageView::List, SessionReplyView::Entries(r)) => match r {
                Ok(entries) => self.read_from(entries, 0, Seq::empty(), 0),
                Err(e) => if e.kind == IoErrorKind::NotFound {
                    self.ended(
                        SessionOutcomeView::Listed(
                            session::ListView { sessions: Seq::empty(), skipped_corrupt: 0 },
                        ),
                    )
                } else {
                    self.failed(e)
                },
            },
            (
                SessionStageView::Read { entries, index, found, skipped, backup },
                SessionReplyView::Metadata(r),
            ) => match r {
                Ok(m) => self.read_from(entries, index + 1, found.push(m), skipped),
                Err(_) => if backup {
                    self.read_from(entries, index + 1, found, counted(skipped))
                } else {
                    self.at(
                        SessionStageView::Read { entries, index, found, skipped, backup: true },
                    )
                },
            },
            (
                SessionStageView::LoadMetadata { id, primary },
                SessionReplyView::Metadata(r),
            ) => match r {
                Ok(metadata) => self.at(SessionStageView::LoadRecords { id, metadata }),
                Err(e) => match primary {
                    None => self.at(SessionStageView::LoadMetadata { id, primary: Some(e) }),
                    Some(first) => self.failed(first),
                },
            },
            (
                SessionStageView::LoadRecords { id: _, metadata },
                SessionReplyView::Contents(r),
            ) => match r {
                Ok(contents) => self.parse_from(
                    metadata,
                    session::record_texts(contents),
                    0,
                    Seq::empty(),
                    0,
                ),
                Err(e) => if e.kind == IoErrorKind::NotFound {
                    self.parse_from(metadata, Seq::empty(), 0, Seq::empty(), 0)
                } else {
                    self.failed(e)
                },
            },
            (
                SessionStageView::Parse { metadata, texts, index, records, corrupted },
                SessionReplyView::Record(r),
            ) => match r {
                Some(record) => self.parse_from(
                    metadata,
                    texts,
                    index + 1,
                    records.push(record),
                    corrupted,
                ),
                None => self.parse_from(metadata, texts, index + 1, records, counted(corrupted)),
            },
            (
                SessionStageView::LookForAppend { id, record },
                SessionReplyView::IsDirectory(there),
            ) => if there {
                self.at(SessionStageView::Append { id, record })
            } else {
                self.failed(session::no_session_error())
            },
            (SessionStageView::Append { .. }, SessionReplyView::Done(r)) => match r {
                Ok(_) => self.ended(SessionOutcomeView::Finished),
                Err(e) => self.failed(e),
            },
            (
                SessionStageView::LookForSave { metadata },
                SessionReplyView::IsDirectory(there),
            ) => if there {
                self.at(SessionStageView::Save { metadata })
            } else {
                self.failed(session::no_session_error())
            },
            (SessionStageView::Save { .. }, SessionReplyView::Done(r)) => match r {
                Ok(_) => self.ended(SessionOutcomeView::Finished),
                Err(e) => self.failed(e),
            },
            (SessionStageView::Remove { .. }, SessionReplyView::Done(r)) => match r {
                Err(e) if e.kind != IoErrorKind::NotFound => self.failed(e),
                _ => self.ended(SessionOutcomeView::Finished),
            },
            (SessionStageView::Done(_), _) => self,
            _ => self.failed(replacement::unexpected_reply()),
        }
    }

    /// What the operation wants done next; nothing once it has come to its end.
    pub open spec fn request(self) -> Option<SessionRequestView> {
        match self.stage {
            SessionStageView::MakeRoot { .. } => Some(
                SessionRequestView::MakeDirectories { path: self.root },
            ),
            SessionStageView::NewId { .. } => Some(SessionRequestView::NewSessionId),
            SessionStageView::MakeDirectory { workspace: _, id } => Some(
                SessionRequestView::MakeDirectory { path: self.directory(id) },
            ),
            SessionStageView::Clock { .. } => Some(SessionRequestView::Clock),
            SessionStageView::SaveNew { metadata } => Some(
                SessionRequestView::WriteMetadata { dir: self.directory(metadata.id), metadata },
            ),
            SessionStageView::Discard { id, error: _ } => Some(
                SessionRequestView::RemoveAll { path: self.directory(id) },
            ),
            SessionStageView::List => Some(SessionRequestView::ListDirectory { path: self.root }),
            SessionStageView::Read { entries, index, found: _, skipped: _, backup } => {
                let dir = self.directory(entries[index]->Ok_0.name);
                Some(
                    SessionRequestView::ReadMetadata {
                        path: if backup {
                            metadata_backup_place(dir)
                        } else {
                            metadata_place(dir)
                        },
                    },
                )
            },
            SessionStageView::LoadMetadata { id, primary } => {
                let dir = self.directory(id);
                Some(
                    SessionRequestView::ReadMetadata {
                        path: if primary is Some {
                            metadata_backup_place(dir)
                        } else {
                            metadata_place(dir)
                        },
                    },
                )
            },
            SessionStageView::LoadRecords { id, metadata: _ } => Some(
                SessionRequestView::ReadRecords { path: records_place(self.directory(id)) },
            ),
            SessionStageView::Parse { metadata: _, texts, index, records: _, corrupted: _ } => Some(
                SessionRequestView::ParseRecord { text: texts[index] },
            ),
            SessionStageView::LookForAppend { id, record: _ } => Some(
                SessionRequestView::IsDirectory { path: self.directory(id) },
            ),
            SessionStageView::Append { id, record } => Some(
                SessionRequestView::AppendRecord {
                    path: records_place(self.directory(id)),
                    record,
                },
            ),
            SessionStageView::LookForSave { metadata } => Some(
                SessionRequestView::IsDirectory { path: self.directory(metadata.id) },
            ),
            SessionStageView::Save { metadata } => Some(
                SessionRequestView::WriteMetadata { dir: self.directory(metadata.id), metadata },
            ),
            SessionStageView::Remove { id } => Some(
                SessionRequestView::RemoveAll { path: self.directory(id) },
            ),
            SessionStageView::Done(_) => None,
        }
    }

    /// That the indices of the stage lie in their lists.
    pub open spec fn wf(self) -> bool {
        match self.stage {
            SessionStageView::Read { entries, index, .. } => 0 <= index < entries.len()
                && entries[index] is Ok,
            SessionStageView::Parse { metadata: _, texts, index, .. } => 0 <= index < texts.len(),
            _ => true,
        }
    }
}

// ---------------------------------------------------------------------------------------------
// Operations

fn read_from(
    Ghost(op): Ghost<SessionOperationView>,
    entries: Vec<Result<DirectoryEntry, IoError>>,
    start: usize,
    found: Vec<SessionMetadata>,
    skipped: usize,
) -> (r: SessionStage)
    requires
        start <= entries@.len(),
    ensures
        op.read_from(
            entries_view(entries@),
            start as int,
            session::sessions_view(found@),
            skipped,
        ) == op.at(r@),
        op.at(r@).wf(),
{
    let ghost all = entries_view(entries@);
    let ghost list = session::sessions_view(found@);
    let ghost whole = op.read_from(all, start as int, list, skipped);
    let mut i: usize = start;
    while i < entries.len()
        invariant
            all == entries_view(entries@),
            all.len() == entries@.len(),
            list == session::sessions_view(found@),
            i <= entries@.len(),
            whole == op.read_from(all, start as int, list, skipped),
            whole == op.read_from(all, i as int, list, skipped),
        decreases entries@.len() - i,
    {
        assert(all[i as int] == entry_view(entries@[i as int]));
        let is_dir: bool = match &entries[i] {
            Err(e) => {
                let e = e.duplicate();
                return SessionStage::Done(Err(e));
            },
            Ok(entry) => entry.is_dir,
        };
        if is_dir {
            return SessionStage::Read { entries, index: i, found, skipped, backup: false };
        }
        i = i + 1;
    }
    let sessions = session::sort_sessions(found);
    SessionStage::Done(
        Ok(SessionOutcome::Listed(SessionList { sessions, skipped_corrupt: skipped })),
    )
}

fn parse_from(
    Ghost(op): Ghost<SessionOperationView>,
    metadata: SessionMetadata,
    texts: Vec<String>,
    i: usize,
    records: Vec<SessionRecord>,
    corrupted: usize,
) -> (r: SessionStage)
    requires
        i <= texts@.len(),
    ensures
        op.parse_from(
            metadata@,
            text::texts(texts@),
            i as int,
            session::records_view(records@),
            corrupted,
        ) == op.at(r@),
        op.at(r@).wf(),
{
    assert(text::texts(texts@).len() == texts@.len());
    if i >= texts.len() {
        SessionStage::Done(
            Ok(
                SessionOutcome::Loaded(
                    LoadedSession { metadata, records, corrupted_records: corrupted },
                ),
            ),
        )
    } else {
        SessionStage::Parse { metadata, texts, index: i, records, corrupted }
    }
}

fn count(n: usize) -> (r: usize)
    ensures
        r == counted(n),
{
    if n == usize::MAX {
        n
    } else {
        n + 1
    }
}

fn entry_name(entries: &Vec<Result<DirectoryEntry, IoError>>, i: usize) -> (r: String)
    requires
        i < entries@.len(),
        entries_view(entries@)[i as int] is Ok,
    ensures
        r@ == entries_view(entries@)[i as int]->Ok_0.name,
{
    assert(entries_view(entries@)[i as int] == entry_view(entries@[i as int]));
    match &entries[i] {
        Ok(entry) => entry.name.clone(),
        Err(_) => String::new(),
    }
}

impl SessionOperation {
    fn directory(&self, id: &str) -> (r: String)
        ensures
            r@ == self@.directory(id@),
    {
        paths::join(self.root.as_str(), id)
    }

    /// What the operation wants done next; nothing once it has come to its end.
    pub fn request(&self) -> (r: Option<SessionRequest>)
        requires
            self@.wf(),
        ensures
            match r {
                Some(request) => self@.request() == Some(request@),
                None => self@.request() is None,
            },
    {
        match &self.stage {
            SessionStage::MakeRoot { .. } => Some(
                SessionRequest::MakeDirectories { path: self.root.clone() },
            ),
            SessionStage::NewId { .. } => Some(SessionRequest::NewSessionId),
            SessionStage::MakeDirectory { workspace: _, id } => Some(
                SessionRequest::MakeDirectory { path: self.directory(id.as_str()) },
            ),
            SessionStage::Clock { .. } => Some(SessionRequest::Clock),
            SessionStage::SaveNew { metadata } => Some(
                SessionRequest::WriteMetadata {
                    dir: self.directory(metadata.id.as_str()),
                    metadata: metadata.duplicate(),
                },
            ),
            SessionStage::Discard { id, error: _ } => Some(
                SessionRequest::RemoveAll { path: self.directory(id.as_str()) },
            ),
            SessionStage::List => Some(SessionRequest::ListDirectory { path: self.root.clone() }),
            SessionStage::Read { entries, index, found: _, skipped: _, backup } => {
                assert(entries_view(entries@).len() == entries@.len());
                let name = entry_name(entries, *index);
                let dir = self.directory(name.as_str());
                let path = if *backup {
                    paths::join(dir.as_str(), "meta.bak")
                } else {
                    paths::join(dir.as_str(), "meta.json")
                };
                Some(SessionRequest::ReadMetadata { path })
            },
            SessionStage::LoadMetadata { id, primary } => {
                let dir = self.directory(id.as_str());
                let path = if primary.is_some() {
                    paths::join(dir.as_str(), "meta.bak")
                } else {
                    paths::join(dir.as_str(), "meta.json")
                };
                Some(SessionRequest::ReadMetadata { path })
            },
            SessionStage::LoadRecords { id, metadata: _ } => {
                let dir = self.directory(id.as_str());
                Some(
                    SessionRequest::ReadRecords {
                        path: paths::join(dir.as_str(), "records.jsonl"),
                    },
                )
            },
            SessionStage::Parse { metadata: _, texts, index, records: _, corrupted: _ } => {
                assert(text::texts(texts@)[*index as int] == texts@[*index as int]@);
                Some(SessionRequest::ParseRecord { text: texts[*index].clone() })
            },
            SessionStage::LookForAppend { id, record: _ } => Some(
                SessionRequest::IsDirectory { path: self.directory(id.as_str()) },
            ),
            SessionStage::Append { id, record } => {
                let dir = self.directory(id.as_str());
                Some(
                    SessionRequest::AppendRecord {
                        path: paths::join(dir.as_str(), "records.jsonl"),
                        record: record.duplicate(),
                    },
                )
            },
            SessionStage::LookForSave { metadata } => Some(
                SessionRequest::IsDirectory { path: self.directory(metadata.id.as_str()) },
            ),
            SessionStage::Save { metadata } => Some(
                SessionRequest::WriteMetadata {
                    dir: self.directory(metadata.id.as_str()),
                    metadata: metadata.duplicate(),
                },
            ),
            SessionStage::Remove { id } => Some(
                SessionRequest::RemoveAll { path: self.directory(id.as_str()) },
            ),
            SessionStage::Done(_) => None,
        }
    }

    fn next_stage(
        Ghost(op): Ghost<SessionOperationView>,
        stage: SessionStage,
        reply: SessionReply,
    ) -> (r: SessionStage)
        requires
            op.wf(),
            op.stage == stage@,
        ensures
            op.next(reply@) == op.at(r@),
            op.at(r@).wf(),
    {
        match (stage, reply) {
            (SessionStage::MakeRoot { workspace }, SessionReply::Done(r)) => match r {
                Ok(_) => SessionStage::NewId { workspace },
                Err(e) => SessionStage::Done(Err(e)),
            },
            (SessionStage::NewId { workspace }, SessionReply::SessionId(id)) => {
                SessionStage::MakeDirectory { workspace, id }
            },
            (SessionStage::MakeDirectory { workspace, id }, SessionReply::Done(r)) => match r {
                Ok(_) => SessionStage::Clock { workspace, id },
                Err(e) => if e.kind == IoErrorKind::AlreadyExists {
                    SessionStage::NewId { workspace }
                } else {
                    SessionStage::Done(Err(e))
                },
            },
            (SessionStage::Clock { workspace, id }, SessionReply::Millis(now)) => {
                SessionStage::SaveNew {
                    metadata: SessionMetadata {
                        id,
                        title: "New session".to_owned(),
                        created_at: now,
                        updated_at: now,
                        workspace,
                        provider: None,
                        account: None,
                        model: None,
                        history_cursor: 0,
                    },
                }
            },
            (SessionStage::SaveNew { metadata }, SessionReply::Done(r)) => match r {
                Ok(_) => SessionStage::Done(Ok(SessionOutcome::Created(metadata))),
                Err(e) => SessionStage::Discard { id: metadata.id, error: e },
            },
            (SessionStage::Discard { id: _, error }, _) => SessionStage::Done(Err(error)),
            (SessionStage::List, SessionReply::Entries(r)) => match r {
                Ok(entries) => {
                    let none: Vec<SessionMetadata> = Vec::new();
                    assert(session::sessions_view(none@) =~= Seq::empty());
                    read_from(Ghost(op), entries, 0, none, 0)
                },
                Err(e) => if e.is_not_found() {
                    let none: Vec<SessionMetadata> = Vec::new();
                    assert(session::sessions_view(none@) =~= Seq::empty());
                    SessionStage::Done(
                        Ok(
                            SessionOutcome::Listed(
                                SessionList { sessions: none, skipped_corrupt: 0 },
                            ),
                        ),
                    )
                } else {
                    SessionStage::Done(Err(e))
                },
            },
            (
                SessionStage::Read { entries, index, found, skipped, backup },
                SessionReply::Metadata(r),
            ) => {
                assert(entries_view(entries@).len() == entries@.len());
                let total: usize = entries.len();
                assert(index < total);
                match r {
                    Ok(m) => {
                        let mut found = found;
                        let ghost before = session::sessions_view(found@);
                        found.push(m);
                        assert(session::sessions_view(found@) =~= before.push(m@));
                        read_from(Ghost(op), entries, index + 1, found, skipped)
                    },
                    Err(_) => if backup {
                        read_from(Ghost(op), entries, index + 1, found, count(skipped))
                    } else {
                        SessionStage::Read { entries, index, found, skipped, backup: true }
                    },
                }
            },
            (SessionStage::LoadMetadata { id, primary }, SessionReply::Metadata(r)) => match r {
                Ok(metadata) => SessionStage::LoadRecords { id, metadata },
                Err(e) => match primary {
                    None => SessionStage::LoadMetadata { id, primary: Some(e) },
                    Some(first) => SessionStage::Done(Err(first)),
                },
            },
            (SessionStage::LoadRecords { id: _, metadata }, SessionReply::Contents(r)) => {
                let none: Vec<SessionRecord> = Vec::new();
                assert(session::records_view(none@) =~= Seq::empty());
                match r {
                    Ok(contents) => {
                        let texts = session::split_records(contents.as_str());
                        parse_from(Ghost(op), metadata, texts, 0, none, 0)
                    },
                    Err(e) => if e.is_not_found() {
                        let texts: Vec<String> = Vec::new();
                        assert(text::texts(texts@) =~= Seq::empty());
                        parse_from(Ghost(op), metadata, texts, 0, none, 0)
                    } else {
                        SessionStage::Done(Err(e))
                    },
                }
            },
            (
                SessionStage::Parse { metadata, texts, index, records, corrupted },
                SessionReply::Record(r),
            ) => {
                assert(text::texts(texts@).len() == texts@.len());
                let total: usize = texts.len();
                assert(index < total);
                match r {
                    Some(record) => {
                        let mut records = records;
                        let ghost before = session::records_view(records@);
                        records.push(record);
                        assert(session::records_view(records@) =~= before.push(record@));
                        parse_from(Ghost(op), metadata, texts, index + 1, records, corrupted)
                    },
                    None => parse_from(
                        Ghost(op),
                        metadata,
                        texts,
                        index + 1,
                        records,
                        count(corrupted),
                    ),
                }
            },
            (SessionStage::LookForAppend { id, record }, SessionReply::IsDirectory(there)) => {
                if there {
                    SessionStage::Append { id, record }
                } else {
                    SessionStage::Done(
                        Err(IoError::new(IoErrorKind::NotFound, "session does not exist")),
                    )
                }
            },
            (SessionStage::Append { .. }, SessionReply::Done(r)) => match r {
                Ok(_) => SessionStage::Done(Ok(SessionOutcome::Finished)),
                Err(e) => SessionStage::Done(Err(e)),
            },
            (SessionStage::LookForSave { metadata }, SessionReply::IsDirectory(there)) => {
                if there {
                    SessionStage::Save { metadata }
                } else {
                    SessionStage::Done(
                        Err(IoError::new(IoErrorKind::NotFound, "session does not exist")),
                    )
                }
            },
            (SessionStage::Save { .. }, SessionReply::Done(r)) => match r {
                Ok(_) => SessionStage::Done(Ok(SessionOutcome::Finished)),
                Err(e) => SessionStage::Done(Err(e)),
            },
            (SessionStage::Remove { .. }, SessionReply::Done(r)) => match r {
                Ok(_) => SessionStage::Done(Ok(SessionOutcome::Finished)),
                Err(e) => if e.is_not_found() {
                    SessionStage::Done(Ok(SessionOutcome::Finished))
                } else {
                    SessionStage::Done(Err(e))
                },
            },
            (SessionStage::Done(r), _) => SessionStage::Done(r),
            _ => SessionStage::Done(
                Err(IoError::new(IoErrorKind::InvalidInput, "unexpected reply")),
            ),
        }
    }

    /// Goes on with what came of the request.
    pub fn resume(self, reply: SessionReply) -> (r: SessionOperation)
        requires
            self@.wf(),
        ensures
            r@ == self@.next(reply@),
            r@.wf(),
    {
        let ghost before = self@;
        let stage = Self::next_stage(Ghost(before), self.stage, reply);
        SessionOperation { root: self.root, stage }
    }

    /// How the operation ended; before that it is handed back.
    pub fn outcome(self) -> (r: Result<Result<SessionOutcome, IoError>, SessionOperation>)
        ensures
            match r {
                Ok(Ok(outcome)) => self@.stage == SessionStageView::Done(Ok(outcome@)),
                Ok(Err(e)) => self@.stage == SessionStageView::Done(Err(e@)),
                Err(op) => op == self && !(self@.stage is Done),
            },
    {
        let SessionOperation { root, stage } = self;
        match stage {
            SessionStage::Done(r) => Ok(r),
            other => Err(SessionOperation { root, stage: other }),
        }
    }
}

impl SessionStore {
    pub fn new(root: String) -> (r: SessionStore)
        ensures
            r@ == root@,
    {
        SessionStore { root }
    }

    /// The store at the place that the environment gives.
    pub fn discover(platform: Platform, env: &Environment) -> (r: Result<SessionStore, IoError>)
        ensures
            match (r, session::data_place(platform, *env)) {
                (Ok(store), Ok(place)) => store@ == paths::below(place, "sessions"@),
                (Err(e), Err(view)) => e@ == view,
                _ => false,
            },
    {
        match session::data_dir(platform, env) {
            Ok(place) => Ok(SessionStore::new(paths::join(place.as_str(), "sessions"))),
            Err(e) => Err(e),
        }
    }

    fn operation(&self, stage: SessionStage) -> (r: SessionOperation)
        ensures
            r@ == (SessionOperationView { root: self@, stage: stage@ }),
    {
        SessionOperation { root: self.root.clone(), stage }
    }

    /// Creates a session for a workspace.
    pub fn create(&self, workspace: String) -> (r: SessionOperation)
        ensures
            r@ == (SessionOperationView {
                root: self@,
                stage: SessionStageView::MakeRoot { workspace: workspace@ },
            }),
            r@.wf(),
    {
        self.operation(SessionStage::MakeRoot { workspace })
    }

    /// Lists the sessions, the one changed last first.
    pub fn list(&self) -> (r: SessionOperation)
        ensures
            r@ == (SessionOperationView { root: self@, stage: SessionStageView::List }),
            r@.wf(),
    {
        self.operation(SessionStage::List)
    }

    /// Loads a session with its records.
    pub fn load(&self, id: &str) -> (r: Result<SessionOperation, IoError>)
        ensures
            match r {
                Ok(op) => {
                    &&& session::valid_id(id@)
                    &&& op@ == (SessionOperationView {
                        root: self@,
                        stage: SessionStageView::LoadMetadata { id: id@, primary: None },
                    })
                    &&& op@.wf()
                },
                Err(e) => !session::valid_id(id@) && e@ == session::invalid_id_error(),
            },
    {
        match session::validate_session_id(id) {
            Ok(_) => Ok(
                self.operation(SessionStage::LoadMetadata { id: id.to_owned(), primary: None }),
            ),
            Err(e) => Err(e),
        }
    }

    /// Writes a message at the end of a session.
    pub fn append_message(&self, id: &str, role: MessageRole, content: &str) -> (r: Result<
        SessionOperation,
        IoError,
    >)
        ensures
            match r {
                Ok(op) => {
                    &&& session::valid_id(id@)
                    &&& op@ == (SessionOperationView {
                        root: self@,
                        stage: SessionStageView::LookForAppend {
                            id: id@,
                            record: session::RecordView::Message { role, content: content@ },
                        },
                    })
                    &&& op@.wf()
                },
                Err(e) => !session::valid_id(id@) && e@ == session::invalid_id_error(),
            },
    {
        match session::validate_session_id(id) {
            Ok(_) => Ok(
                self.operation(
                    SessionStage::LookForAppend {
                        id: id.to_owned(),
                        record: SessionRecord::Message { role, content: content.to_owned() },
                    },
                ),
            ),
            Err(e) => Err(e),
        }
    }

    /// Writes the metadata of a session.
    pub fn save_metadata(&self, metadata: &SessionMetadata) -> (r: Result<
        SessionOperation,
        IoError,
    >)
        ensures
            match r {
                Ok(op) => {
                    &&& session::valid_id(metadata@.id)
                    &&& op@ == (SessionOperationView {
                        root: self@,
                        stage: SessionStageView::LookForSave { metadata: metadata@ },
                    })
                    &&& op@.wf()
                },
                Err(e) => !session::valid_id(metadata@.id) && e@ == session::invalid_id_error(),
            },
    {
        match session::validate_session_id(metadata.id.as_str()) {
            Ok(_) => Ok(
                self.operation(SessionStage::LookForSave { metadata: metadata.duplicate() }),
            ),
            Err(e) => Err(e),
        }
    }

    /// Notes that a session has changed now, and writes its metadata; the time of the last change
    /// never goes back.
    pub fn touch(&self, metadata: &mut SessionMetadata, now: u64) -> (r: Result<
        SessionOperation,
        IoError,
    >)
        ensures
            final(metadata)@ == (session::MetadataView {
                updated_at: if now > old(metadata)@.updated_at {
                    now
                } else {
                    old(metadata)@.updated_at
                },
                ..old(metadata)@
            }),
            final(metadata)@ == session::touched(old(metadata)@, now),
            match r {
                Ok(op) => {
                    &&& session::valid_id(old(metadata)@.id)
                    &&& op@ == (SessionOperationView {
                        root: self@,
                        stage: SessionStageView::LookForSave { metadata: final(metadata)@ },
                    })
                    &&& op@.wf()
                },
                Err(e) => !session::valid_id(old(metadata)@.id) && e@
                    == session::invalid_id_error(),
            },
    {
        if now > metadata.updated_at {
            metadata.updated_at = now;
        }
        self.save_metadata(metadata)
    }

    /// Removes a session; one that is not there is removed already.
    pub fn delete(&self, id: &str) -> (r: Result<SessionOperation, IoError>)
        ensures
            match r {
                Ok(op) => {
                    &&& session::valid_id(id@)
                    &&& op@ == (SessionOperationView {
                        root: self@,
                        stage: SessionStageView::Remove { id: id@ },
                    })
                    &&& op@.wf()
                },
                Err(e) => !session::valid_id(id@) && e@ == session::invalid_id_error(),
            },
    {
        match session::validate_session_id(id) {
            Ok(_) => Ok(self.operation(SessionStage::Remove { id: id.to_owned() })),
            Err(e) => Err(e),
        }
    }
}

} // verus!
