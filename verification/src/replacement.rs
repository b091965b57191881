//! The replacement of a file as a whole: the next contents are prepared beside the file and moved
//! in, while the previous contents stand aside.

use vstd::prelude::*;
use vstd::string::*;

use crate::io;
use crate::io::{IoError, IoErrorKind};
use crate::paths;
use crate::paths::Platform;

verus! {

/// What a replacement does with the previous contents.
#[derive(Debug, Clone, Copy, PartialEq, Eq, Structural)]
pub struct Rules {
    /// Whether previous contents are moved aside at all.
    pub replaces: bool,
    /// Whether a backup stays behind.
    pub keeps_backup: bool,
    /// Whether the temporary file goes when it could not be filled.
    pub tidies: bool,
}

pub enum FileRequestView {
    CreateDirectories { path: Seq<char> },
    CreateNew { path: Seq<char> },
    Fill { path: Seq<char> },
    Exists { path: Seq<char> },
    Remove { path: Seq<char> },
    Rename { from: Seq<char>, to: Seq<char> },
    Copy { from: Seq<char>, to: Seq<char> },
    SyncDirectory { path: Seq<char> },
}

/// What a replacement wants done next.
#[derive(Debug, Clone, PartialEq, Eq)]
pub enum FileRequest {
    /// Create a directory and those on the way to it.
    CreateDirectories { path: String },
    /// Create a file that must not be there yet.
    CreateNew { path: String },
    /// Write the next contents to the file just created, and flush them to the disk.
    Fill { path: String },
    /// Say whether something is there.
    Exists { path: String },
    Remove { path: String },
    Rename { from: String, to: String },
    Copy { from: String, to: String },
    /// Flush a directory to the disk, as far as possible.
    SyncDirectory { path: String },
}

impl View for FileRequest {
    type V = FileRequestView;

    open spec fn view(&self) -> FileRequestView {
        match *self {
            FileRequest::CreateDirectories { path } => FileRequestView::CreateDirectories {
                path: path@,
            },
            FileRequest::CreateNew { path } => FileRequestView::CreateNew { path: path@ },
            FileRequest::Fill { path } => FileRequestView::Fill { path: path@ },
            FileRequest::Exists { path } => FileRequestView::Exists { path: path@ },
            FileRequest::Remove { path } => FileRequestView::Remove { path: path@ },
            FileRequest::Rename { from, to } => FileRequestView::Rename { from: from@, to: to@ },
            FileRequest::Copy { from, to } => FileRequestView::Copy { from: from@, to: to@ },
            FileRequest::SyncDirectory { path } => FileRequestView::SyncDirectory { path: path@ },
        }
    }
}

pub enum FileReplyView {
    Done(Result<(), io::IoErrorView>),
    Exists(bool),
}

/// What came of a request.
#[derive(Debug)]
pub enum FileReply {
    Done(Result<(), IoError>),
    Exists(bool),
}

impl View for FileReply {
    type V = FileReplyView;

    open spec fn view(&self) -> FileReplyView {
        match *self {
            FileReply::Done(r) => FileReplyView::Done(io::result_view(r)),
            FileReply::Exists(b) => FileReplyView::Exists(b),
        }
    }
}

pub enum FileStageView {
    MakeParent,
    CreateTemp,
    Fill,
    LookForPrevious,
    RemoveBackup,
    MoveAway,
    MoveIn { had_previous: bool },
    LookForBackup { error: io::IoErrorView },
    LookForPath { error: io::IoErrorView },
    Restore { error: io::IoErrorView },
    RemoveTemp { error: io::IoErrorView },
    CopyBackup,
    DropBackup,
    Sync,
    Done(Result<(), io::IoErrorView>),
}

/// Where a replacement stands.
#[derive(Debug)]
pub enum FileStage {
    MakeParent,
    CreateTemp,
    Fill,
    LookForPrevious,
    RemoveBackup,
    MoveAway,
    MoveIn { had_previous: bool },
    LookForBackup { error: IoError },
    LookForPath { error: IoError },
    Restore { error: IoError },
    RemoveTemp { error: IoError },
    CopyBackup,
    DropBackup,
    Sync,
    Done(Result<(), IoError>),
}

impl View for FileStage {
    type V = FileStageView;

    open spec fn view(&self) -> FileStageView {
        match *self {
            FileStage::MakeParent => FileStageView::MakeParent,
            FileStage::CreateTemp => FileStageView::CreateTemp,
            FileStage::Fill => FileStageView::Fill,
            FileStage::LookForPrevious => FileStageView::LookForPrevious,
            FileStage::RemoveBackup => FileStageView::RemoveBackup,
            FileStage::MoveAway => FileStageView::MoveAway,
            FileStage::MoveIn { had_previous } => FileStageView::MoveIn { had_previous },
            FileStage::LookForBackup { error } => FileStageView::LookForBackup { error: error@ },
            FileStage::LookForPath { error } => FileStageView::LookForPath { error: error@ },
            FileStage::Restore { error } => FileStageView::Restore { error: error@ },
            FileStage::RemoveTemp { error } => FileStageView::RemoveTemp { error: error@ },
            FileStage::CopyBackup => FileStageView::CopyBackup,
            FileStage::DropBackup => FileStageView::DropBackup,
            FileStage::Sync => FileStageView::Sync,
            FileStage::Done(r) => FileStageView::Done(io::result_view(r)),
        }
    }
}

/// What a [`Replacement`] holds.
pub struct ReplacementView {
    pub path: Seq<char>,
    pub parent: Seq<char>,
    pub temp: Seq<char>,
    pub backup: Seq<char>,
    /// Whether the path ends with a name.
    pub named: bool,
    pub rules: Rules,
    pub stage: FileStageView,
}

/// The replacement of a file that is under way: it says what it wants done next
/// ([`Replacement::request`]) and goes on with what came of it ([`Replacement::resume`]).
#[derive(Debug)]
pub struct Replacement {
    path: String,
    parent: String,
    temp: String,
    backup: String,
    named: bool,
    rules: Rules,
    stage: FileStage,
}

impl View for Replacement {
    type V = ReplacementView;

    closed spec fn view(&self) -> ReplacementView {
        ReplacementView {
            path: self.path@,
            parent: self.parent@,
            temp: self.temp@,
            backup: self.backup@,
            named: self.named,
            rules: self.rules,
            stage: self.stage@,
        }
    }
}

pub open spec fn unexpected_reply() -> io::IoErrorView {
    io::IoErrorView { kind: IoErrorKind::InvalidInput, message: "unexpected reply"@ }
}

pub open spec fn invalid_name() -> io::IoErrorView {
    io::IoErrorView { kind: IoErrorKind::InvalidInput, message: "invalid file name"@ }
}

pub open spec fn no_parent() -> io::IoErrorView {
    io::IoErrorView { kind: IoErrorKind::InvalidInput, message: "path has no parent"@ }
}

impl ReplacementView {
    pub open spec fn at(self, stage: FileStageView) -> ReplacementView {
        ReplacementView { stage, ..self }
    }

    pub open spec fn failed(self, e: io::IoErrorView) -> ReplacementView {
        self.at(FileStageView::Done(Err(e)))
    }

    /// The temporary file is complete.
    pub open spec fn filled(self) -> ReplacementView {
        if self.rules.replaces {
            self.at(FileStageView::LookForPrevious)
        } else {
            self.at(FileStageView::MoveIn { had_previous: false })
        }
    }

    /// The next contents are in place.
    pub open spec fn moved_in(self, had_previous: bool) -> ReplacementView {
        if !self.rules.replaces {
            self.at(FileStageView::Sync)
        } else if !self.rules.keeps_backup {
            self.at(FileStageView::DropBackup)
        } else if !had_previous {
            self.at(FileStageView::CopyBackup)
        } else {
            self.at(FileStageView::Sync)
        }
    }

    /// The replacement after a reply.
    pub open spec fn next(self, reply: FileReplyView) -> ReplacementView {
        match (self.stage, reply) {
            (FileStageView::MakeParent, FileReplyView::Done(r)) => match r {
                Ok(_) => if self.named {
                    self.at(FileStageView::CreateTemp)
                } else {
                    self.failed(invalid_name())
                },
                Err(e) => self.failed(e),
            },
            (FileStageView::CreateTemp, FileReplyView::Done(r)) => match r {
                Ok(_) => self.at(FileStageView::Fill),
                Err(e) => self.failed(e),
            },
            (FileStageView::Fill, FileReplyView::Done(r)) => match r {
                Ok(_) => self.filled(),
                Err(e) => if self.rules.tidies {
                    self.at(FileStageView::RemoveTemp { error: e })
                } else {
                    self.failed(e)
                },
            },
            (FileStageView::LookForPrevious, FileReplyView::Exists(there)) => if there {
                self.at(FileStageView::RemoveBackup)
            } else {
                self.at(FileStageView::MoveIn { had_previous: false })
            },
            (FileStageView::RemoveBackup, FileReplyView::Done(r)) => match r {
                Err(e) if e.kind != IoErrorKind::NotFound => self.at(
                    FileStageView::RemoveTemp { error: e },
                ),
                _ => self.at(FileStageView::MoveAway),
            },
            (FileStageView::MoveAway, FileReplyView::Done(r)) => match r {
                Ok(_) => self.at(FileStageView::MoveIn { had_previous: true }),
                Err(e) => self.at(FileStageView::RemoveTemp { error: e }),
            },
            (FileStageView::MoveIn { had_previous }, FileReplyView::Done(r)) => match r {
                Ok(_) => self.moved_in(had_previous),
                Err(e) => if self.rules.replaces {
                    self.at(FileStageView::LookForBackup { error: e })
                } else {
                    self.at(FileStageView::RemoveTemp { error: e })
                },
            },
            (FileStageView::LookForBackup { error }, FileReplyView::Exists(there)) => if there {
                self.at(FileStageView::LookForPath { error })
            } else {
                self.at(FileStageView::RemoveTemp { error })
            },
            (FileStageView::LookForPath { error }, FileReplyView::Exists(there)) => if there {
                self.at(FileStageView::RemoveTemp { error })
            } else {
                self.at(FileStageView::Restore { error })
            },
            (FileStageView::Restore { error }, _) => self.at(FileStageView::RemoveTemp { error }),
            (FileStageView::RemoveTemp { error }, _) => self.failed(error),
            (FileStageView::CopyBackup, _) => self.at(FileStageView::Sync),
            (FileStageView::DropBackup, _) => self.at(FileStageView::Sync),
            (FileStageView::Sync, _) => self.at(FileStageView::Done(Ok(()))),
            (FileStageView::Done(_), _) => self,
            _ => self.failed(unexpected_reply()),
        }
    }

    /// What the replacement wants done next; nothing once it has come to its end.
    pub open spec fn request(self) -> Option<FileRequestView> {
        match self.stage {
            FileStageView::MakeParent => Some(
                FileRequestView::CreateDirectories { path: self.parent },
            ),
            FileStageView::CreateTemp => Some(FileRequestView::CreateNew { path: self.temp }),
            FileStageView::Fill => Some(FileRequestView::Fill { path: self.temp }),
            FileStageView::LookForPrevious => Some(FileRequestView::Exists { path: self.path }),
            FileStageView::RemoveBackup => Some(FileRequestView::Remove { path: self.backup }),
            FileStageView::MoveAway => Some(
                FileRequestView::Rename { from: self.path, to: self.backup },
            ),
            FileStageView::MoveIn { .. } => Some(
                FileRequestView::Rename { from: self.temp, to: self.path },
            ),
            FileStageView::LookForBackup { .. } => Some(
                FileRequestView::Exists { path: self.backup },
            ),
            FileStageView::LookForPath { .. } => Some(FileRequestView::Exists { path: self.path }),
            FileStageView::Restore { .. } => Some(
                FileRequestView::Rename { from: self.backup, to: self.path },
            ),
            FileStageView::RemoveTemp { .. } => Some(FileRequestView::Remove { path: self.temp }),
            FileStageView::CopyBackup => Some(
                FileRequestView::Copy { from: self.path, to: self.backup },
            ),
            FileStageView::DropBackup => Some(FileRequestView::Remove { path: self.backup }),
            FileStageView::Sync => Some(FileRequestView::SyncDirectory { path: self.parent }),
            FileStageView::Done(_) => None,
        }
    }
}

/// A replacement of the file at `path` at its beginning; a path without a parent is refused.
pub open spec fn beginning(
    platform: Platform,
    path: Seq<char>,
    backup: Seq<char>,
    named: bool,
    rules: Rules,
    pid: u32,
    counter: u64,
) -> Result<ReplacementView, io::IoErrorView> {
    match paths::parent_on(platform, path) {
        Some(parent) => Ok(
            ReplacementView {
                path: paths::parted(platform, path),
                parent,
                temp: paths::companion_on(
                    platform,
                    path,
                    |name: Seq<char>| paths::temp_name(name, pid, counter),
                ),
                backup,
                named,
                rules,
                stage: FileStageView::MakeParent,
            },
        ),
        None => Err(no_parent()),
    }
}

pub open spec fn outcome_view(r: Result<Replacement, IoError>) -> Result<
    ReplacementView,
    io::IoErrorView,
> {
    match r {
        Ok(replacement) => Ok(replacement@),
        Err(e) => Err(e@),
    }
}

impl Replacement {
    pub(crate) fn start(
        platform: Platform,
        path: &str,
        backup: String,
        named: bool,
        rules: Rules,
        pid: u32,
        counter: u64,
    ) -> (r: Result<Replacement, IoError>)
        ensures
            outcome_view(r) == beginning(platform, path@, backup@, named, rules, pid, counter),
    {
        match paths::parent_path(platform, path) {
            Some(parent) => Ok(
                Replacement {
                    path: paths::to_parted(platform, path),
                    parent,
                    temp: paths::temp_path(platform, path, pid, counter),
                    backup,
                    named,
                    rules,
                    stage: FileStage::MakeParent,
                },
            ),
            None => Err(IoError::new(IoErrorKind::InvalidInput, "path has no parent")),
        }
    }

    /// What the replacement wants done next; nothing once it has come to its end.
    pub fn request(&self) -> (r: Option<FileRequest>)
        ensures
            match r {
                Some(request) => self@.request() == Some(request@),
                None => self@.request() is None,
            },
    {
        match &self.stage {
            FileStage::MakeParent => Some(
                FileRequest::CreateDirectories { path: self.parent.clone() },
            ),
            FileStage::CreateTemp => Some(FileRequest::CreateNew { path: self.temp.clone() }),
            FileStage::Fill => Some(FileRequest::Fill { path: self.temp.clone() }),
            FileStage::LookForPrevious => Some(FileRequest::Exists { path: self.path.clone() }),
            FileStage::RemoveBackup => Some(FileRequest::Remove { path: self.backup.clone() }),
            FileStage::MoveAway => Some(
                FileRequest::Rename { from: self.path.clone(), to: self.backup.clone() },
            ),
            FileStage::MoveIn { .. } => Some(
                FileRequest::Rename { from: self.temp.clone(), to: self.path.clone() },
            ),
            FileStage::LookForBackup { .. } => Some(
                FileRequest::Exists { path: self.backup.clone() },
            ),
            FileStage::LookForPath { .. } => Some(FileRequest::Exists { path: self.path.clone() }),
            FileStage::Restore { .. } => Some(
                FileRequest::Rename { from: self.backup.clone(), to: self.path.clone() },
            ),
            FileStage::RemoveTemp { .. } => Some(FileRequest::Remove { path: self.temp.clone() }),
            FileStage::CopyBackup => Some(
                FileRequest::Copy { from: self.path.clone(), to: self.backup.clone() },
            ),
            FileStage::DropBackup => Some(FileRequest::Remove { path: self.backup.clone() }),
            FileStage::Sync => Some(FileRequest::SyncDirectory { path: self.parent.clone() }),
            FileStage::Done(_) => None,
        }
    }

    fn next_stage(rules: Rules, named: bool, stage: FileStage, reply: FileReply) -> (r: FileStage)
        ensures
            forall|v: ReplacementView|
                v.rules == rules && v.named == named && v.stage == stage@ ==> (#[trigger] v.next(
                    reply@,
                )) == v.at(r@),
    {
        match (stage, reply) {
            (FileStage::MakeParent, FileReply::Done(r)) => match r {
                Ok(_) => if named {
                    FileStage::CreateTemp
                } else {
                    FileStage::Done(
                        Err(IoError::new(IoErrorKind::InvalidInput, "invalid file name")),
                    )
                },
                Err(e) => FileStage::Done(Err(e)),
            },
            (FileStage::CreateTemp, FileReply::Done(r)) => match r {
                Ok(_) => FileStage::Fill,
                Err(e) => FileStage::Done(Err(e)),
            },
            (FileStage::Fill, FileReply::Done(r)) => match r {
                Ok(_) => if rules.replaces {
                    FileStage::LookForPrevious
                } else {
                    FileStage::MoveIn { had_previous: false }
                },
                Err(e) => if rules.tidies {
                    FileStage::RemoveTemp { error: e }
                } else {
                    FileStage::Done(Err(e))
                },
            },
            (FileStage::LookForPrevious, FileReply::Exists(there)) => if there {
                FileStage::RemoveBackup
            } else {
                FileStage::MoveIn { had_previous: false }
            },
            (FileStage::RemoveBackup, FileReply::Done(r)) => match r {
                Ok(_) => FileStage::MoveAway,
                Err(e) => if e.is_not_found() {
                    FileStage::MoveAway
                } else {
                    FileStage::RemoveTemp { error: e }
                },
            },
            (FileStage::MoveAway, FileReply::Done(r)) => match r {
                Ok(_) => FileStage::MoveIn { had_previous: true },
                Err(e) => FileStage::RemoveTemp { error: e },
            },
            (FileStage::MoveIn { had_previous }, FileReply::Done(r)) => match r {
                Ok(_) => if !rules.replaces {
                    FileStage::Sync
                } else if !rules.keeps_backup {
                    FileStage::DropBackup
                } else if !had_previous {
                    FileStage::CopyBackup
                } else {
                    FileStage::Sync
                },
                Err(e) => if rules.replaces {
                    FileStage::LookForBackup { error: e }
                } else {
                    FileStage::RemoveTemp { error: e }
                },
            },
            (FileStage::LookForBackup { error }, FileReply::Exists(there)) => if there {
                FileStage::LookForPath { error }
            } else {
                FileStage::RemoveTemp { error }
            },
            (FileStage::LookForPath { error }, FileReply::Exists(there)) => if there {
                FileStage::RemoveTemp { error }
            } else {
                FileStage::Restore { error }
            },
            (FileStage::Restore { error }, _) => FileStage::RemoveTemp { error },
            (FileStage::RemoveTemp { error }, _) => FileStage::Done(Err(error)),
            (FileStage::CopyBackup, _) => FileStage::Sync,
            (FileStage::DropBackup, _) => FileStage::Sync,
            (FileStage::Sync, _) => FileStage::Done(Ok(())),
            (FileStage::Done(r), _) => FileStage::Done(r),
            _ => FileStage::Done(
                Err(IoError::new(IoErrorKind::InvalidInput, "unexpected reply")),
            ),
        }
    }

    /// Goes on with what came of the request.
    pub fn resume(self, reply: FileReply) -> (r: Replacement)
        ensures
            r@ == self@.next(reply@),
    {
        let ghost before = self@;
        let stage = Self::next_stage(self.rules, self.named, self.stage, reply);
        assert(before.next(reply@) == before.at(stage@));
        Replacement {
            path: self.path,
            parent: self.parent,
            temp: self.temp,
            backup: self.backup,
            named: self.named,
            rules: self.rules,
            stage,
        }
    }

    /// How the replacement ended; nothing before that.
    pub fn outcome(&self) -> (r: Option<Result<(), IoError>>)
        ensures
            match r {
                Some(outcome) => self@.stage == FileStageView::Done(io::result_view(outcome)),
                None => !(self@.stage is Done),
            },
    {
        match &self.stage {
            FileStage::Done(Ok(_)) => Some(Ok(())),
            FileStage::Done(Err(e)) => Some(Err(e.duplicate())),
            _ => None,
        }
    }
}

impl FileReplyView {
    /// That the reply is of the kind that the request asks for.
    pub open spec fn answers(self, request: FileRequestView) -> bool {
        (request is Exists) == (self is Exists)
    }
}

impl ReplacementView {
    /// The error that a replacement is going to fail with once it has tidied up.
    pub open spec fn kept_error(self) -> Option<io::IoErrorView> {
        match self.stage {
            FileStageView::LookForBackup { error } => Some(error),
            FileStageView::LookForPath { error } => Some(error),
            FileStageView::Restore { error } => Some(error),
            FileStageView::RemoveTemp { error } => Some(error),
            FileStageView::Done(Err(error)) => Some(error),
            _ => None,
        }
    }
}

/// A replacement fails only with the error of the first step that failed and that mattered: once
/// there is one, tidying up neither hides nor replaces it, and without a failed step there is none,
/// unless the path names no file.
pub proof fn failures_of_replacements_are_those_of_replies(
    it: ReplacementView,
    reply: FileReplyView,
)
    requires
        it.request() is Some,
        reply.answers(it.request()->0),
    ensures
        it.kept_error() is Some ==> it.next(reply).kept_error() == it.kept_error(),
        it.kept_error() is None ==> (it.next(reply).kept_error() matches Some(e) ==> {
            ||| reply == FileReplyView::Done(Err(e))
            ||| !it.named && it.stage is MakeParent && e.kind == IoErrorKind::InvalidInput
                && e.message == "invalid file name"@
        }),
{
}

/// Which failed steps matter: those before the next contents are in place, but for the removal of
/// an old backup that is not there. What is done to the backup and for the directory afterwards
/// may fail.
pub proof fn only_steps_before_the_move_can_fail(it: ReplacementView, e: io::IoErrorView)
    ensures
        it.stage is MakeParent || it.stage is CreateTemp || it.stage is Fill || it.stage is MoveAway
            || it.stage is MoveIn || (it.stage is RemoveBackup && e.kind != IoErrorKind::NotFound)
            ==> it.next(FileReplyView::Done(Err(e))).kept_error() == Some(e),
        it.stage is RemoveBackup && e.kind == IoErrorKind::NotFound ==> it.next(
            FileReplyView::Done(Err(e)),
        ) == it.next(FileReplyView::Done(Ok(()))),
        it.stage is CopyBackup || it.stage is DropBackup || it.stage is Sync ==> it.next(
            FileReplyView::Done(Err(e)),
        ) == it.next(FileReplyView::Done(Ok(()))),
{
}

/// What a failed replacement leaves to be done: the temporary file is removed wherever it may be
/// there, but for one that could not be filled where nothing is tidied up, and the previous
/// contents are moved back where they stand aside and nothing is in their place.
pub proof fn failed_replacements_tidy_up(it: ReplacementView, e: io::IoErrorView, there: bool)
    ensures
        it.stage is Fill && it.rules.tidies || it.stage is MoveAway || (it.stage is RemoveBackup
            && e.kind != IoErrorKind::NotFound) || (it.stage is MoveIn && !it.rules.replaces)
            ==> it.next(FileReplyView::Done(Err(e))).request() == Some(
            FileRequestView::Remove { path: it.temp },
        ),
        it.stage is Fill && !it.rules.tidies ==> it.next(FileReplyView::Done(Err(e))).request()
            is None,
        it.stage is MoveIn && it.rules.replaces ==> {
            let aside = it.next(FileReplyView::Done(Err(e)));
            let asked = aside.next(FileReplyView::Exists(true));
            let back = asked.next(FileReplyView::Exists(false));
            let remove = FileRequestView::Remove { path: it.temp };
            &&& aside.request() == Some(FileRequestView::Exists { path: it.backup })
            &&& aside.next(FileReplyView::Exists(false)).request() == Some(remove)
            &&& asked.request() == Some(FileRequestView::Exists { path: it.path })
            &&& asked.next(FileReplyView::Exists(true)).request() == Some(remove)
            &&& back.request() == Some(FileRequestView::Rename { from: it.backup, to: it.path })
            &&& back.next(FileReplyView::Done(Ok(()))).request() == Some(remove)
            &&& back.next(FileReplyView::Done(Err(e))).request() == Some(remove)
        },
{
}

/// A replacement touches no file but the one it replaces, its backup and its temporary file.
pub proof fn replacements_touch_three_files(it: ReplacementView)
    ensures
        match it.request() {
            Some(FileRequestView::CreateDirectories { path }) => path == it.parent,
            Some(FileRequestView::CreateNew { path }) => path == it.temp,
            Some(FileRequestView::Fill { path }) => path == it.temp,
            Some(FileRequestView::Exists { path }) => path == it.path || path == it.backup,
            Some(FileRequestView::Remove { path }) => path == it.temp || path == it.backup,
            Some(FileRequestView::Rename { from, to }) => {
                ||| from == it.temp && to == it.path
                ||| from == it.path && to == it.backup
                ||| from == it.backup && to == it.path
            },
            Some(FileRequestView::Copy { from, to }) => from == it.path && to == it.backup,
            Some(FileRequestView::SyncDirectory { path }) => path == it.parent,
            None => true,
        },
{
}

/// A replacement begins for every path that has a parent, and for no other: it makes sure of that
/// directory first, and prepares the next contents beside the file.
pub proof fn replacements_begin_where_there_is_a_parent(
    names: Seq<Seq<char>>,
    backup: Seq<char>,
    named: bool,
    rules: Rules,
    pid: u32,
    counter: u64,
)
    requires
        names.len() > 0,
        paths::are_names(names),
    ensures
        ({
            let r = beginning(
                Platform::Unix,
                paths::slashed(names),
                backup,
                named,
                rules,
                pid,
                counter,
            );
            &&& r matches Ok(it)
            &&& it.path == paths::slashed(names)
            &&& it.backup == backup
            &&& it.rules == rules
            &&& it.request() == Some(
                FileRequestView::CreateDirectories { path: paths::slashed(names.drop_last()) },
            )
            &&& it.temp == paths::companion_on(
                Platform::Unix,
                paths::slashed(names),
                |name: Seq<char>| paths::temp_name(name, pid, counter),
            )
        }),
        beginning(Platform::Unix, seq!['/'], backup, named, rules, pid, counter) == Err::<
            ReplacementView,
            io::IoErrorView,
        >(io::IoErrorView { kind: IoErrorKind::InvalidInput, message: "path has no parent"@ }),
        beginning(Platform::Unix, Seq::empty(), backup, named, rules, pid, counter) is Err,
{
    let path = paths::slashed(names);
    paths::paths_end_with_their_last_name(names);
    paths::some_paths_have_no_name(path);
    paths::plain_paths_have_the_same_companions(
        Platform::Unix,
        path,
        |name: Seq<char>| paths::temp_name(name, pid, counter),
    );
    paths::plain_paths_have_the_same_companions(
        Platform::Unix,
        seq!['/'],
        |name: Seq<char>| name,
    );
    paths::plain_paths_have_the_same_companions(
        Platform::Unix,
        Seq::empty(),
        |name: Seq<char>| name,
    );
}

/// A replacement makes its directory first, moves the next contents in only once they are written
/// and flushed, and ends well only after the directory has been flushed, too.
pub proof fn replacements_flush_before_they_end(it: ReplacementView, reply: FileReplyView)
    requires
        it.request() is Some,
    ensures
        it.next(reply).stage == FileStageView::Done(Ok(())) ==> it.request() == Some(
            FileRequestView::SyncDirectory { path: it.parent },
        ),
        it.next(reply).stage is CreateTemp ==> it.request() == Some(
            FileRequestView::CreateDirectories { path: it.parent },
        ) && (reply matches FileReplyView::Done(Ok(_))),
        it.next(reply).stage is Fill ==> it.request() == Some(
            FileRequestView::CreateNew { path: it.temp },
        ) && (reply matches FileReplyView::Done(Ok(_))),
        it.next(reply).stage is LookForPrevious ==> it.request() == Some(
            FileRequestView::Fill { path: it.temp },
        ) && (reply matches FileReplyView::Done(Ok(_))),
        it.next(reply).stage is MoveIn ==> it.stage is LookForPrevious || it.stage is MoveAway
            || it.request() == Some(FileRequestView::Fill { path: it.temp }),
{
}

} // verus!
