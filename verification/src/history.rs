//! The transaction journal: what a change to the workspace consists of, and where the journal
//! keeps it.

use vstd::prelude::*;
use vstd::string::*;

use crate::io::IoError;
use crate::io;
use crate::numbers;
use crate::paths;
use crate::paths::Platform;
use crate::text;

verus! {

// ---------------------------------------------------------------------------------------------
// Mutations

/// What a [`FileMutation`] holds.
#[verifier::ext_equal]
pub struct FileMutationView {
    pub path: Seq<char>,
    pub contents: Option<Seq<u8>>,
}

/// A file to be written, or to be deleted where there are no contents.
#[derive(Debug, Clone, PartialEq, Eq)]
pub struct FileMutation {
    pub path: String,
    pub contents: Option<Vec<u8>>,
}

impl View for FileMutation {
    type V = FileMutationView;

    open spec fn view(&self) -> FileMutationView {
        FileMutationView {
            path: self.path@,
            contents: match self.contents {
                Some(bytes) => Some(bytes@),
                None => None,
            },
        }
    }
}

impl FileMutation {
    pub fn write(path: &str, contents: Vec<u8>) -> (r: Self)
        ensures
            r@ == (FileMutationView { path: path@, contents: Some(contents@) }),
    {
        FileMutation { path: path.to_owned(), contents: Some(contents) }
    }

    pub fn delete(path: &str) -> (r: Self)
        ensures
            r@ == (FileMutationView { path: path@, contents: None }),
    {
        FileMutation { path: path.to_owned(), contents: None }
    }
}

pub open spec fn mutations_view(list: Seq<FileMutation>) -> Seq<FileMutationView> {
    list.map_values(|m: FileMutation| m@)
}

// ---------------------------------------------------------------------------------------------
// Snapshots and change sets

/// What a [`Snapshot`] holds.
#[verifier::ext_equal]
pub enum SnapshotView {
    Missing,
    Blob { id: Seq<char>, len: u64 },
}

/// The contents of one file at one time: none, or a blob of the journal.
#[derive(Debug, Clone, PartialEq, Eq)]
pub enum Snapshot {
    Missing,
    Blob { id: String, len: u64 },
}

impl View for Snapshot {
    type V = SnapshotView;

    open spec fn view(&self) -> SnapshotView {
        match *self {
            Snapshot::Missing => SnapshotView::Missing,
            Snapshot::Blob { id, len } => SnapshotView::Blob { id: id@, len },
        }
    }
}

impl Snapshot {
    pub fn duplicate(&self) -> (r: Snapshot)
        ensures
            r@ == self@,
    {
        match self {
            Snapshot::Missing => Snapshot::Missing,
            Snapshot::Blob { id, len } => Snapshot::Blob { id: id.clone(), len: *len },
        }
    }

    fn same(&self, other: &Snapshot) -> (r: bool)
        ensures
            r == (self@ == other@),
    {
        match (self, other) {
            (Snapshot::Missing, Snapshot::Missing) => true,
            (Snapshot::Blob { id: a, len: m }, Snapshot::Blob { id: b, len: n }) => *m == *n
                && text::same_text(a.as_str(), b.as_str()),
            _ => false,
        }
    }
}

/// What a [`FileChange`] holds.
#[verifier::ext_equal]
pub struct FileChangeView {
    pub path: Seq<char>,
    pub before: SnapshotView,
    pub after: SnapshotView,
}

/// The change of one file.
#[derive(Debug, Clone, PartialEq, Eq)]
pub struct FileChange {
    pub path: String,
    pub before: Snapshot,
    pub after: Snapshot,
}

impl View for FileChange {
    type V = FileChangeView;

    open spec fn view(&self) -> FileChangeView {
        FileChangeView { path: self.path@, before: self.before@, after: self.after@ }
    }
}

pub open spec fn files_view(list: Seq<FileChange>) -> Seq<FileChangeView> {
    list.map_values(|c: FileChange| c@)
}

impl FileChange {
    pub fn duplicate(&self) -> (r: FileChange)
        ensures
            r@ == self@,
    {
        FileChange {
            path: self.path.clone(),
            before: self.before.duplicate(),
            after: self.after.duplicate(),
        }
    }
}

/// What a [`ChangeSet`] holds.
#[verifier::ext_equal]
pub struct ChangeSetView {
    pub id: u64,
    pub files: Seq<FileChangeView>,
}

/// The changes of one transaction.
#[derive(Debug, Clone, PartialEq, Eq)]
pub struct ChangeSet {
    pub id: u64,
    pub files: Vec<FileChange>,
}

impl View for ChangeSet {
    type V = ChangeSetView;

    open spec fn view(&self) -> ChangeSetView {
        ChangeSetView { id: self.id, files: files_view(self.files@) }
    }
}

/// The blob that a snapshot refers to.
pub open spec fn snapshot_blobs(s: SnapshotView) -> Seq<Seq<char>> {
    match s {
        SnapshotView::Missing => Seq::empty(),
        SnapshotView::Blob { id, .. } => seq![id],
    }
}

/// The blobs that changes refer to, in order.
pub open spec fn files_blobs(files: Seq<FileChangeView>) -> Seq<Seq<char>>
    decreases files.len(),
{
    if files.len() == 0 {
        Seq::empty()
    } else {
        files_blobs(files.drop_last()) + snapshot_blobs(files.last().before) + snapshot_blobs(
            files.last().after,
        )
    }
}

fn push_blob(list: &mut Vec<String>, s: &Snapshot)
    ensures
        text::texts(final(list)@) == text::texts(old(list)@) + snapshot_blobs(s@),
{
    let ghost before = text::texts(list@);
    match s {
        Snapshot::Missing => {},
        Snapshot::Blob { id, .. } => list.push(id.clone()),
    }
    assert(text::texts(list@) =~= before + snapshot_blobs(s@));
}

/// Lists the blobs of `first` and then those of the changes.
pub fn list_blobs(first: &Snapshot, files: &Vec<FileChange>) -> (r: Vec<String>)
    ensures
        text::texts(r@) == snapshot_blobs(first@) + files_blobs(files_view(files@)),
{
    let ghost all = files_view(files@);
    let ghost head = snapshot_blobs(first@);
    let mut r: Vec<String> = Vec::new();
    assert(text::texts(r@) =~= Seq::empty());
    push_blob(&mut r, first);
    let mut i: usize = 0;
    assert(text::texts(r@) =~= head + files_blobs(all.take(0)));
    while i < files.len()
        invariant
            all == files_view(files@),
            i <= files@.len(),
            text::texts(r@) == head + files_blobs(all.take(i as int)),
        decreases files@.len() - i,
    {
        assert(all.take(i + 1).drop_last() =~= all.take(i as int));
        assert(all[i as int] == files@[i as int]@);
        push_blob(&mut r, &files[i].before);
        push_blob(&mut r, &files[i].after);
        assert(text::texts(r@) =~= head + files_blobs(all.take(i + 1)));
        i = i + 1;
    }
    assert(all.take(i as int) =~= all);
    r
}

impl ChangeSet {
    pub fn duplicate(&self) -> (r: ChangeSet)
        ensures
            r@ == self@,
    {
        let ghost all = files_view(self.files@);
        let mut files: Vec<FileChange> = Vec::new();
        let mut i: usize = 0;
        assert(files_view(files@) =~= all.take(0));
        while i < self.files.len()
            invariant
                all == files_view(self.files@),
                i <= self.files@.len(),
                files_view(files@) == all.take(i as int),
            decreases self.files@.len() - i,
        {
            let ghost before = files_view(files@);
            let c = self.files[i].duplicate();
            files.push(c);
            assert(files_view(files@) =~= before.push(c@));
            assert(all.take(i + 1) =~= all.take(i as int).push(all[i as int]));
            i = i + 1;
        }
        assert(all.take(i as int) =~= all);
        ChangeSet { id: self.id, files }
    }

    /// Whether two change sets are equal.
    pub fn same(&self, other: &ChangeSet) -> (r: bool)
        ensures
            r == (self@ == other@),
    {
        if self.id != other.id || self.files.len() != other.files.len() {
            assert(self@.files.len() == self.files@.len());
            assert(other@.files.len() == other.files@.len());
            return false;
        }
        let mut i: usize = 0;
        while i < self.files.len()
            invariant
                i <= self.files@.len(),
                self.files@.len() == other.files@.len(),
                forall|j: int| 0 <= j < i ==> self@.files[j] == other@.files[j],
            decreases self.files@.len() - i,
        {
            let a = &self.files[i];
            let b = &other.files[i];
            assert(self@.files[i as int] == a@);
            assert(other@.files[i as int] == b@);
            if !text::same_text(a.path.as_str(), b.path.as_str()) || !a.before.same(&b.before)
                || !a.after.same(&b.after) {
                return false;
            }
            i = i + 1;
        }
        assert(self@.files =~= other@.files);
        true
    }
}

// ---------------------------------------------------------------------------------------------
// Journal state and pending operations

/// How many transactions are applied, and how many are recorded.
#[derive(Debug, Clone, Copy, PartialEq, Eq)]
pub struct HistoryState {
    pub cursor: u64,
    pub tip: u64,
}

impl Default for HistoryState {
    fn default() -> (r: Self)
        ensures
            r == (HistoryState { cursor: 0, tip: 0 }),
    {
        HistoryState { cursor: 0, tip: 0 }
    }
}

#[derive(Debug, Clone, Copy, PartialEq, Eq, Structural)]
pub enum PendingKind {
    Commit,
    Undo,
    Redo,
}

/// What a [`PendingOperation`] holds.
#[verifier::ext_equal]
pub struct PendingView {
    pub kind: PendingKind,
    pub change_set: ChangeSetView,
    pub target: HistoryState,
}

/// An operation that the journal has begun: the files go from one side of each change to the
/// other, and the journal to the target state.
#[derive(Debug, Clone, PartialEq, Eq)]
pub struct PendingOperation {
    pub kind: PendingKind,
    pub change_set: ChangeSet,
    pub target: HistoryState,
}

impl View for PendingOperation {
    type V = PendingView;

    open spec fn view(&self) -> PendingView {
        PendingView { kind: self.kind, change_set: self.change_set@, target: self.target }
    }
}

/// One side of a change, as an operation sees it.
#[derive(Debug, Clone, Copy, PartialEq, Eq, Structural)]
pub enum SnapshotSide {
    /// What the operation expects to find.
    Expected,
    /// What it leaves.
    Desired,
}

impl PendingView {
    /// The given side of a change: an undo goes from after to before, the others from before to
    /// after.
    pub open spec fn side(self, change: FileChangeView, side: SnapshotSide) -> SnapshotView {
        if (self.kind == PendingKind::Undo) == (side == SnapshotSide::Expected) {
            change.after
        } else {
            change.before
        }
    }
}

impl PendingOperation {
    pub fn duplicate(&self) -> (r: PendingOperation)
        ensures
            r@ == self@,
    {
        PendingOperation {
            kind: self.kind,
            change_set: self.change_set.duplicate(),
            target: self.target,
        }
    }

    /// What the operation expects to find of a change.
    pub fn expected<'a>(&self, change: &'a FileChange) -> (r: &'a Snapshot)
        ensures
            r@ == self@.side(change@, SnapshotSide::Expected),
    {
        match self.kind {
            PendingKind::Commit | PendingKind::Redo => &change.before,
            PendingKind::Undo => &change.after,
        }
    }

    /// What the operation leaves of a change.
    pub fn desired<'a>(&self, change: &'a FileChange) -> (r: &'a Snapshot)
        ensures
            r@ == self@.side(change@, SnapshotSide::Desired),
    {
        match self.kind {
            PendingKind::Commit | PendingKind::Redo => &change.after,
            PendingKind::Undo => &change.before,
        }
    }
}

// ---------------------------------------------------------------------------------------------
// Errors

/// What a [`HistoryError`] holds.
#[verifier::ext_equal]
pub enum HistoryErrorView {
    Io(io::IoErrorView),
    Conflict(Seq<Seq<char>>),
    InvalidPath(Seq<char>),
    NothingToUndo,
    NothingToRedo,
}

#[derive(Debug, Clone, PartialEq, Eq)]
pub enum HistoryError {
    Io(IoError),
    Conflict(Vec<String>),
    InvalidPath(String),
    NothingToUndo,
    NothingToRedo,
}

impl View for HistoryError {
    type V = HistoryErrorView;

    open spec fn view(&self) -> HistoryErrorView {
        match *self {
            HistoryError::Io(e) => HistoryErrorView::Io(e@),
            HistoryError::Conflict(paths) => HistoryErrorView::Conflict(text::texts(paths@)),
            HistoryError::InvalidPath(path) => HistoryErrorView::InvalidPath(path@),
            HistoryError::NothingToUndo => HistoryErrorView::NothingToUndo,
            HistoryError::NothingToRedo => HistoryErrorView::NothingToRedo,
        }
    }
}

/// The given texts with a comma and a space between them.
pub open spec fn comma_separated(list: Seq<Seq<char>>) -> Seq<char>
    decreases list.len(),
{
    if list.len() == 0 {
        Seq::empty()
    } else if list.len() == 1 {
        list[0]
    } else {
        comma_separated(list.drop_last()) + ", "@ + list.last()
    }
}

impl HistoryErrorView {
    /// What the error says.
    pub open spec fn message(self) -> Seq<char> {
        match self {
            HistoryErrorView::Io(e) => e.message,
            HistoryErrorView::Conflict(paths) => "file changed outside MatrixCode: "@
                + comma_separated(paths),
            HistoryErrorView::InvalidPath(path) => "unsafe workspace path: "@ + path,
            HistoryErrorView::NothingToUndo => "nothing to undo"@,
            HistoryErrorView::NothingToRedo => "nothing to redo"@,
        }
    }
}

impl HistoryError {
    /// What the error says.
    pub fn message(&self) -> (r: String)
        ensures
            r@ == self@.message(),
    {
        match self {
            HistoryError::Io(e) => e.message.clone(),
            HistoryError::Conflict(paths) => {
                let ghost all = text::texts(paths@);
                let mut list = String::new();
                let mut i: usize = 0;
                assert(list@ =~= comma_separated(all.take(0)));
                while i < paths.len()
                    invariant
                        all == text::texts(paths@),
                        i <= paths@.len(),
                        list@ == comma_separated(all.take(i as int)),
                    decreases paths@.len() - i,
                {
                    assert(all.take(i + 1).drop_last() =~= all.take(i as int));
                    assert(all[i as int] == paths@[i as int]@);
                    if i > 0 {
                        list.append(", ");
                    }
                    let ghost before = list@;
                    list.append(paths[i].as_str());
                    if i == 0 {
                        assert(list@ =~= all[0]);
                    }
                    i = i + 1;
                }
                assert(all.take(i as int) =~= all);
                text::joined("file changed outside MatrixCode: ", list.as_str())
            },
            HistoryError::InvalidPath(path) => text::joined(
                "unsafe workspace path: ",
                path.as_str(),
            ),
            HistoryError::NothingToUndo => "nothing to undo".to_owned(),
            HistoryError::NothingToRedo => "nothing to redo".to_owned(),
        }
    }
}

// ---------------------------------------------------------------------------------------------
// Where the journal keeps things

/// What a [`HistoryStore`] holds.
#[verifier::ext_equal]
pub struct StoreView {
    pub root: Seq<char>,
    pub workspace: Seq<char>,
    pub platform: Platform,
}

/// The journal of one workspace.
#[derive(Debug, Clone)]
pub struct HistoryStore {
    root: String,
    workspace: String,
    platform: Platform,
}

impl View for HistoryStore {
    type V = StoreView;

    closed spec fn view(&self) -> StoreView {
        StoreView { root: self.root@, workspace: self.workspace@, platform: self.platform }
    }
}

impl StoreView {
    pub open spec fn state_path(self) -> Seq<char> {
        paths::below(self.root, "state.json"@)
    }

    pub open spec fn pending_path(self) -> Seq<char> {
        paths::below(self.root, "pending.json"@)
    }

    pub open spec fn blobs_dir(self) -> Seq<char> {
        paths::below(self.root, "blobs"@)
    }

    pub open spec fn blob_path(self, id: Seq<char>) -> Seq<char> {
        paths::below(self.blobs_dir(), id)
    }

    pub open spec fn turns_dir(self) -> Seq<char> {
        paths::below(self.root, "turns"@)
    }

    pub open spec fn turn_path(self, id: u64) -> Seq<char> {
        paths::below(self.turns_dir(), turn_name(id))
    }

    pub open spec fn work_path(self, plain: Seq<char>) -> Seq<char> {
        paths::below(self.workspace, plain)
    }
}

/// The name of the file that records a transaction.
pub open spec fn turn_name(id: u64) -> Seq<char> {
    numbers::decimal(id as nat) + ".json"@
}

/// The transaction that a file of that name records.
pub open spec fn turn_id(name: Seq<char>) -> Option<u64> {
    let n = name.len() - ".json"@.len();
    if n >= 0 && name.skip(n) == ".json"@ {
        numbers::parsed_u64(name.take(n))
    } else {
        None
    }
}

/// The name of a transaction's file is a plain name that begins with no dot.
pub proof fn lemma_turn_name_plain(name: Seq<char>)
    requires
        turn_id(name) is Some,
    ensures
        !paths::has_slash(name),
        name.len() > 2,
        name[0] != '.',
{
    reveal_strlit(".json");
    let n = name.len() - 5;
    let digits = name.take(n);
    assert(name.skip(n) == ".json"@);
    numbers::lemma_parsed_digits(digits);
    assert forall|i: int| 0 <= i < name.len() implies #[trigger] name[i] != '/' by {
        if i < n {
            assert(digits[i] == name[i]);
        } else {
            assert(name[i] == name.skip(n)[i - n]);
        }
    }
    assert(name[0] == digits[0]);
}

/// The name of a transaction's file leads back to the transaction.
pub proof fn turn_names_read_back(id: u64)
    ensures
        turn_id(turn_name(id)) == Some(id),
{
    let name = turn_name(id);
    let n = name.len() - ".json"@.len();
    assert(name.skip(n) =~= ".json"@);
    assert(name.take(n) =~= numbers::decimal(id as nat));
    numbers::decimal_reads_back(id);
}

/// Different transactions have different files.
pub proof fn turn_names_are_distinct(a: u64, b: u64)
    requires
        turn_name(a) == turn_name(b),
    ensures
        a == b,
{
    turn_names_read_back(a);
    turn_names_read_back(b);
}

/// Reads the transaction off the name of its file.
pub fn parse_turn_id(name: &str) -> (r: Option<u64>)
    ensures
        r == turn_id(name@),
{
    let total: usize = text::chars_of(name).len();
    proof {
        reveal_strlit(".json");
    }
    if total < 5 {
        return None;
    }
    let tail = name.substring_char(total - 5, total);
    assert(tail@ =~= name@.skip(name@.len() - 5));
    if !text::same_text(tail, ".json") {
        return None;
    }
    let head = name.substring_char(0, total - 5);
    assert(head@ =~= name@.take(name@.len() - 5));
    numbers::parse_u64(head)
}

/// The identifier of a new blob: the time, the process and a counter make it.
pub open spec fn blob_id_text(nanos: u128, pid: u32, counter: u64) -> Seq<char> {
    "b-"@ + numbers::dashed(nanos as nat, pid as nat, counter as nat)
}

/// Blobs that differ in their time, process or counter have different identifiers.
pub proof fn blob_ids_are_distinct(
    nanos: u128,
    pid: u32,
    counter: u64,
    other_nanos: u128,
    other_pid: u32,
    other_counter: u64,
)
    requires
        blob_id_text(nanos, pid, counter) == blob_id_text(other_nanos, other_pid, other_counter),
    ensures
        nanos == other_nanos,
        pid == other_pid,
        counter == other_counter,
{
    let a = blob_id_text(nanos, pid, counter);
    let b = blob_id_text(other_nanos, other_pid, other_counter);
    let n = "b-"@.len() as int;
    assert(a.skip(n) =~= numbers::dashed(nanos as nat, pid as nat, counter as nat));
    assert(b.skip(n) =~= numbers::dashed(
        other_nanos as nat,
        other_pid as nat,
        other_counter as nat,
    ));
    numbers::dashed_is_injective(
        nanos as nat,
        pid as nat,
        counter as nat,
        other_nanos as nat,
        other_pid as nat,
        other_counter as nat,
    );
}

/// Makes the identifier of a new blob.
pub fn blob_id(nanos: u128, pid: u32, counter: u64) -> (r: String)
    ensures
        r@ == blob_id_text(nanos, pid, counter),
{
    text::joined("b-", numbers::write_dashed(nanos, pid, counter).as_str())
}

impl HistoryStore {
    /// The platform that the paths of the workspace are written for.
    pub fn platform(&self) -> (r: Platform)
        ensures
            r == self@.platform,
    {
        self.platform
    }

    pub fn state_path(&self) -> (r: String)
        ensures
            r@ == self@.state_path(),
    {
        paths::join(self.root.as_str(), "state.json")
    }

    pub fn pending_path(&self) -> (r: String)
        ensures
            r@ == self@.pending_path(),
    {
        paths::join(self.root.as_str(), "pending.json")
    }

    pub fn blobs_dir(&self) -> (r: String)
        ensures
            r@ == self@.blobs_dir(),
    {
        paths::join(self.root.as_str(), "blobs")
    }

    pub fn blob_path(&self, id: &str) -> (r: String)
        ensures
            r@ == self@.blob_path(id@),
    {
        paths::join(self.blobs_dir().as_str(), id)
    }

    pub fn turns_dir(&self) -> (r: String)
        ensures
            r@ == self@.turns_dir(),
    {
        paths::join(self.root.as_str(), "turns")
    }

    pub fn turn_path(&self, id: u64) -> (r: String)
        ensures
            r@ == self@.turn_path(id),
    {
        let name = text::joined(numbers::to_decimal(id).as_str(), ".json");
        paths::join(self.turns_dir().as_str(), name.as_str())
    }

    /// Where the workspace has a plain path.
    pub fn work_path(&self, plain: &str) -> (r: String)
        ensures
            r@ == self@.work_path(plain@),
    {
        paths::join(self.workspace.as_str(), plain)
    }

    /// The journal below `root` of the directory `workspace`; anything but a directory is
    /// refused.
    pub fn at(
        root: String,
        workspace: String,
        workspace_is_dir: bool,
        platform: Platform,
    ) -> (r: Result<HistoryStore, HistoryError>)
        ensures
            match r {
                Ok(store) => workspace_is_dir && store@ == (StoreView {
                    root: root@,
                    workspace: workspace@,
                    platform,
                }),
                Err(e) => !workspace_is_dir && e@ == HistoryErrorView::InvalidPath(workspace@),
            },
    {
        if workspace_is_dir {
            Ok(HistoryStore { root, workspace, platform })
        } else {
            Err(HistoryError::InvalidPath(workspace))
        }
    }
}

/// The plain form of a platform's path of the workspace, or the error that refuses it.
pub fn normalize_relative(platform: Platform, path: &str) -> (r: Result<String, HistoryError>)
    ensures
        match r {
            Ok(plain) => paths::normalized(paths::portable(platform, path@)) == Some(plain@),
            Err(e) => paths::normalized(paths::portable(platform, path@)) is None && e@
                == HistoryErrorView::InvalidPath(path@),
        },
{
    match paths::normalize(paths::to_portable(platform, path).as_str()) {
        Some(plain) => Ok(plain),
        None => Err(HistoryError::InvalidPath(path.to_owned())),
    }
}

// ---------------------------------------------------------------------------------------------
// Laws

/// An undo goes from what the transaction left to what it found; a commit and a redo go the other
/// way.
pub proof fn undo_goes_the_other_way(p: PendingView, change: FileChangeView)
    ensures
        p.kind == PendingKind::Undo ==> p.side(change, SnapshotSide::Expected) == change.after
            && p.side(change, SnapshotSide::Desired) == change.before,
        p.kind != PendingKind::Undo ==> p.side(change, SnapshotSide::Expected) == change.before
            && p.side(change, SnapshotSide::Desired) == change.after,
{
}

/// The file of a transaction is named by its number and `.json`; of other names, those alone that
/// end so and spell a number are read as such.
pub proof fn transactions_are_named_by_their_number(s: Seq<char>)
    ensures
        turn_id(s + ".json"@) == numbers::parsed_u64(s),
        turn_id(s) is Some ==> s.len() >= 5 && s.skip(s.len() - 5) == ".json"@ && turn_id(s)
            == numbers::parsed_u64(s.take(s.len() - 5)),
{
    reveal_strlit(".json");
    let name = s + ".json"@;
    let n = name.len() - ".json"@.len();
    assert(name.skip(n) =~= ".json"@);
    assert(name.take(n) =~= s);
}

/// A new blob's identifier says its time, its process and its counter, in this order and in
/// hexadecimal.
pub proof fn blob_ids_say_what_made_them(nanos: u128, pid: u32, counter: u64)
    ensures
        blob_id_text(nanos, pid, counter) == "b-"@ + numbers::hexadecimal(nanos as nat) + "-"@
            + numbers::hexadecimal(pid as nat) + "-"@ + numbers::hexadecimal(counter as nat),
{
    reveal_strlit("-");
    assert("-"@ =~= seq!['-']);
    assert(blob_id_text(nanos, pid, counter) =~= "b-"@ + numbers::hexadecimal(nanos as nat) + "-"@
        + numbers::hexadecimal(pid as nat) + "-"@ + numbers::hexadecimal(counter as nat));
}

/// The blobs of changes are those of each change in turn, what it found before what it left; a
/// file that was not there has none.
pub proof fn blobs_are_listed_in_order(earlier: Seq<FileChangeView>, later: Seq<FileChangeView>)
    ensures
        files_blobs(earlier + later) == files_blobs(earlier) + files_blobs(later),
        earlier.len() == 1 ==> files_blobs(earlier) == match (earlier[0].before, earlier[0].after) {
            (SnapshotView::Missing, SnapshotView::Missing) => Seq::empty(),
            (SnapshotView::Missing, SnapshotView::Blob { id, .. }) => seq![id],
            (SnapshotView::Blob { id, .. }, SnapshotView::Missing) => seq![id],
            (SnapshotView::Blob { id: a, .. }, SnapshotView::Blob { id: b, .. }) => seq![a, b],
        },
    decreases later.len(),
{
    if earlier.len() == 1 {
        let none = earlier.drop_last();
        assert(none.len() == 0);
        assert(files_blobs(none) =~= Seq::empty());
        assert(files_blobs(earlier) =~= match (earlier[0].before, earlier[0].after) {
            (SnapshotView::Missing, SnapshotView::Missing) => Seq::empty(),
            (SnapshotView::Missing, SnapshotView::Blob { id, .. }) => seq![id],
            (SnapshotView::Blob { id, .. }, SnapshotView::Missing) => seq![id],
            (SnapshotView::Blob { id: a, .. }, SnapshotView::Blob { id: b, .. }) => seq![a, b],
        });
    }
    if later.len() == 0 {
        assert(earlier + later =~= earlier);
        assert(files_blobs(earlier) + files_blobs(later) =~= files_blobs(earlier));
    } else {
        blobs_are_listed_in_order(earlier, later.drop_last());
        assert((earlier + later).drop_last() =~= earlier + later.drop_last());
        assert(files_blobs(earlier + later) =~= files_blobs(earlier) + files_blobs(later));
    }
}

proof fn lemma_comma_separated(list: Seq<Seq<char>>, last: Seq<char>)
    ensures
        comma_separated(seq![last]) == last,
        list.len() > 0 ==> comma_separated(list.push(last)) == comma_separated(list) + ", "@ + last,
{
    assert(list.push(last).drop_last() =~= list);
}

/// What a conflict says names every file, in order, with a comma and a space before each but the
/// first; and what a refused path says names that path.
pub proof fn errors_name_the_files(list: Seq<Seq<char>>, last: Seq<char>)
    ensures
        HistoryErrorView::Conflict(seq![last]).message() == "file changed outside MatrixCode: "@
            + last,
        list.len() > 0 ==> HistoryErrorView::Conflict(list.push(last)).message()
            == HistoryErrorView::Conflict(list).message() + ", "@ + last,
        HistoryErrorView::InvalidPath(last).message() == "unsafe workspace path: "@ + last,
{
    lemma_comma_separated(list, last);
    if list.len() > 0 {
        assert(HistoryErrorView::Conflict(list.push(last)).message()
            =~= HistoryErrorView::Conflict(list).message() + ", "@ + last);
    }
}

/// An error of the file system says what the file system says; and that nothing is left to undo or
/// to redo is said as such.
pub proof fn errors_say_what_happened(e: io::IoErrorView)
    ensures
        HistoryErrorView::Io(e).message() == e.message,
        HistoryErrorView::NothingToUndo.message() == "nothing to undo"@,
        HistoryErrorView::NothingToRedo.message() == "nothing to redo"@,
{
}

/// Each file of the journal has its name in its directory: the state, the pending operation, each
/// transaction and each blob.
pub proof fn the_journal_keeps_its_files_apart(store: StoreView, id: u64, blob: Seq<char>)
    requires
        paths::is_name(blob),
        blob.len() > 2,
    ensures
        paths::last_name(store.state_path()) == Some("state.json"@),
        paths::last_name(store.pending_path()) == Some("pending.json"@),
        paths::last_name(store.blob_path(blob)) == Some(blob),
        paths::last_name(store.turn_path(id)) == Some(numbers::decimal(id as nat) + ".json"@),
        store.blob_path(blob) == paths::below(paths::below(store.root, "blobs"@), blob),
        store.turn_path(id) == paths::below(
            paths::below(store.root, "turns"@),
            numbers::decimal(id as nat) + ".json"@,
        ),
{
    reveal_strlit("state.json");
    reveal_strlit("pending.json");
    lemma_no_slash("state.json"@);
    lemma_no_slash("pending.json"@);
    lemma_no_slash(blob);
    paths::lemma_last_name_below(store.root, "state.json"@);
    paths::lemma_last_name_below(store.root, "pending.json"@);
    paths::lemma_last_name_below(store.blobs_dir(), blob);
    turn_names_read_back(id);
    lemma_turn_name_plain(turn_name(id));
    paths::lemma_last_name_below(store.turns_dir(), turn_name(id));
}

proof fn lemma_no_slash(s: Seq<char>)
    requires
        !s.contains('/'),
    ensures
        !paths::has_slash(s),
{
    assert forall|i: int| 0 <= i < s.len() implies #[trigger] s[i] != '/' by {
        assert(s.contains(s[i]));
    }
}

} // verus!
