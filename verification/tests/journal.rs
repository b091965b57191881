use std::collections::BTreeMap;

use matrixcode::history::{
    blob_id, normalize_relative, parse_turn_id, ChangeSet, FileChange, FileMutation, HistoryError,
    HistoryState, HistoryStore, PendingKind, PendingOperation, Snapshot,
};
use matrixcode::io::{IoError, IoErrorKind};
use matrixcode::journal::{Entry, Node, Outcome, Reply, Request};
use matrixcode::operation::Operation;
use matrixcode::paths::{backup_path, Platform};

#[derive(Clone, Debug, PartialEq)]
enum Item {
    File(Vec<u8>),
    Symlink,
    Directory,
}

#[derive(Clone, Default)]
struct Disk {
    work: BTreeMap<String, Item>,
    blobs: BTreeMap<String, Vec<u8>>,
    pending: Option<PendingOperation>,
    state: Option<HistoryState>,
    state_backup: Option<HistoryState>,
    turns: BTreeMap<String, ChangeSet>,
    turn_backups: BTreeMap<String, ChangeSet>,
    state_damaged: bool,
    damaged_turns: Vec<String>,
    counter: u64,
    steps: usize,
    writes: usize,
    fail_at: Option<usize>,
}

fn missing() -> IoError {
    IoError::new(IoErrorKind::NotFound, "missing")
}

fn damaged() -> IoError {
    IoError::new(IoErrorKind::InvalidData, "damaged")
}

fn found<T>(value: Option<T>) -> Result<T, IoError> {
    value.ok_or_else(missing)
}

impl Disk {
    fn write(&mut self, path: &str, bytes: &[u8]) {
        self.work.insert(path.to_owned(), Item::File(bytes.to_vec()));
    }

    fn read(&self, path: &str) -> Option<&[u8]> {
        match self.work.get(path) {
            Some(Item::File(bytes)) => Some(bytes),
            _ => None,
        }
    }

    fn perform(&mut self, request: Request) -> Reply {
        self.steps += 1;
        if self.fail_at == Some(self.steps) {
            let error = IoError::new(IoErrorKind::Other, "broken");
            return match request {
                Request::Stat { paths } => Reply::Stats(
                    paths.iter().map(|_| Err(IoError::new(IoErrorKind::Other, "broken"))).collect(),
                ),
                Request::Compare { .. } => Reply::Equal(Err(error)),
                Request::ReadPending => Reply::Pending(Err(error)),
                Request::ReadState { .. } => Reply::State(Err(error)),
                Request::ReadTurn { .. } | Request::ReadTurnFile { .. } => Reply::Turn(Err(error)),
                Request::ListTurns => Reply::Turns(Err(error)),
                Request::NewBlobId => Reply::Done(Err(error)),
                _ => Reply::Done(Err(error)),
            };
        }
        match request {
            Request::MakeDirectories => Reply::Done(Ok(())),
            Request::Stat { paths } => Reply::Stats(
                paths
                    .iter()
                    .map(|path| match self.work.get(path) {
                        Some(Item::File(bytes)) => Ok(Node::File { len: bytes.len() as u64 }),
                        Some(Item::Symlink) => Ok(Node::Symlink),
                        Some(Item::Directory) => Ok(Node::Other),
                        None => Err(missing()),
                    })
                    .collect(),
            ),
            Request::Compare { path, blob, len } => Reply::Equal(match self.blobs.get(&blob) {
                Some(bytes) => Ok(self.read(&path) == Some(bytes.as_slice())
                    && bytes.len() as u64 == len),
                None => Err(missing()),
            }),
            Request::CopyToBlob { path, blob } => {
                let bytes = self.read(&path).expect("a file").to_vec();
                self.blobs.insert(blob, bytes);
                Reply::Done(Ok(()))
            }
            Request::StoreBlob { blob, bytes } => {
                self.blobs.insert(blob, bytes);
                Reply::Done(Ok(()))
            }
            Request::Install { blob, path } => {
                self.writes += 1;
                let mut at = 0;
                while let Some(slash) = path[at..].find('/') {
                    let parent = path[..at + slash].to_owned();
                    self.work.entry(parent).or_insert(Item::Directory);
                    at += slash + 1;
                }
                let bytes = self.blobs[&blob].clone();
                self.work.remove(&backup_path(Platform::Unix, &path));
                self.work.insert(path, Item::File(bytes));
                Reply::Done(Ok(()))
            }
            Request::RemoveWork { path } => {
                self.writes += 1;
                Reply::Done(found(self.work.remove(&path)).map(|_| ()))
            }
            Request::Discard { blobs } => {
                for id in blobs {
                    self.blobs.remove(&id);
                }
                Reply::Done(Ok(()))
            }
            Request::NewBlobId => {
                self.counter += 1;
                Reply::BlobId(blob_id(1, 2, self.counter))
            }
            Request::ReadPending => Reply::Pending(found(self.pending.clone())),
            Request::WritePending(pending) => {
                self.pending = Some(pending);
                Reply::Done(Ok(()))
            }
            Request::RemovePending => Reply::Done(found(self.pending.take()).map(|_| ())),
            Request::ReadState { backup: false } if self.state_damaged => {
                Reply::State(Err(damaged()))
            }
            Request::ReadState { backup } => {
                Reply::State(found(if backup { self.state_backup } else { self.state }))
            }
            Request::WriteState(state) => {
                self.state_backup = if self.state_damaged {
                    None
                } else {
                    self.state.or(Some(state))
                };
                self.state_damaged = false;
                self.state = Some(state);
                Reply::Done(Ok(()))
            }
            Request::ReadTurn { id, backup: false }
                if self.damaged_turns.contains(&format!("{id}.json")) =>
            {
                Reply::Turn(Err(damaged()))
            }
            Request::ReadTurn { id, backup } => {
                let turns = if backup { &self.turn_backups } else { &self.turns };
                Reply::Turn(found(turns.get(&format!("{id}.json")).cloned()))
            }
            Request::WriteTurn(change_set) => {
                self.turns.insert(format!("{}.json", change_set.id), change_set);
                Reply::Done(Ok(()))
            }
            Request::ListTurns => Reply::Turns(Ok(self
                .turns
                .keys()
                .map(|name| Ok(Entry { name: name.clone(), is_file: true }))
                .chain([Ok(Entry { name: "9.json".to_owned(), is_file: false })])
                .collect())),
            Request::ReadTurnFile { name } => Reply::Turn(found(self.turns.get(&name).cloned())),
            Request::RemoveTurnFile { name } => {
                Reply::Done(found(self.turns.remove(&name)).map(|_| ()))
            }
        }
    }
}

fn open() -> (HistoryStore, Operation) {
    HistoryStore::open("/history".to_owned(), "/workspace".to_owned(), true, Platform::Unix)
        .expect("open")
}

fn store() -> HistoryStore {
    let (store, operation) = open();
    let mut disk = Disk::default();
    assert_eq!(finish(&store, operation, &mut disk), Ok(Outcome::Opened));
    store
}

fn finish(
    store: &HistoryStore,
    operation: Operation,
    disk: &mut Disk,
) -> Result<Outcome, HistoryError> {
    let mut operation = operation;
    while let Some(request) = operation.request() {
        let reply = disk.perform(request);
        operation = operation.resume(store, reply);
    }
    operation.outcome().expect("an operation at its end")
}

fn applied(result: Result<Outcome, HistoryError>) -> Result<ChangeSet, HistoryError> {
    match result? {
        Outcome::Applied(change_set) => Ok(change_set),
        other => panic!("unexpected outcome {other:?}"),
    }
}

fn commit(
    store: &HistoryStore,
    disk: &mut Disk,
    mutations: Vec<FileMutation>,
) -> Result<ChangeSet, HistoryError> {
    applied(finish(store, store.record_and_apply(mutations), disk))
}

fn undo(store: &HistoryStore, disk: &mut Disk) -> Result<ChangeSet, HistoryError> {
    applied(finish(store, store.undo(), disk))
}

fn redo(store: &HistoryStore, disk: &mut Disk) -> Result<ChangeSet, HistoryError> {
    applied(finish(store, store.redo(), disk))
}

fn state(store: &HistoryStore, disk: &mut Disk) -> HistoryState {
    match finish(store, store.state(), disk) {
        Ok(Outcome::State(state)) => state,
        other => panic!("unexpected outcome {other:?}"),
    }
}

#[test]
fn commit_undo_and_redo_restore_exact_bytes() {
    let store = store();
    let mut disk = Disk::default();
    disk.work.insert("src".to_owned(), Item::Directory);
    disk.write("src/auth.rs", b"before\n");

    commit(&store, &mut disk, vec![FileMutation::write("src/auth.rs", b"after\n".to_vec())])
        .expect("commit change");
    assert_eq!(disk.read("src/auth.rs"), Some(&b"after\n"[..]));
    assert_eq!(state(&store, &mut disk).cursor, 1);

    undo(&store, &mut disk).expect("undo");
    assert_eq!(disk.read("src/auth.rs"), Some(&b"before\n"[..]));
    assert_eq!(state(&store, &mut disk).cursor, 0);

    redo(&store, &mut disk).expect("redo");
    assert_eq!(disk.read("src/auth.rs"), Some(&b"after\n"[..]));
    assert_eq!(state(&store, &mut disk).cursor, 1);
}

#[test]
fn undo_conflict_never_overwrites_user_edit() {
    let store = store();
    let mut disk = Disk::default();
    disk.write("auth.rs", b"before");
    commit(&store, &mut disk, vec![FileMutation::write("auth.rs", b"agent".to_vec())])
        .expect("commit");
    disk.write("auth.rs", b"user edit");

    let error = undo(&store, &mut disk).expect_err("undo must conflict");
    assert!(matches!(error, HistoryError::Conflict(_)));
    assert_eq!(disk.read("auth.rs"), Some(&b"user edit"[..]));
    assert_eq!(state(&store, &mut disk).cursor, 1);
}

#[test]
fn multi_file_conflict_aborts_before_touching_any_file() {
    let store = store();
    let mut disk = Disk::default();
    disk.write("a.txt", b"a0");
    disk.write("b.txt", b"b0");
    commit(
        &store,
        &mut disk,
        vec![
            FileMutation::write("a.txt", b"a1".to_vec()),
            FileMutation::write("b.txt", b"b1".to_vec()),
        ],
    )
    .expect("commit");
    disk.write("b.txt", b"manual");

    let writes = disk.writes;
    match undo(&store, &mut disk) {
        Err(HistoryError::Conflict(paths)) => assert_eq!(paths, vec!["b.txt".to_owned()]),
        other => panic!("unexpected outcome {other:?}"),
    }
    assert_eq!(disk.read("a.txt"), Some(&b"a1"[..]));
    assert_eq!(disk.read("b.txt"), Some(&b"manual"[..]));
    assert_eq!(disk.writes, writes);
    assert!(disk.pending.is_none());
}

#[test]
fn redo_is_invalidated_by_new_commit_after_undo() {
    let store = store();
    let mut disk = Disk::default();
    disk.write("file.txt", b"zero");
    commit(&store, &mut disk, vec![FileMutation::write("file.txt", b"one".to_vec())])
        .expect("commit one");
    undo(&store, &mut disk).expect("undo");
    commit(&store, &mut disk, vec![FileMutation::write("file.txt", b"two".to_vec())])
        .expect("commit two");

    assert!(matches!(redo(&store, &mut disk), Err(HistoryError::NothingToRedo)));
    assert_eq!(disk.read("file.txt"), Some(&b"two"[..]));
    assert_eq!(state(&store, &mut disk), HistoryState { cursor: 1, tip: 1 });
    assert_eq!(disk.blobs.len(), 2);
}

#[test]
fn undo_and_redo_handle_created_files() {
    let store = store();
    let mut disk = Disk::default();
    commit(&store, &mut disk, vec![FileMutation::write("created.txt", b"created".to_vec())])
        .expect("create file");
    assert_eq!(disk.read("created.txt"), Some(&b"created"[..]));
    undo(&store, &mut disk).expect("undo create");
    assert!(!disk.work.contains_key("created.txt"));
    redo(&store, &mut disk).expect("redo create");
    assert_eq!(disk.read("created.txt"), Some(&b"created"[..]));
}

#[test]
fn undo_restores_deleted_file() {
    let store = store();
    let mut disk = Disk::default();
    disk.write("delete.txt", b"keep me");
    commit(&store, &mut disk, vec![FileMutation::delete("delete.txt")]).expect("delete");
    assert!(!disk.work.contains_key("delete.txt"));
    undo(&store, &mut disk).expect("undo delete");
    assert_eq!(disk.read("delete.txt"), Some(&b"keep me"[..]));
}

#[test]
fn rejects_parent_paths_and_symlinks() {
    let store = store();
    let mut disk = Disk::default();
    assert!(matches!(
        commit(&store, &mut disk, vec![FileMutation::write("../escape", b"x".to_vec())]),
        Err(HistoryError::InvalidPath(_))
    ));

    disk.work.insert("link".to_owned(), Item::Symlink);
    assert!(matches!(
        commit(&store, &mut disk, vec![FileMutation::write("link/file", b"x".to_vec())]),
        Err(HistoryError::InvalidPath(_))
    ));
    assert!(disk.blobs.is_empty());
    assert_eq!(disk.writes, 0);
}

#[test]
fn a_commit_changes_all_its_files_and_no_other() {
    let store = store();
    let mut disk = Disk::default();
    disk.write("keep", b"k");
    disk.write("gone", b"g");
    let change_set = commit(
        &store,
        &mut disk,
        vec![
            FileMutation::write("./new//deep/file", b"n".to_vec()),
            FileMutation::delete("gone"),
            FileMutation::delete("never"),
        ],
    )
    .expect("commit");
    assert_eq!(change_set.id, 1);
    let paths: Vec<&str> = change_set.files.iter().map(|f| f.path.as_str()).collect();
    assert_eq!(paths, vec!["new/deep/file", "gone", "never"]);
    assert_eq!(disk.read("new/deep/file"), Some(&b"n"[..]));
    assert_eq!(disk.read("keep"), Some(&b"k"[..]));
    assert!(!disk.work.contains_key("gone"));
    assert_eq!(disk.turns["1.json"], change_set);
    assert!(disk.pending.is_none());
    assert_eq!(state(&store, &mut disk), HistoryState { cursor: 1, tip: 1 });
}

#[test]
fn transactions_are_undone_and_redone_one_by_one() {
    let store = store();
    let mut disk = Disk::default();
    for text in ["one", "two", "three"] {
        commit(&store, &mut disk, vec![FileMutation::write("f", text.as_bytes().to_vec())])
            .expect("commit");
    }
    assert_eq!(undo(&store, &mut disk).expect("undo").id, 3);
    assert_eq!(undo(&store, &mut disk).expect("undo").id, 2);
    assert_eq!(disk.read("f"), Some(&b"one"[..]));
    assert_eq!(state(&store, &mut disk), HistoryState { cursor: 1, tip: 3 });
    assert_eq!(redo(&store, &mut disk).expect("redo").id, 2);
    assert_eq!(disk.read("f"), Some(&b"two"[..]));
    commit(&store, &mut disk, vec![FileMutation::delete("f")]).expect("commit");
    assert_eq!(state(&store, &mut disk), HistoryState { cursor: 3, tip: 3 });
    assert_eq!(disk.turns.len(), 3);
    for _ in 0..3 {
        undo(&store, &mut disk).expect("undo");
    }
    assert!(!disk.work.contains_key("f"));
    assert!(matches!(undo(&store, &mut disk), Err(HistoryError::NothingToUndo)));
}

#[test]
fn outdated_transactions_go_with_their_blobs() {
    let store = store();
    let mut disk = Disk::default();
    for text in ["one", "two", "three"] {
        commit(&store, &mut disk, vec![FileMutation::write("f", text.as_bytes().to_vec())])
            .expect("commit");
    }
    for _ in 0..3 {
        undo(&store, &mut disk).expect("undo");
    }
    commit(&store, &mut disk, vec![FileMutation::write("g", b"new".to_vec())]).expect("commit");
    assert_eq!(disk.turns.keys().cloned().collect::<Vec<_>>(), vec!["1.json".to_owned()]);
    assert_eq!(disk.blobs.values().cloned().collect::<Vec<_>>(), vec![b"new".to_vec()]);
}

#[test]
fn opening_drops_outdated_transactions() {
    let mut disk = Disk::default();
    let outdated = ChangeSet { id: 5, files: Vec::new() };
    disk.turns.insert("5.json".to_owned(), outdated.clone());
    disk.turns.insert("notes.txt".to_owned(), outdated.clone());
    disk.turns.insert("2.json".to_owned(), outdated);
    disk.state = Some(HistoryState { cursor: 1, tip: 2 });
    let (store, operation) = open();
    assert_eq!(finish(&store, operation, &mut disk), Ok(Outcome::Opened));
    let names: Vec<&str> = disk.turns.keys().map(|name| name.as_str()).collect();
    assert_eq!(names, vec!["2.json", "notes.txt"]);
}

#[test]
fn a_workspace_must_be_a_directory() {
    match HistoryStore::open("/history".to_owned(), "/file".to_owned(), false, Platform::Unix) {
        Err(error) => {
            assert_eq!(error, HistoryError::InvalidPath("/file".to_owned()));
            assert_eq!(error.message(), "unsafe workspace path: /file");
        }
        Ok(_) => panic!("opened"),
    }
}

#[test]
fn the_same_file_cannot_be_changed_twice() {
    let store = store();
    let mut disk = Disk::default();
    let error = commit(
        &store,
        &mut disk,
        vec![FileMutation::delete("a/b"), FileMutation::write("./a//b/", b"x".to_vec())],
    )
    .expect_err("twice");
    assert_eq!(error, HistoryError::InvalidPath("a/b".to_owned()));
}

#[test]
fn a_directory_cannot_be_changed() {
    let store = store();
    let mut disk = Disk::default();
    disk.write("file", b"f");
    disk.work.insert("dir".to_owned(), Item::Directory);
    let error = commit(
        &store,
        &mut disk,
        vec![FileMutation::write("file", b"g".to_vec()), FileMutation::delete("dir")],
    )
    .expect_err("a directory");
    assert_eq!(error, HistoryError::InvalidPath("/workspace/dir".to_owned()));
    assert!(disk.blobs.is_empty());
    assert_eq!(disk.read("file"), Some(&b"f"[..]));
}

#[test]
fn links_are_not_followed_later_either() {
    let store = store();
    let mut disk = Disk::default();
    commit(&store, &mut disk, vec![FileMutation::write("dir/f", b"x".to_vec())]).expect("commit");
    disk.work.insert("dir".to_owned(), Item::Symlink);
    let writes = disk.writes;
    let error = undo(&store, &mut disk).expect_err("a link");
    assert_eq!(error, HistoryError::InvalidPath("dir/f".to_owned()));
    assert_eq!(disk.writes, writes);
    assert_eq!(disk.read("dir/f"), Some(&b"x"[..]));
    assert_eq!(state(&store, &mut disk).cursor, 1);
}

#[test]
fn blobs_of_earlier_transactions_stay() {
    let store = store();
    let mut disk = Disk::default();
    for text in ["one", "two"] {
        commit(&store, &mut disk, vec![FileMutation::write("f", text.as_bytes().to_vec())])
            .expect("commit");
    }
    undo(&store, &mut disk).expect("undo");
    commit(&store, &mut disk, vec![FileMutation::write("g", b"other".to_vec())]).expect("commit");
    let mut blobs: Vec<Vec<u8>> = disk.blobs.values().cloned().collect();
    blobs.sort();
    assert_eq!(blobs, vec![b"one".to_vec(), b"other".to_vec()]);
    undo(&store, &mut disk).expect("undo");
    undo(&store, &mut disk).expect("undo");
    assert!(!disk.work.contains_key("f"));
    assert!(!disk.work.contains_key("g"));
}

#[test]
fn a_missing_state_is_read_from_its_backup() {
    let store = store();
    let mut disk = Disk::default();
    disk.state_backup = Some(HistoryState { cursor: 4, tip: 6 });
    assert_eq!(state(&store, &mut disk), HistoryState { cursor: 4, tip: 6 });
    disk.state_backup = None;
    assert_eq!(state(&store, &mut disk), HistoryState::default());
}

#[test]
fn a_missing_transaction_is_read_from_its_backup() {
    let store = store();
    let mut disk = Disk::default();
    let change_set = commit(&store, &mut disk, vec![FileMutation::write("f", b"x".to_vec())])
        .expect("commit");
    disk.turns.clear();
    assert!(matches!(undo(&store, &mut disk), Err(HistoryError::Io(_))));
    disk.turn_backups.insert("1.json".to_owned(), change_set);
    undo(&store, &mut disk).expect("undo");
    assert!(!disk.work.contains_key("f"));
}

fn interrupted(steps: usize) -> Option<Disk> {
    let store = store();
    let mut disk = Disk::default();
    disk.write("a", b"a0");
    disk.write("b", b"b0");
    let mut operation = store.record_and_apply(vec![
        FileMutation::write("a", b"a1".to_vec()),
        FileMutation::delete("b"),
        FileMutation::write("c/d", b"c1".to_vec()),
    ]);
    for _ in 0..steps {
        match operation.request() {
            Some(request) => {
                let reply = disk.perform(request);
                operation = operation.resume(&store, reply);
            }
            None => return None,
        }
    }
    Some(disk)
}

#[test]
fn an_interrupted_commit_is_completed_or_taken_back() {
    let mut steps = 0;
    let mut completed = 0;
    let mut taken_back = 0;
    while let Some(mut disk) = interrupted(steps) {
        let (store, operation) = open();
        assert_eq!(finish(&store, operation, &mut disk), Ok(Outcome::Opened));
        assert!(disk.pending.is_none());
        if disk.read("a") == Some(b"a1") {
            completed += 1;
            assert!(!disk.work.contains_key("b"));
            assert_eq!(disk.read("c/d"), Some(&b"c1"[..]));
            assert_eq!(state(&store, &mut disk), HistoryState { cursor: 1, tip: 1 });
            undo(&store, &mut disk).expect("undo");
        } else {
            taken_back += 1;
        }
        assert_eq!(disk.read("a"), Some(&b"a0"[..]));
        assert_eq!(disk.read("b"), Some(&b"b0"[..]));
        assert!(!disk.work.contains_key("c/d"));
        assert_eq!(state(&store, &mut disk).cursor, 0);
        steps += 1;
    }
    assert!(completed > 3);
    assert!(taken_back > 3);
}

#[test]
fn recovery_leaves_foreign_edits_alone() {
    let mut disk = (0..200)
        .filter_map(interrupted)
        .find(|disk| disk.pending.is_some() && disk.read("a") == Some(b"a1"))
        .expect("a commit half done");
    disk.write("b", b"foreign");
    let before = disk.work.clone();
    let (store, operation) = open();
    assert_eq!(
        finish(&store, operation, &mut disk),
        Err(HistoryError::Conflict(vec!["b".to_owned()]))
    );
    assert_eq!(disk.work, before);
    assert!(disk.pending.is_some());
}

#[test]
fn every_failure_leaves_files_on_one_side() {
    for at in 1..60 {
        let store = store();
        let mut disk = Disk::default();
        disk.write("a", b"a0");
        disk.fail_at = Some(at);
        let result = commit(
            &store,
            &mut disk,
            vec![
                FileMutation::write("a", b"a1".to_vec()),
                FileMutation::write("b", b"b1".to_vec()),
            ],
        );
        if let Err(error) = &result {
            assert!(matches!(error, HistoryError::Io(_)));
            assert!(!error.message().is_empty());
        }
        assert!(disk.read("a") == Some(b"a0") || disk.read("a") == Some(b"a1"));
        assert!(disk.read("b").is_none() || disk.read("b") == Some(b"b1"));
        disk.fail_at = None;
        let (store, operation) = open();
        assert_eq!(finish(&store, operation, &mut disk), Ok(Outcome::Opened));
        assert_eq!(disk.read("a") == Some(b"a1"), disk.read("b") == Some(b"b1"));
    }
}

#[test]
fn a_file_changed_behind_the_back_of_a_commit_is_a_conflict() {
    let store = store();
    let mut disk = Disk::default();
    disk.write("f", b"old");
    let mut operation = store.record_and_apply(vec![FileMutation::write("f", b"new".to_vec())]);
    while let Some(request) = operation.request() {
        let stored = matches!(request, Request::StoreBlob { .. });
        let reply = disk.perform(request);
        operation = operation.resume(&store, reply);
        if stored {
            disk.write("f", b"user");
        }
    }
    let error = operation.outcome().expect("the end").expect_err("a conflict");
    assert_eq!(error, HistoryError::Conflict(vec!["f".to_owned()]));
    assert_eq!(error.message(), "file changed outside MatrixCode: f");
    assert_eq!(disk.read("f"), Some(&b"user"[..]));
}

#[test]
fn an_installation_that_did_not_take_is_noticed() {
    let store = store();
    let mut disk = Disk::default();
    let mut operation = store.record_and_apply(vec![FileMutation::write("f", b"new".to_vec())]);
    while let Some(request) = operation.request() {
        let installed = matches!(request, Request::Install { .. });
        let reply = disk.perform(request);
        if installed {
            disk.work.clear();
        }
        operation = operation.resume(&store, reply);
    }
    let error = operation.outcome().expect("the end").expect_err("noticed");
    assert_eq!(error.message(), "filesystem verification failed after change");
    assert!(disk.pending.is_some());
}

#[test]
fn a_conflict_names_exactly_the_files_that_differ() {
    let store = store();
    let mut disk = Disk::default();
    disk.write("b", b"b0");
    let mutations = vec![
        FileMutation::write("a", b"a1".to_vec()),
        FileMutation::write("b", b"b1".to_vec()),
        FileMutation::write("c", b"c1".to_vec()),
    ];
    commit(&store, &mut disk, mutations).expect("commit");
    disk.write("a", b"user");
    disk.work.remove("c");
    let before = disk.work.clone();
    assert_eq!(
        undo(&store, &mut disk),
        Err(HistoryError::Conflict(vec!["a".to_owned(), "c".to_owned()]))
    );
    assert_eq!(disk.work, before);
    disk.write("a", b"a1");
    disk.write("c", b"c1");
    undo(&store, &mut disk).expect("undo");
    assert_eq!(disk.work.len(), 1);
    assert_eq!(disk.read("b"), Some(&b"b0"[..]));
}

#[test]
fn a_recovery_names_exactly_the_foreign_files() {
    let mut disk = (0..200)
        .filter_map(interrupted)
        .find(|disk| disk.pending.is_some() && disk.read("a") == Some(b"a1"))
        .expect("a commit half done");
    disk.write("a", b"foreign");
    disk.write("c/d", b"foreign");
    let (store, operation) = open();
    let conflict = Err(HistoryError::Conflict(vec!["a".to_owned(), "c/d".to_owned()]));
    assert_eq!(finish(&store, operation, &mut disk), conflict);
    let pending = disk.pending.clone();
    assert_eq!(applied(finish(&store, store.undo(), &mut disk)).map(|_| Outcome::Opened), conflict);
    assert_eq!(disk.pending, pending);
}

#[test]
fn an_operation_goes_on_after_a_recovery() {
    let mut disk = (0..200)
        .filter_map(interrupted)
        .find(|disk| disk.pending.is_some() && disk.read("a") == Some(b"a1"))
        .expect("a commit half done");
    let store = store();
    let change_set = undo(&store, &mut disk).expect("undo");
    assert_eq!(change_set.id, 1);
    assert_eq!(disk.read("a"), Some(&b"a0"[..]));
    assert_eq!(disk.read("b"), Some(&b"b0"[..]));
    assert!(disk.read("c/d").is_none());
    assert_eq!(state(&store, &mut disk), HistoryState { cursor: 0, tip: 1 });
}

#[test]
fn the_state_is_in_order_whatever_fails() {
    let store = store();
    let mut disk = Disk::default();
    assert_eq!(state(&store, &mut disk), HistoryState { cursor: 0, tip: 0 });
    for at in 1..80 {
        disk.fail_at = Some(disk.steps + at);
        let _ = match at % 3 {
            0 => undo(&store, &mut disk),
            1 => commit(&store, &mut disk, vec![FileMutation::write("f", vec![at as u8])]),
            _ => redo(&store, &mut disk),
        };
        disk.fail_at = None;
        let before = disk.clone();
        let now = state(&store, &mut disk);
        assert!(now.cursor <= now.tip);
        assert_eq!(disk.state, before.state);
        assert_eq!(disk.work, before.work);
    }
}

#[test]
fn a_new_journal_has_nothing_to_undo_or_redo() {
    let store = store();
    let mut disk = Disk::default();
    disk.write("f", b"old");
    assert_eq!(undo(&store, &mut disk), Err(HistoryError::NothingToUndo));
    assert_eq!(redo(&store, &mut disk), Err(HistoryError::NothingToRedo));
    assert_eq!(disk.writes, 0);
    assert_eq!(state(&store, &mut disk), HistoryState { cursor: 0, tip: 0 });
}

#[test]
fn a_file_may_bear_the_name_of_an_earlier_backup() {
    let store = store();
    let mut disk = Disk::default();
    disk.write("f", b"old");
    let mutations = || {
        vec![
            FileMutation::write("f", b"new".to_vec()),
            FileMutation::write(".f.bak", b"own".to_vec()),
        ]
    };
    commit(&store, &mut disk, mutations()).expect("commit");
    assert_eq!(disk.read("f"), Some(&b"new"[..]));
    assert_eq!(disk.read(".f.bak"), Some(&b"own"[..]));

    undo(&store, &mut disk).expect("undo");
    assert_eq!(disk.read("f"), Some(&b"old"[..]));
    assert!(disk.read(".f.bak").is_none());
    redo(&store, &mut disk).expect("redo");
    assert_eq!(disk.read("f"), Some(&b"new"[..]));
    assert_eq!(disk.read(".f.bak"), Some(&b"own"[..]));

    let mut other = Disk::default();
    other.write("f", b"old");
    other.write(".f.bak", b"was there");
    assert_eq!(
        commit(&store, &mut other, mutations()),
        Err(HistoryError::Conflict(vec![".f.bak".to_owned()]))
    );
}

#[test]
fn a_backup_name_may_be_deleted_with_its_file_changed() {
    let store = store();
    let mut disk = Disk::default();
    disk.write("f", b"old");
    disk.write(".f.bak", b"own");
    let mutations = vec![
        FileMutation::write("f", b"new".to_vec()),
        FileMutation::delete(".f.bak"),
    ];
    commit(&store, &mut disk, mutations).expect("commit");
    for _ in 0..2 {
        assert_eq!(disk.read("f"), Some(&b"new"[..]));
        assert!(disk.read(".f.bak").is_none());
        undo(&store, &mut disk).expect("undo");
        assert_eq!(disk.read("f"), Some(&b"old"[..]));
        assert_eq!(disk.read(".f.bak"), Some(&b"own"[..]));
        redo(&store, &mut disk).expect("redo");
    }
}

#[test]
fn a_backup_name_deleted_first_cannot_be_restored_before_its_file() {
    let store = store();
    let mut disk = Disk::default();
    disk.write("f", b"old");
    disk.write(".f.bak", b"own");
    let mutations = vec![
        FileMutation::delete(".f.bak"),
        FileMutation::write("f", b"new".to_vec()),
    ];
    commit(&store, &mut disk, mutations).expect("commit");
    assert_eq!(
        undo(&store, &mut disk),
        Err(HistoryError::Conflict(vec![".f.bak".to_owned()]))
    );
}

#[test]
fn a_file_that_holds_its_bytes_already_bears_on_no_other() {
    let store = store();
    let mut disk = Disk::default();
    disk.write("f", b"same");
    disk.write(".f.bak", b"own");
    let mutations = vec![
        FileMutation::write("f", b"same".to_vec()),
        FileMutation::write(".f.bak", b"new".to_vec()),
    ];
    commit(&store, &mut disk, mutations).expect("commit");
    assert_eq!(disk.read(".f.bak"), Some(&b"new"[..]));
    undo(&store, &mut disk).expect("undo");
    assert_eq!(disk.read("f"), Some(&b"same"[..]));
    assert_eq!(disk.read(".f.bak"), Some(&b"own"[..]));
}

#[test]
fn a_recovery_takes_back_or_completes_whatever_the_names() {
    let store = store();
    let mutations = || {
        vec![
            FileMutation::delete(".f.bak"),
            FileMutation::write("f", b"new".to_vec()),
        ]
    };
    let mut disk = Disk::default();
    disk.write("f", b"old");
    disk.write(".f.bak", b"own");
    commit(&store, &mut disk, mutations()).expect("commit");
    let mut operation = store.undo();
    while disk.pending.is_none() {
        let request = operation.request().expect("not ended");
        let reply = disk.perform(request);
        operation = operation.resume(&store, reply);
    }
    let applied = disk.work.clone();
    let mut untouched = disk.clone();
    let (store, operation) = open();
    assert_eq!(finish(&store, operation, &mut untouched), Ok(Outcome::Opened));
    assert_eq!(untouched.work, applied);
    assert_eq!(untouched.pending, None);
    assert_eq!(state(&store, &mut untouched), HistoryState { cursor: 1, tip: 1 });

    disk.write("f", b"old");
    disk.write(".f.bak", b"own");
    let restored = disk.work.clone();
    let (store, operation) = open();
    assert_eq!(finish(&store, operation, &mut disk), Ok(Outcome::Opened));
    assert_eq!(disk.work, restored);
    assert_eq!(state(&store, &mut disk), HistoryState { cursor: 0, tip: 1 });
}

#[test]
fn damaged_records_are_read_from_their_backups() {
    let store = store();
    let mut disk = Disk::default();
    for bytes in [b"one", b"two"] {
        commit(&store, &mut disk, vec![FileMutation::write("f", bytes.to_vec())]).expect("commit");
    }
    assert_eq!(disk.state_backup, Some(HistoryState { cursor: 1, tip: 1 }));
    disk.state = None;
    disk.state_damaged = true;
    assert_eq!(state(&store, &mut disk), HistoryState { cursor: 1, tip: 1 });

    disk.state = Some(HistoryState { cursor: 2, tip: 2 });
    disk.state_damaged = false;
    let record = disk.turns.remove("2.json").expect("recorded");
    disk.damaged_turns.push("2.json".to_owned());
    assert!(matches!(undo(&store, &mut disk), Err(HistoryError::Io(_))));
    disk.turn_backups.insert("2.json".to_owned(), record.clone());
    assert_eq!(undo(&store, &mut disk), Ok(record));
    assert_eq!(disk.read("f"), Some(&b"one"[..]));
}

#[test]
fn a_damaged_state_without_a_backup_stops_every_operation() {
    let store = store();
    let mut disk = Disk::default();
    disk.write("f", b"old");
    disk.state_damaged = true;
    let mutation = vec![FileMutation::write("f", b"new".to_vec())];
    assert!(matches!(commit(&store, &mut disk, mutation), Err(HistoryError::Io(_))));
    assert!(matches!(undo(&store, &mut disk), Err(HistoryError::Io(_))));
    assert!(matches!(redo(&store, &mut disk), Err(HistoryError::Io(_))));
    assert!(matches!(finish(&store, store.state(), &mut disk), Err(HistoryError::Io(_))));
    assert_eq!(disk.read("f"), Some(&b"old"[..]));
    assert_eq!(disk.writes, 0);
}

#[test]
fn a_reply_of_another_kind_is_refused() {
    let store = store();
    let operation = store.undo().resume(&store, Reply::Equal(Ok(true)));
    let error = operation.outcome().expect("the end").expect_err("refused");
    assert_eq!(error.message(), "unexpected reply");
    assert!(matches!(error, HistoryError::Io(e) if e.kind == IoErrorKind::InvalidInput));
}

#[test]
fn an_operation_under_way_has_no_outcome() {
    let store = store();
    let operation = store.redo().outcome().expect_err("under way");
    assert_eq!(operation.request(), Some(Request::ReadPending));
}

#[test]
fn errors_say_what_happened() {
    assert_eq!(
        HistoryError::Conflict(vec!["a".to_owned(), "b/c".to_owned()]).message(),
        "file changed outside MatrixCode: a, b/c"
    );
    assert_eq!(HistoryError::NothingToUndo.message(), "nothing to undo");
    assert_eq!(HistoryError::NothingToRedo.message(), "nothing to redo");
    assert_eq!(HistoryError::Io(missing()).message(), "missing");
}

#[test]
fn places_of_the_journal() {
    let store = store();
    assert_eq!(store.state_path(), "/history/state.json");
    assert_eq!(store.pending_path(), "/history/pending.json");
    assert_eq!(store.blobs_dir(), "/history/blobs");
    assert_eq!(store.blob_path("b-1"), "/history/blobs/b-1");
    assert_eq!(store.turns_dir(), "/history/turns");
    assert_eq!(store.turn_path(12), "/history/turns/12.json");
    assert_eq!(store.work_path("src/a.rs"), "/workspace/src/a.rs");
}

#[test]
fn names_of_transactions_are_read_back() {
    assert_eq!(parse_turn_id("12.json"), Some(12));
    assert_eq!(parse_turn_id("18446744073709551615.json"), Some(u64::MAX));
    assert_eq!(parse_turn_id("18446744073709551616.json"), None);
    assert_eq!(parse_turn_id("x.json"), None);
    assert_eq!(parse_turn_id(".json"), None);
    assert_eq!(parse_turn_id("12.json.bak"), None);
    assert_eq!(parse_turn_id("json"), None);
}

#[test]
fn identifiers_of_blobs() {
    assert_eq!(blob_id(0x1f, 10, 255), "b-1f-a-ff");
    assert_ne!(blob_id(1, 11, 1), blob_id(11, 1, 1));
}

#[test]
fn paths_are_brought_into_plain_form() {
    let plain = |path: &str| normalize_relative(Platform::Unix, path);
    assert_eq!(plain("a/./b//c/"), Ok("a/b/c".to_owned()));
    assert_eq!(plain("./.x"), Ok(".x".to_owned()));
    assert_eq!(plain("..\\x"), Ok("..\\x".to_owned()));
    assert_eq!(plain("C:x"), Ok("C:x".to_owned()));
    for bad in ["", "/", "/etc", "a/../b", "..", ".", "./"] {
        assert_eq!(plain(bad), Err(HistoryError::InvalidPath(bad.to_owned())));
    }
    let plain = |path: &str| normalize_relative(Platform::Windows, path);
    assert_eq!(plain("src\\.\\auth.rs"), Ok("src/auth.rs".to_owned()));
    assert_eq!(plain("src/auth.rs"), Ok("src/auth.rs".to_owned()));
    assert_eq!(plain("a:b"), Err(HistoryError::InvalidPath("a:b".to_owned())));
    for bad in ["..\\x", "a\\..\\b", "\\x", "\\\\?\\C:\\x", "C:\\x", "C:x", "C:", ".\\", ""] {
        assert_eq!(plain(bad), Err(HistoryError::InvalidPath(bad.to_owned())));
    }
}

#[test]
fn separators_of_windows_part_paths_there() {
    let (store, _) = HistoryStore::open(
        "/history".to_owned(),
        "/workspace".to_owned(),
        true,
        Platform::Windows,
    )
    .expect("open");
    let mut disk = Disk::default();
    let bad = FileMutation::write("..\\escape", b"x".to_vec());
    assert_eq!(
        commit(&store, &mut disk, vec![bad]),
        Err(HistoryError::InvalidPath("..\\escape".to_owned()))
    );
    commit(&store, &mut disk, vec![FileMutation::write("a\\b", b"x".to_vec())]).expect("commit");
    assert_eq!(disk.read("a/b"), Some(&b"x"[..]));
    let twice = vec![FileMutation::delete("a/b"), FileMutation::delete("a\\b")];
    assert_eq!(
        commit(&store, &mut disk, twice),
        Err(HistoryError::InvalidPath("a/b".to_owned()))
    );
}

#[test]
fn an_operation_goes_from_one_side_to_the_other() {
    let change = FileChange {
        path: "f".to_owned(),
        before: Snapshot::Missing,
        after: Snapshot::Blob { id: "b".to_owned(), len: 3 },
    };
    let pending = |kind: PendingKind| PendingOperation {
        kind,
        change_set: ChangeSet { id: 1, files: vec![change.clone()] },
        target: HistoryState { cursor: 1, tip: 1 },
    };
    assert_eq!(pending(PendingKind::Commit).expected(&change), &change.before);
    assert_eq!(pending(PendingKind::Commit).desired(&change), &change.after);
    assert_eq!(pending(PendingKind::Redo).expected(&change), &change.before);
    assert_eq!(pending(PendingKind::Redo).desired(&change), &change.after);
    assert_eq!(pending(PendingKind::Undo).expected(&change), &change.after);
    assert_eq!(pending(PendingKind::Undo).desired(&change), &change.before);
}
