use std::collections::{BTreeMap, BTreeSet};

use matrixcode::io::{IoError, IoErrorKind};
use matrixcode::session::{
    data_dir, new_session_id, now_millis, record_line, split_records, validate_session_id,
    Environment, LoadedSession, MessageRole, Platform, SessionList, SessionMetadata, SessionRecord,
};
use matrixcode::session_store::{
    DirectoryEntry, SessionOperation, SessionOutcome, SessionReply, SessionRequest, SessionStore,
};
use serde_json::Value;

#[derive(Default)]
struct Disk {
    directories: BTreeSet<String>,
    metadata: BTreeMap<String, Option<SessionMetadata>>,
    records: BTreeMap<String, String>,
    counter: u64,
    now: u64,
    taken: Vec<String>,
    fail_metadata: bool,
}

fn missing() -> IoError {
    IoError::new(IoErrorKind::NotFound, "missing")
}

fn role_name(role: MessageRole) -> &'static str {
    match role {
        MessageRole::User => "user",
        MessageRole::Assistant => "assistant",
        MessageRole::System => "system",
    }
}

fn written(record: &SessionRecord) -> String {
    let SessionRecord::Message { role, content } = record;
    let mut map = serde_json::Map::new();
    map.insert("type".to_owned(), Value::from("message"));
    map.insert("role".to_owned(), Value::from(role_name(*role)));
    map.insert("content".to_owned(), Value::from(content.as_str()));
    Value::Object(map).to_string()
}

fn parsed(text: &str) -> Option<SessionRecord> {
    let value: Value = serde_json::from_str(text).ok()?;
    if value.get("type")?.as_str()? != "message" {
        return None;
    }
    let role = match value.get("role")?.as_str()? {
        "user" => MessageRole::User,
        "assistant" => MessageRole::Assistant,
        "system" => MessageRole::System,
        _ => return None,
    };
    let content = value.get("content")?.as_str()?.to_owned();
    Some(SessionRecord::Message { role, content })
}

impl Disk {
    fn perform(&mut self, request: SessionRequest) -> SessionReply {
        match request {
            SessionRequest::MakeDirectories { path } => {
                self.directories.insert(path);
                SessionReply::Done(Ok(()))
            }
            SessionRequest::NewSessionId => {
                self.counter += 1;
                SessionReply::SessionId(new_session_id(1, 2, self.counter))
            }
            SessionRequest::MakeDirectory { path } => {
                if self.taken.contains(&path) || !self.directories.insert(path) {
                    return SessionReply::Done(Err(IoError::new(
                        IoErrorKind::AlreadyExists,
                        "there",
                    )));
                }
                SessionReply::Done(Ok(()))
            }
            SessionRequest::Clock => SessionReply::Millis(self.now),
            SessionRequest::WriteMetadata { dir, metadata } => {
                if self.fail_metadata {
                    return SessionReply::Done(Err(IoError::new(IoErrorKind::Other, "full")));
                }
                self.metadata.insert(format!("{dir}/meta.json"), Some(metadata));
                SessionReply::Done(Ok(()))
            }
            SessionRequest::RemoveAll { path } => {
                if !self.directories.remove(&path) {
                    return SessionReply::Done(Err(missing()));
                }
                let below = format!("{path}/");
                self.metadata.retain(|name, _| !name.starts_with(&below));
                self.records.retain(|name, _| !name.starts_with(&below));
                SessionReply::Done(Ok(()))
            }
            SessionRequest::ListDirectory { path } => {
                if !self.directories.contains(&path) {
                    return SessionReply::Entries(Err(missing()));
                }
                let below = format!("{path}/");
                let mut list: Vec<Result<DirectoryEntry, IoError>> = self
                    .directories
                    .iter()
                    .filter_map(|name| name.strip_prefix(&below))
                    .map(|name| Ok(DirectoryEntry { name: name.to_owned(), is_dir: true }))
                    .collect();
                list.push(Ok(DirectoryEntry { name: "notes".to_owned(), is_dir: false }));
                SessionReply::Entries(Ok(list))
            }
            SessionRequest::ReadMetadata { path } => {
                SessionReply::Metadata(match self.metadata.get(&path) {
                    Some(Some(metadata)) => Ok(metadata.clone()),
                    Some(None) => Err(IoError::new(IoErrorKind::InvalidData, "corrupt")),
                    None => Err(missing()),
                })
            }
            SessionRequest::ReadRecords { path } => {
                SessionReply::Contents(self.records.get(&path).cloned().ok_or_else(missing))
            }
            SessionRequest::ParseRecord { text } => SessionReply::Record(parsed(&text)),
            SessionRequest::IsDirectory { path } => {
                SessionReply::IsDirectory(self.directories.contains(&path))
            }
            SessionRequest::AppendRecord { path, record } => {
                let line = record_line(&written(&record));
                self.records.entry(path).or_default().push_str(&line);
                SessionReply::Done(Ok(()))
            }
        }
    }

    fn finish(&mut self, operation: SessionOperation) -> Result<SessionOutcome, IoError> {
        let mut operation = operation;
        while let Some(request) = operation.request() {
            let reply = self.perform(request);
            operation = operation.resume(reply);
        }
        operation.outcome().expect("an operation at its end")
    }

    fn create(&mut self, store: &SessionStore, workspace: &str) -> SessionMetadata {
        match self.finish(store.create(workspace.to_owned())) {
            Ok(SessionOutcome::Created(metadata)) => metadata,
            other => panic!("unexpected outcome {other:?}"),
        }
    }

    fn load(&mut self, store: &SessionStore, id: &str) -> LoadedSession {
        match self.finish(store.load(id).expect("a valid identifier")) {
            Ok(SessionOutcome::Loaded(loaded)) => loaded,
            other => panic!("unexpected outcome {other:?}"),
        }
    }

    fn list(&mut self, store: &SessionStore) -> SessionList {
        match self.finish(store.list()) {
            Ok(SessionOutcome::Listed(list)) => list,
            other => panic!("unexpected outcome {other:?}"),
        }
    }
}

fn sessions() -> SessionStore {
    SessionStore::new("/data/sessions".to_owned())
}

fn message(role: MessageRole, content: &str) -> SessionRecord {
    SessionRecord::Message { role, content: content.to_owned() }
}

#[test]
fn persists_and_loads_session_content() {
    let store = sessions();
    let mut disk = Disk::default();
    let metadata = disk.create(&store, "/workspace");
    let append = store.append_message(&metadata.id, MessageRole::User, "hello").expect("valid");
    assert_eq!(disk.finish(append), Ok(SessionOutcome::Finished));

    let loaded = disk.load(&store, &metadata.id);
    assert_eq!(loaded.metadata.id, metadata.id);
    assert_eq!(loaded.corrupted_records, 0);
    assert_eq!(
        loaded.records,
        vec![SessionRecord::Message { role: MessageRole::User, content: "hello".to_owned() }]
    );
}

#[test]
fn list_reads_metadata_without_parsing_session_content() {
    let store = sessions();
    let mut disk = Disk::default();
    let metadata = disk.create(&store, "/workspace");
    disk.records
        .insert(format!("/data/sessions/{}/records.jsonl", metadata.id), "not-json\n".to_owned());

    let listed = disk.list(&store);
    assert_eq!(listed.sessions.len(), 1);
    assert_eq!(listed.skipped_corrupt, 0);
}

#[test]
fn load_recovers_valid_records_around_corruption() {
    let store = sessions();
    let mut disk = Disk::default();
    let metadata = disk.create(&store, "/workspace");
    disk.records.insert(
        format!("/data/sessions/{}/records.jsonl", metadata.id),
        "{\"type\":\"message\",\"role\":\"user\",\"content\":\"one\"}\nBROKEN\n{\"type\":\"message\",\"role\":\"assistant\",\"content\":\"two\"}\n".to_owned(),
    );

    let loaded = disk.load(&store, &metadata.id);
    assert_eq!(loaded.records.len(), 2);
    assert_eq!(loaded.corrupted_records, 1);
}

#[test]
fn metadata_falls_back_to_backup_when_primary_is_corrupt() {
    let store = sessions();
    let mut disk = Disk::default();
    let metadata = disk.create(&store, "/workspace");
    let dir = format!("/data/sessions/{}", metadata.id);
    disk.metadata.insert(format!("{dir}/meta.bak"), Some(metadata.clone()));
    disk.metadata.insert(format!("{dir}/meta.json"), None);

    let loaded = disk.load(&store, &metadata.id);
    assert_eq!(loaded.metadata, metadata);
    assert_eq!(disk.list(&store).sessions, vec![metadata]);
}

#[test]
fn delete_is_idempotent() {
    let store = sessions();
    let mut disk = Disk::default();
    let metadata = disk.create(&store, "/workspace");
    let delete = store.delete(&metadata.id).expect("valid");
    assert_eq!(disk.finish(delete), Ok(SessionOutcome::Finished));
    let delete = store.delete(&metadata.id).expect("valid");
    assert_eq!(disk.finish(delete), Ok(SessionOutcome::Finished));
    assert!(disk.list(&store).sessions.is_empty());
}

#[test]
fn rejects_path_traversal_ids() {
    let store = sessions();
    let error = store.load("../escape").expect_err("reject traversal");
    assert_eq!(error.kind, IoErrorKind::InvalidInput);
}

#[test]
fn identifiers_are_checked_everywhere() {
    let store = sessions();
    let message = "invalid session id";
    assert_eq!(store.load("").expect_err("empty").message, message);
    assert_eq!(store.delete("a/b").expect_err("slash").message, message);
    assert_eq!(
        store.append_message("é", MessageRole::User, "x").expect_err("letter").message,
        message
    );
    assert!(validate_session_id("aZ09-_").is_ok());
    assert!(validate_session_id("a.b").is_err());
    assert!(validate_session_id(&new_session_id(u128::MAX, 1, 2)).is_ok());
}

#[test]
fn a_new_session_is_described() {
    let store = sessions();
    let mut disk = Disk { now: 77, ..Disk::default() };
    let metadata = disk.create(&store, "/workspace");
    assert_eq!(
        metadata,
        SessionMetadata {
            id: "s-1-2-1".to_owned(),
            title: "New session".to_owned(),
            created_at: 77,
            updated_at: 77,
            workspace: "/workspace".to_owned(),
            provider: None,
            account: None,
            model: None,
            history_cursor: 0,
        }
    );
    let loaded = disk.load(&store, &metadata.id);
    assert_eq!(loaded, LoadedSession { metadata, records: Vec::new(), corrupted_records: 0 });
}

#[test]
fn an_identifier_that_is_taken_is_not_used() {
    let store = sessions();
    let mut disk = Disk::default();
    disk.taken.push("/data/sessions/s-1-2-1".to_owned());
    disk.taken.push("/data/sessions/s-1-2-2".to_owned());
    assert_eq!(disk.create(&store, "/w").id, "s-1-2-3");
}

#[test]
fn a_session_without_metadata_is_not_left_behind() {
    let store = sessions();
    let mut disk = Disk { fail_metadata: true, ..Disk::default() };
    let error = disk.finish(store.create("/w".to_owned())).expect_err("full");
    assert_eq!(error.message, "full");
    assert!(!disk.directories.contains("/data/sessions/s-1-2-1"));
}

#[test]
fn sessions_are_listed_newest_first() {
    let store = sessions();
    let mut disk = Disk::default();
    assert_eq!(disk.list(&store), SessionList { sessions: Vec::new(), skipped_corrupt: 0 });
    for now in [5, 9, 5, 7] {
        disk.now = now;
        disk.create(&store, "/w");
    }
    disk.directories.insert("/data/sessions/broken".to_owned());
    let listed = disk.list(&store);
    let ids: Vec<&str> = listed.sessions.iter().map(|m| m.id.as_str()).collect();
    assert_eq!(ids, vec!["s-1-2-2", "s-1-2-4", "s-1-2-3", "s-1-2-1"]);
    assert_eq!(listed.skipped_corrupt, 1);
}

#[test]
fn messages_come_back_in_order() {
    let store = sessions();
    let mut disk = Disk::default();
    let id = disk.create(&store, "/w").id;
    let all = [
        message(MessageRole::User, "line\nbreak \"quoted\" \r"),
        message(MessageRole::Assistant, ""),
        message(MessageRole::System, "ğ🙂"),
    ];
    for SessionRecord::Message { role, content } in &all {
        let append = store.append_message(&id, *role, content).expect("valid");
        assert_eq!(disk.finish(append), Ok(SessionOutcome::Finished));
    }
    assert_eq!(disk.load(&store, &id).records, all);
}

#[test]
fn a_missing_session_takes_nothing() {
    let store = sessions();
    let mut disk = Disk::default();
    let append = store.append_message("gone", MessageRole::User, "x").expect("valid");
    let error = disk.finish(append).expect_err("no session");
    assert_eq!(error, IoError::new(IoErrorKind::NotFound, "session does not exist"));
    let mut metadata = disk.create(&store, "/w");
    metadata.id = "gone".to_owned();
    let save = store.save_metadata(&metadata).expect("valid");
    assert_eq!(disk.finish(save).expect_err("no session").message, "session does not exist");
    let load = store.load("gone").expect("valid");
    assert_eq!(disk.finish(load).expect_err("no session"), missing());
    assert!(disk.records.is_empty());
}

#[test]
fn other_sessions_stay_as_they_are() {
    let store = sessions();
    let mut disk = Disk::default();
    let kept = disk.create(&store, "/w");
    let append = store.append_message(&kept.id, MessageRole::User, "kept").expect("valid");
    assert_eq!(disk.finish(append), Ok(SessionOutcome::Finished));
    let before = disk.load(&store, &kept.id);
    let mut other = disk.create(&store, "/w");
    let append = store.append_message(&other.id, MessageRole::User, "other").expect("valid");
    assert_eq!(disk.finish(append), Ok(SessionOutcome::Finished));
    other.title = "Renamed".to_owned();
    let save = store.save_metadata(&other).expect("valid");
    assert_eq!(disk.finish(save), Ok(SessionOutcome::Finished));
    assert_eq!(disk.load(&store, &other.id).metadata, other);
    let delete = store.delete(&other.id).expect("valid");
    assert_eq!(disk.finish(delete), Ok(SessionOutcome::Finished));
    assert_eq!(disk.load(&store, &kept.id), before);
    let load = store.load(&other.id).expect("valid");
    assert!(disk.finish(load).is_err());
    assert_eq!(disk.list(&store).sessions, vec![kept]);
}

#[test]
fn touching_never_goes_back_in_time() {
    let store = sessions();
    let mut disk = Disk { now: 50, ..Disk::default() };
    let mut metadata = disk.create(&store, "/w");
    let save = store.touch(&mut metadata, 40).expect("valid");
    assert_eq!(disk.finish(save), Ok(SessionOutcome::Finished));
    assert_eq!(metadata.updated_at, 50);
    let save = store.touch(&mut metadata, 60).expect("valid");
    assert_eq!(disk.finish(save), Ok(SessionOutcome::Finished));
    assert_eq!(disk.load(&store, &metadata.id).metadata.updated_at, 60);
    assert_eq!(metadata.created_at, 50);
    metadata.id = "/".to_owned();
    assert!(store.touch(&mut metadata, 70).is_err());
    assert_eq!(metadata.updated_at, 70);
}

#[test]
fn records_are_cut_at_line_feeds() {
    assert_eq!(split_records("a\r\n\n\r\nb\r\r\nc"), vec!["a", "b", "c"]);
    assert_eq!(split_records("a\rb\n"), vec!["a\rb"]);
    assert!(split_records("").is_empty());
    assert_eq!(record_line("x"), "x\n");
}

#[test]
fn the_clock_stops_at_the_largest_number() {
    assert_eq!(now_millis(12), 12);
    assert_eq!(now_millis(u128::MAX), u64::MAX);
}

#[test]
fn data_go_where_the_environment_says() {
    let some = |value: &str| Some(value.to_owned());
    let env = Environment {
        xdg_data_home: some("/xdg"),
        home: some("/home/me"),
        local_app_data: some("C:/Local"),
    };
    assert_eq!(data_dir(Platform::Unix, &env), Ok("/xdg/matrixcode".to_owned()));
    assert_eq!(
        data_dir(Platform::MacOs, &env),
        Ok("/home/me/Library/Application Support/MatrixCode".to_owned())
    );
    assert_eq!(data_dir(Platform::Windows, &env), Ok("C:/Local/MatrixCode".to_owned()));
    assert_eq!(data_dir(Platform::Other, &env), Ok("/home/me/.matrixcode".to_owned()));
    let env = Environment { xdg_data_home: some(""), home: some("/h"), local_app_data: None };
    assert_eq!(data_dir(Platform::Unix, &env), Ok("/h/.local/share/matrixcode".to_owned()));
    let error = data_dir(Platform::Windows, &env).expect_err("not set");
    assert_eq!(error.kind, IoErrorKind::NotFound);
    assert_eq!(error.message, "environment variable LOCALAPPDATA is not set");
    let env = Environment { xdg_data_home: None, home: some(""), local_app_data: None };
    let error = SessionStore::discover(Platform::Unix, &env).expect_err("not set");
    assert_eq!(error.message, "environment variable HOME is not set");
    let env = Environment { xdg_data_home: some("/x"), home: None, local_app_data: None };
    assert_eq!(
        SessionStore::discover(Platform::Unix, &env),
        Ok(SessionStore::new("/x/matrixcode/sessions".to_owned()))
    );
}
