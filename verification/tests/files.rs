use std::collections::BTreeMap;

use matrixcode::fsutil::{
    atomic_copy, atomic_replace, atomic_write_json, atomic_write_json_durable, files_equal,
    read_json_with_backup, write_new_file, CompareReply, CompareRequest, Comparison, Metadata,
    CHUNK,
};
use matrixcode::io::{IoError, IoErrorKind};
use matrixcode::numbers;
use matrixcode::paths::{self, backup_path, Platform};
use matrixcode::replacement::{FileReply, FileRequest, Replacement};
use matrixcode::session_store::atomic_write;

const UNIX: Platform = Platform::Unix;

#[derive(Clone, Default)]
struct Disk {
    files: BTreeMap<String, Vec<u8>>,
    fail: Vec<String>,
    trace: Vec<String>,
}

fn name(request: &FileRequest) -> String {
    match request {
        FileRequest::CreateDirectories { path } => format!("mkdir {path}"),
        FileRequest::CreateNew { path } => format!("create {path}"),
        FileRequest::Fill { path } => format!("fill {path}"),
        FileRequest::Exists { path } => format!("exists {path}"),
        FileRequest::Remove { path } => format!("remove {path}"),
        FileRequest::Rename { from, to } => format!("rename {from} {to}"),
        FileRequest::Copy { from, to } => format!("copy {from} {to}"),
        FileRequest::SyncDirectory { path } => format!("sync {path}"),
    }
}

impl Disk {
    fn perform(&mut self, request: FileRequest, contents: &[u8]) -> FileReply {
        let label = name(&request);
        self.trace.push(label.clone());
        if self.fail.contains(&label) {
            return FileReply::Done(Err(IoError::new(IoErrorKind::Other, "broken")));
        }
        match request {
            FileRequest::CreateDirectories { .. } | FileRequest::SyncDirectory { .. } => {
                FileReply::Done(Ok(()))
            }
            FileRequest::CreateNew { path } => {
                assert!(self.files.insert(path, Vec::new()).is_none());
                FileReply::Done(Ok(()))
            }
            FileRequest::Fill { path } => {
                self.files.insert(path, contents.to_vec());
                FileReply::Done(Ok(()))
            }
            FileRequest::Exists { path } => FileReply::Exists(self.files.contains_key(&path)),
            FileRequest::Remove { path } => FileReply::Done(match self.files.remove(&path) {
                Some(_) => Ok(()),
                None => Err(IoError::new(IoErrorKind::NotFound, "missing")),
            }),
            FileRequest::Rename { from, to } => {
                let bytes = self.files.remove(&from).expect("the file to rename");
                self.files.insert(to, bytes);
                FileReply::Done(Ok(()))
            }
            FileRequest::Copy { from, to } => {
                let bytes = self.files[&from].clone();
                self.files.insert(to, bytes);
                FileReply::Done(Ok(()))
            }
        }
    }

    fn replace(&mut self, replacement: Replacement, contents: &[u8]) -> Result<(), IoError> {
        let mut replacement = replacement;
        while let Some(request) = replacement.request() {
            assert!(replacement.outcome().is_none());
            let reply = self.perform(request, contents);
            replacement = replacement.resume(reply);
        }
        replacement.outcome().expect("an end")
    }

    fn read(&self, path: &str) -> Result<u64, IoError> {
        let bytes = self
            .files
            .get(path)
            .ok_or_else(|| IoError::new(IoErrorKind::NotFound, "missing"))?;
        serde_json::from_slice(bytes)
            .map_err(|e| IoError::new(IoErrorKind::InvalidData, &e.to_string()))
    }
}

#[test]
fn durable_json_keeps_recovery_copy() {
    let mut disk = Disk::default();
    let path = "/tmp/state.json";
    let bytes = serde_json::to_vec(&41_u64).expect("serialise");
    disk.replace(atomic_write_json_durable(UNIX, path, 7, 0).expect("start"), &bytes)
        .expect("write state");
    assert!(disk.files.contains_key(&backup_path(UNIX, path)));
    disk.files.insert(path.to_owned(), b"broken".to_vec());
    let read = read_json_with_backup(disk.read(path), disk.read(&backup_path(UNIX, path)));
    assert_eq!(read.expect("recover"), 41);
}

#[test]
fn atomic_copy_does_not_leave_backup_in_workspace() {
    let mut disk = Disk::default();
    disk.files.insert("/tmp/destination".to_owned(), b"old".to_vec());
    disk.replace(atomic_copy(UNIX, "/tmp/destination", 7, 0).expect("start"), b"new")
        .expect("atomic copy");
    assert_eq!(disk.files["/tmp/destination"], b"new");
    assert!(!disk.files.contains_key(&backup_path(UNIX, "/tmp/destination")));
    assert_eq!(disk.files.len(), 1);
}

#[test]
fn backup_names_include_full_file_name() {
    let json = backup_path(UNIX, "/tmp/same.json");
    let text = backup_path(UNIX, "/tmp/same.txt");
    assert_ne!(json, text);
}

#[test]
fn a_plain_write_keeps_nothing() {
    let mut disk = Disk::default();
    for (counter, text) in [b"1", b"2"].into_iter().enumerate() {
        let start = atomic_write_json(UNIX, "/d/pending.json", 7, counter as u64).expect("start");
        disk.replace(start, text).expect("write");
        assert_eq!(disk.files["/d/pending.json"], text);
        assert_eq!(disk.files.len(), 1);
    }
}

#[test]
fn companions_stand_beside_their_file() {
    assert_eq!(backup_path(UNIX, "/tmp/same.json"), "/tmp/.same.json.bak");
    assert_eq!(backup_path(UNIX, "file"), ".file.bak");
    assert_eq!(paths::temp_path(UNIX, "/tmp/same.json", 12, 3), "/tmp/.same.json.tmp-12-3");
    assert_eq!(backup_path(UNIX, "/"), "./.matrixcode.bak");
    assert_eq!(backup_path(UNIX, "a/.."), "a/.matrixcode.bak");
}

#[test]
fn backups_on_windows_lie_beside_the_file_too() {
    let backup = |path: &str| backup_path(Platform::Windows, path);
    assert_eq!(backup(r"C:\tmp\same.json"), "C:/tmp/.same.json.bak");
    assert_eq!(backup("C:/tmp/same.json"), "C:/tmp/.same.json.bak");
    assert_eq!(backup(r"a\b"), "a/.b.bak");
    assert_eq!(backup("file"), ".file.bak");
    assert_eq!(backup(r"C:\file"), "C:/.file.bak");
    assert_eq!(backup("C:file"), "C:.file.bak");
    assert_eq!(backup("C:"), "./.matrixcode.bak");
    assert_eq!(backup(r"C:\"), "./.matrixcode.bak");
    assert_eq!(backup(r"\file"), "/.file.bak");
    assert_eq!(backup(r"\\server\share\file"), "//server/share/.file.bak");
    assert_eq!(backup(r"\\server\share"), "./.matrixcode.bak");
    assert_eq!(backup(r"\\server"), "/.server.bak");
    assert_eq!(backup(r"\\.\device\file"), "//./device/.file.bak");
    assert_eq!(backup(r"\\?\C:\d\file"), "//?/C:/d/.file.bak");
    assert_eq!(backup(r"\\?\C:"), "./.matrixcode.bak");
    assert_eq!(backup(r"\\?\UNC\server\share\file"), "//?/UNC/server/share/.file.bak");
    assert_eq!(backup(r"\\?\volume\file"), "//?/volume/.file.bak");
    assert_eq!(backup_path(UNIX, r"a\b"), r".a\b.bak");
    assert_eq!(
        paths::temp_path(Platform::Windows, r"C:\d\f", 12, 3),
        "C:/d/.f.tmp-12-3"
    );
    assert_eq!(paths::parent_path(Platform::Windows, r"C:\d\f"), Some("C:/d".to_owned()));
    assert_eq!(paths::parent_path(Platform::Windows, "C:f"), Some("C:".to_owned()));
    assert_eq!(paths::parent_path(Platform::Windows, r"C:\"), None);
}

#[test]
fn files_on_windows_are_replaced_under_their_own_names() {
    let mut disk = Disk::default();
    disk.files.insert("C:/d/f".to_owned(), b"old".to_vec());
    let start = atomic_replace(Platform::Windows, r"C:\d\f", true, 1, 2).expect("start");
    disk.replace(start, b"new").expect("replace");
    assert_eq!(disk.files.get("C:/d/f"), Some(&b"new".to_vec()));
    assert_eq!(disk.files.get("C:/d/.f.bak"), Some(&b"old".to_vec()));
    assert_eq!(disk.files.len(), 2);
    assert!(atomic_replace(Platform::Windows, r"C:\", false, 1, 2).is_err());
}

#[test]
fn a_replacement_moves_the_previous_contents_aside() {
    let mut disk = Disk::default();
    disk.files.insert("/d/f".to_owned(), b"old".to_vec());
    disk.replace(atomic_replace(UNIX, "/d/f", true, 1, 2).expect("start"), b"new")
        .expect("replace");
    assert_eq!(
        disk.trace,
        vec![
            "mkdir /d",
            "create /d/.f.tmp-1-2",
            "fill /d/.f.tmp-1-2",
            "exists /d/f",
            "remove /d/.f.bak",
            "rename /d/f /d/.f.bak",
            "rename /d/.f.tmp-1-2 /d/f",
            "sync /d",
        ]
    );
    assert_eq!(disk.files["/d/f"], b"new");
    assert_eq!(disk.files["/d/.f.bak"], b"old");
    assert_eq!(disk.files.len(), 2);
}

#[test]
fn a_first_durable_write_copies_itself() {
    let mut disk = Disk::default();
    disk.replace(atomic_replace(UNIX, "/d/f", true, 1, 2).expect("start"), b"new")
        .expect("replace");
    assert_eq!(disk.files["/d/.f.bak"], b"new");
    assert_eq!(disk.trace[4], "rename /d/.f.tmp-1-2 /d/f");
    assert_eq!(disk.trace[5], "copy /d/f /d/.f.bak");
}

#[test]
fn readers_find_old_or_new_contents_at_every_moment() {
    let labels = [
        "",
        "mkdir /d",
        "create /d/.f.tmp-1-2",
        "fill /d/.f.tmp-1-2",
        "remove /d/.f.bak",
        "rename /d/f /d/.f.bak",
        "rename /d/.f.tmp-1-2 /d/f",
        "rename /d/.f.bak /d/f",
        "sync /d",
    ];
    for first in labels {
        for second in labels {
            let mut disk = Disk::default();
            disk.files.insert("/d/f".to_owned(), b"old".to_vec());
            disk.fail = vec![first.to_owned(), second.to_owned()];
            let mut replacement = atomic_replace(UNIX, "/d/f", false, 1, 2).expect("start");
            while let Some(request) = replacement.request() {
                let reply = disk.perform(request, b"new");
                replacement = replacement.resume(reply);
                let found = disk.files.get("/d/f").or_else(|| disk.files.get("/d/.f.bak"));
                assert!(found == Some(&b"old".to_vec()) || found == Some(&b"new".to_vec()));
            }
            let found = disk.files.get("/d/f").or_else(|| disk.files.get("/d/.f.bak"));
            if replacement.outcome().expect("an end").is_ok() {
                assert_eq!(found, Some(&b"new".to_vec()));
            } else {
                assert_eq!(found, Some(&b"old".to_vec()));
            }
        }
    }
}

#[test]
fn a_failed_move_is_taken_back() {
    let mut disk = Disk::default();
    disk.files.insert("/d/f".to_owned(), b"old".to_vec());
    disk.fail.push("rename /d/.f.tmp-1-2 /d/f".to_owned());
    let error = disk
        .replace(atomic_replace(UNIX, "/d/f", false, 1, 2).expect("start"), b"new")
        .expect_err("the move fails");
    assert_eq!(error.message, "broken");
    assert_eq!(disk.files["/d/f"], b"old");
    assert_eq!(disk.files.len(), 1);
}

#[test]
fn a_new_file_appears_complete() {
    let mut disk = Disk::default();
    disk.replace(write_new_file(UNIX, "/d/b-1", 1, 2).expect("start"), b"blob").expect("write");
    assert_eq!(disk.files["/d/b-1"], b"blob");
    assert_eq!(disk.files.len(), 1);
    let mut disk = Disk::default();
    disk.fail.push("fill /d/.b-1.tmp-1-2".to_owned());
    assert!(disk.replace(write_new_file(UNIX, "/d/b-1", 1, 2).expect("start"), b"blob").is_err());
    assert!(disk.files.is_empty());
    let mut disk = Disk::default();
    disk.fail.push("rename /d/.b-1.tmp-1-2 /d/b-1".to_owned());
    assert!(disk.replace(write_new_file(UNIX, "/d/b-1", 1, 2).expect("start"), b"blob").is_err());
    assert!(disk.files.is_empty());
}

#[test]
fn a_path_without_a_parent_is_refused() {
    let error = atomic_replace(UNIX, "/", false, 1, 2).expect_err("no parent");
    assert_eq!(error.kind, IoErrorKind::InvalidInput);
    assert_eq!(error.message, "path has no parent");
    assert!(write_new_file(UNIX, "", 1, 2).is_err());
}

#[test]
fn metadata_are_replaced_with_a_backup_of_their_own() {
    let mut disk = Disk::default();
    disk.files.insert("/s/meta.json".to_owned(), b"old".to_vec());
    disk.replace(atomic_write("/s", 1, 2).expect("start"), b"new").expect("write");
    assert!(disk.trace.contains(&"rename /s/meta.json /s/meta.bak".to_owned()));
    assert_eq!(disk.files["/s/meta.json"], b"new");
    assert_eq!(disk.files.len(), 1);
    disk.fail.push("fill /s/.meta.json.tmp-1-3".to_owned());
    assert!(disk.replace(atomic_write("/s", 1, 3).expect("start"), b"newer").is_err());
    assert!(disk.files.contains_key("/s/.meta.json.tmp-1-3"));
    assert_eq!(disk.files["/s/meta.json"], b"new");
}

#[test]
fn a_reply_that_does_not_fit_is_refused() {
    let replacement = atomic_replace(UNIX, "/d/f", false, 1, 2).expect("start");
    let replacement = replacement.resume(FileReply::Exists(true));
    let error = replacement.outcome().expect("an end").expect_err("refused");
    assert_eq!(error.message, "unexpected reply");
}

#[test]
fn the_error_of_the_file_counts() {
    let error = |message: &str| IoError::new(IoErrorKind::InvalidData, message);
    let read = read_json_with_backup::<u64>(Err(error("file")), Err(error("backup")));
    assert_eq!(read.expect_err("neither").message, "file");
    assert_eq!(read_json_with_backup(Ok(1), Ok(2)).expect("the file"), 1);
    assert_eq!(read_json_with_backup(Err(error("file")), Ok(2)).expect("the backup"), 2);
}

fn compared(left: Option<&[u8]>, right: Option<&[u8]>, len: u64) -> Result<bool, IoError> {
    let metadata = |file: Option<&[u8]>| match file {
        Some(bytes) => Ok(Metadata { is_file: true, len: bytes.len() as u64 }),
        None => Err(IoError::new(IoErrorKind::NotFound, "missing")),
    };
    let mut comparison = files_equal(len);
    let mut left_at = 0;
    let mut right_at = 0;
    let next = |file: Option<&[u8]>, at: &mut usize| {
        let bytes = file.expect("an open file");
        let end = (*at + CHUNK).min(bytes.len());
        let chunk = bytes[*at..end].to_vec();
        *at = end;
        CompareReply::Bytes(Ok(chunk))
    };
    loop {
        let reply = match comparison.request() {
            Some(CompareRequest::LeftMetadata) => CompareReply::Metadata(metadata(left)),
            Some(CompareRequest::RightMetadata) => CompareReply::Metadata(metadata(right)),
            Some(CompareRequest::Open) => CompareReply::Opened(Ok(())),
            Some(CompareRequest::ReadLeft) => next(left, &mut left_at),
            Some(CompareRequest::ReadRight) => next(right, &mut right_at),
            None => break,
        };
        comparison = comparison.resume(reply);
    }
    match comparison {
        Comparison::Done(result) => result,
        other => panic!("unexpected end {other:?}"),
    }
}

#[test]
fn files_are_equal_if_their_bytes_are() {
    assert_eq!(compared(Some(b"abc"), Some(b"abc"), 3), Ok(true));
    assert_eq!(compared(Some(b""), Some(b""), 0), Ok(true));
    assert_eq!(compared(Some(b"abc"), Some(b"abd"), 3), Ok(false));
    assert_eq!(compared(Some(b"abc"), Some(b"abc"), 4), Ok(false));
    assert_eq!(compared(Some(b"abc"), Some(b"ab"), 3), Ok(false));
    assert_eq!(compared(None, Some(b"abc"), 3), Ok(false));
    assert_eq!(compared(Some(b"abc"), None, 3).expect_err("no blob").kind, IoErrorKind::NotFound);
    let long = vec![7; CHUNK + 10];
    let mut other = long.clone();
    assert_eq!(compared(Some(&long), Some(&other), long.len() as u64), Ok(true));
    other[CHUNK + 5] = 8;
    assert_eq!(compared(Some(&long), Some(&other), long.len() as u64), Ok(false));
}

#[test]
fn a_directory_equals_nothing() {
    let comparison = files_equal(0)
        .resume(CompareReply::Metadata(Ok(Metadata { is_file: false, len: 0 })))
        .resume(CompareReply::Metadata(Ok(Metadata { is_file: true, len: 0 })));
    assert!(matches!(comparison, Comparison::Done(Ok(false))));
}

#[test]
fn paths_are_joined_and_cut() {
    assert_eq!(paths::join("/a", "b"), "/a/b");
    assert_eq!(paths::join("/a/", "b"), "/a/b");
    assert_eq!(paths::join("", "b"), "b");
    assert_eq!(paths::join("/a", "/b"), "/b");
    assert_eq!(paths::parent("/a/b"), Some("/a".to_owned()));
    assert_eq!(paths::parent("/a"), Some("/".to_owned()));
    assert_eq!(paths::parent("a"), Some(String::new()));
    assert_eq!(paths::parent("/"), None);
    assert_eq!(paths::parent(""), None);
    assert_eq!(paths::file_name("/a/b.c/"), Some("b.c".to_owned()));
    assert_eq!(paths::file_name("a/.."), None);
    assert_eq!(paths::list_ancestry("a/b/c"), vec!["a", "a/b", "a/b/c"]);
    assert_eq!(paths::split_parts("a//b"), vec!["a", "", "b"]);
}

#[test]
fn numbers_are_written_and_read() {
    assert_eq!(numbers::to_decimal(0), "0");
    assert_eq!(numbers::to_decimal(u64::MAX), "18446744073709551615");
    assert_eq!(numbers::to_hexadecimal(0xdead_beef), "deadbeef");
    assert_eq!(numbers::parse_u64("007"), Some(7));
    assert_eq!(numbers::parse_u64("+7"), Some(7));
    assert_eq!(numbers::parse_u64("-7"), None);
    assert_eq!(numbers::parse_u64("+"), None);
    assert_eq!(numbers::parse_u64(""), None);
    assert_eq!(numbers::parse_u64("18446744073709551616"), None);
}
