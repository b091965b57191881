//! A model of the disk under the journal: what it holds, and what a request does to it.

use vstd::prelude::*;

use crate::history;
use crate::history::{HistoryState, SnapshotSide};
use crate::io::IoErrorKind;
use crate::journal;
use crate::journal::Node;
use crate::paths;

verus! {

/// What stands at a path of the workspace.
pub enum Item {
    File(Seq<u8>),
    Symlink,
    Other,
}

/// What the disk holds: the workspace by plain paths, the blobs by identifiers, the pending
/// operation, the state with its backup, and the transactions by the names of their files, with
/// their backups. A record that is there but cannot be read is damaged.
pub struct Disk {
    pub work: Map<Seq<char>, Item>,
    pub blobs: Map<Seq<char>, Seq<u8>>,
    pub pending: Option<history::PendingView>,
    pub state: Option<HistoryState>,
    pub state_damaged: bool,
    pub state_backup: Option<HistoryState>,
    pub turns: Map<Seq<char>, history::ChangeSetView>,
    pub damaged_turns: Set<Seq<char>>,
    pub turn_backups: Map<Seq<char>, history::ChangeSetView>,
}

/// That two maps hold the same for a key.
pub open spec fn same_at<V>(a: Map<Seq<char>, V>, b: Map<Seq<char>, V>, key: Seq<char>) -> bool {
    &&& a.contains_key(key) == b.contains_key(key)
    &&& a.contains_key(key) ==> a[key] == b[key]
}

/// The file to which the replacement of `path` moves the previous contents for a while.
pub open spec fn companion_of(path: Seq<char>) -> Seq<char> {
    paths::companion(path, |name: Seq<char>| paths::backup_name(name))
}

/// A file in which the replacement of `path` prepares the next contents.
pub open spec fn temporary_of(path: Seq<char>, pid: u32, counter: u64) -> Seq<char> {
    paths::companion(path, |name: Seq<char>| paths::temp_name(name, pid, counter))
}

/// That the replacement of `path` may prepare the next contents at `q`.
pub open spec fn is_temporary(path: Seq<char>, q: Seq<char>) -> bool {
    exists|pid: u32, counter: u64| q == #[trigger] temporary_of(path, pid, counter)
}

/// The paths that a replacement of the file at `path` may change besides it.
pub open spec fn beside(path: Seq<char>, q: Seq<char>) -> bool {
    paths::directories(path).contains(q) || q == companion_of(path) || is_temporary(path, q)
}

/// What is found at `path`, or at its companion where nothing is there.
pub open spec fn found_at(work: Map<Seq<char>, Item>, path: Seq<char>) -> Option<Item> {
    if work.contains_key(path) {
        Some(work[path])
    } else if work.contains_key(companion_of(path)) {
        Some(work[companion_of(path)])
    } else {
        None
    }
}

/// That a snapshot refers to a blob.
pub open spec fn refers(s: history::SnapshotView, id: Seq<char>) -> bool {
    s matches history::SnapshotView::Blob { id: x, .. } && x == id
}

/// That one of the changes refers to a blob.
pub open spec fn files_refer(files: Seq<history::FileChangeView>, id: Seq<char>) -> bool {
    exists|i: int|
        0 <= i < files.len() && (refers((#[trigger] files[i]).before, id) || refers(
            files[i].after,
            id,
        ))
}

/// That every entry of a directory could be read.
pub open spec fn all_read(entries: Seq<journal::EntryResultView>) -> bool {
    forall|i: int| 0 <= i < entries.len() ==> (#[trigger] entries[i]) is Ok
}

/// That a file of the given name is among the entries.
pub open spec fn has_file(entries: Seq<journal::EntryResultView>, name: Seq<char>) -> bool {
    exists|i: int|
        0 <= i < entries.len() && (#[trigger] entries[i]) is Ok && entries[i]->Ok_0.name == name
            && entries[i]->Ok_0.is_file
}

impl Disk {
    /// How many transactions are applied and recorded, as the journal reads it: from the state, or
    /// from its backup where the state is missing or damaged.
    pub open spec fn history_state(self) -> HistoryState {
        match (self.state, self.state_backup) {
            (Some(s), _) => s,
            (None, Some(s)) => s,
            (None, None) => HistoryState { cursor: 0, tip: 0 },
        }
    }

    /// That the state can be read, or is missing.
    pub open spec fn legible(self) -> bool {
        self.state_damaged ==> self.state is Some || self.state_backup is Some
    }

    /// The record of a transaction as the journal reads it: the record itself, or its backup where
    /// that is missing or damaged.
    pub open spec fn turn(self, id: u64) -> Option<history::ChangeSetView> {
        let name = history::turn_name(id);
        if self.turns.contains_key(name) {
            Some(self.turns[name])
        } else if self.turn_backups.contains_key(name) {
            Some(self.turn_backups[name])
        } else {
            None
        }
    }

    /// That a file of that name is among the transactions, be it damaged or not.
    pub open spec fn on_record(self, name: Seq<char>) -> bool {
        self.turns.contains_key(name) || self.damaged_turns.contains(name)
    }

    /// That nothing but the record of the given name differs among the transactions.
    pub open spec fn other_turns_stay(self, after: Disk, own: Seq<char>) -> bool {
        forall|name: Seq<char>| name != own ==> #[trigger] self.same_turn(after, name)
    }

    pub open spec fn same_turn(self, after: Disk, name: Seq<char>) -> bool {
        &&& same_at(self.turns, after.turns, name)
        &&& same_at(self.turn_backups, after.turn_backups, name)
        &&& self.damaged_turns.contains(name) == after.damaged_turns.contains(name)
    }

    /// This disk with the transactions of another.
    pub open spec fn with_turns_of(self, other: Disk) -> Disk {
        Disk {
            turns: other.turns,
            damaged_turns: other.damaged_turns,
            turn_backups: other.turn_backups,
            ..self
        }
    }

    /// That the file at a plain path is as in the snapshot.
    pub open spec fn holds(self, plain: Seq<char>, s: history::SnapshotView) -> bool {
        match s {
            history::SnapshotView::Missing => !self.work.contains_key(plain),
            history::SnapshotView::Blob { id, len } => self.holds_blob(plain, id, len),
        }
    }

    pub open spec fn holds_blob(self, plain: Seq<char>, id: Seq<char>, len: u64) -> bool {
        &&& self.work.contains_key(plain)
        &&& self.blobs.contains_key(id)
        &&& self.work[plain] == Item::File(self.blobs[id])
        &&& self.blobs[id].len() == len
    }

    /// That file `i` of an operation is as on the given side.
    pub open spec fn on_side(self, p: history::PendingView, i: int, side: SnapshotSide) -> bool {
        let change = p.change_set.files[i];
        self.holds(journal::plain_path(change.path), p.side(change, side))
    }

    /// That nothing on the disk knows an identifier.
    pub open spec fn unknown(self, id: Seq<char>) -> bool {
        &&& !self.blobs.contains_key(id)
        &&& forall|name: Seq<char>|
            self.turns.contains_key(name) ==> !files_refer(#[trigger] self.turns[name].files, id)
        &&& forall|name: Seq<char>|
            self.turn_backups.contains_key(name) ==> !files_refer(
                #[trigger] self.turn_backups[name].files,
                id,
            )
    }

    /// That `stat` says what stands at `q`, or is an error other than that nothing does.
    pub open spec fn seen(self, q: Seq<char>, stat: journal::StatView) -> bool {
        match stat {
            Ok(node) => self.work.contains_key(q) && (match (self.work[q], node) {
                (Item::File(bytes), Node::File { len }) => bytes.len() == len,
                (Item::Symlink, Node::Symlink) => true,
                (Item::Other, Node::Other) => true,
                _ => false,
            }),
            Err(e) => e.kind == IoErrorKind::NotFound ==> !self.work.contains_key(q),
        }
    }

    /// The disk `after` is this one but for its blobs.
    pub open spec fn but_for_blobs(self, after: Disk) -> bool {
        after == (Disk { blobs: after.blobs, ..self })
    }

    /// What a failed writing of the state leaves: what the file held is still to be found, in the
    /// file or aside; where the file was damaged, its backup may be lost.
    pub open spec fn state_stays(self, after: Disk) -> bool {
        match (self.state, self.state_backup) {
            (Some(s), _) => after.history_state() == s && after.legible() && (after.state is Some
                || after.state_backup is Some),
            (None, Some(s)) if !self.state_damaged => after.history_state() == s && after.legible()
                && (after.state is Some || after.state_backup is Some),
            (None, _) => after.state is None && (after.state_backup is None || after.state_backup
                == self.state_backup),
        }
    }

    /// What an installation at a path leaves of the rest of the workspace but for the companion:
    /// missing directories on the way may be there, one that failed may leave a temporary file, and
    /// nothing else changes.
    pub open spec fn installed(self, after: Disk, path: Seq<char>, done: bool) -> bool {
        &&& after == (Disk { work: after.work, ..self })
        &&& forall|q: Seq<char>|
            q != path && q != companion_of(path) ==> #[trigger] same_at(self.work, after.work, q)
                || {
                &&& !self.work.contains_key(q)
                &&& after.work.contains_key(q)
                &&& paths::directories(path).contains(q) && after.work[q] is Other || !done
                    && is_temporary(path, q) && after.work[q] is File
            }
    }

    /// What an installation at a path leaves of the companion: nothing, what was there, or what the
    /// file held.
    pub open spec fn set_aside(self, after: Disk, path: Seq<char>) -> bool {
        let companion = companion_of(path);
        ||| !after.work.contains_key(companion)
        ||| same_at(self.work, after.work, companion)
        ||| self.work.contains_key(path) && after.work[companion] == self.work[path]
    }

    /// That the request can meet with the reply and leave the disk as `after`: it does what it
    /// says, or fails. A replacement that fails leaves the previous contents to be found, in the
    /// file or aside. State and transactions can be read unless they are damaged.
    pub open spec fn performs(
        self,
        request: journal::RequestView,
        reply: journal::ReplyView,
        after: Disk,
    ) -> bool {
        match (request, reply) {
            (journal::RequestView::MakeDirectories, journal::ReplyView::Done(_)) => after == self,
            (journal::RequestView::Stat { paths }, journal::ReplyView::Stats(stats)) => {
                &&& after == self
                &&& stats.len() == paths.len()
                &&& forall|i: int|
                    0 <= i < paths.len() ==> self.seen(#[trigger] paths[i], stats[i])
            },
            (
                journal::RequestView::Compare { path, blob, len },
                journal::ReplyView::Equal(r),
            ) => {
                &&& after == self
                &&& r matches Ok(equal) ==> equal == self.holds_blob(path, blob, len)
            },
            (
                journal::RequestView::CopyToBlob { path, blob },
                journal::ReplyView::Done(r),
            ) => match r {
                Ok(_) => {
                    &&& self.work.contains_key(path)
                    &&& self.work[path] is File
                    &&& after == (Disk {
                        blobs: self.blobs.insert(blob, self.work[path]->File_0),
                        ..self
                    })
                },
                Err(_) => after == self || after == (Disk {
                    blobs: self.blobs.insert(blob, after.blobs[blob]),
                    ..self
                }),
            },
            (
                journal::RequestView::StoreBlob { blob, bytes },
                journal::ReplyView::Done(r),
            ) => if r is Ok {
                after == (Disk { blobs: self.blobs.insert(blob, bytes), ..self })
            } else {
                self.but_for_blobs(after) && self.blobs.submap_of(after.blobs)
            },
            (journal::RequestView::Install { blob, path }, journal::ReplyView::Done(r)) => {
                &&& self.installed(after, path, r is Ok)
                &&& self.set_aside(after, path)
                &&& if r is Ok {
                    &&& self.blobs.contains_key(blob)
                    &&& after.work.contains_key(path)
                    &&& after.work[path] == Item::File(self.blobs[blob])
                } else {
                    found_at(after.work, path) == found_at(self.work, path)
                }
            },
            (journal::RequestView::RemoveWork { path }, journal::ReplyView::Done(r)) => match r {
                Ok(_) => after == (Disk { work: self.work.remove(path), ..self }),
                Err(e) => {
                    &&& after == self
                    &&& e.kind == IoErrorKind::NotFound ==> !self.work.contains_key(path)
                },
            },
            (journal::RequestView::Discard { blobs }, _) => {
                &&& self.but_for_blobs(after)
                &&& forall|id: Seq<char>|
                    !blobs.contains(id) ==> #[trigger] same_at(self.blobs, after.blobs, id)
                &&& forall|id: Seq<char>| #[trigger]
                    after.blobs.contains_key(id) ==> same_at(self.blobs, after.blobs, id)
            },
            (journal::RequestView::NewBlobId, journal::ReplyView::BlobId(id)) => {
                &&& after == self
                &&& self.unknown(id)
            },
            (journal::RequestView::ReadPending, journal::ReplyView::Pending(r)) => {
                &&& after == self
                &&& match r {
                    Ok(p) => self.pending == Some(p),
                    Err(e) => e.kind == IoErrorKind::NotFound <==> self.pending is None,
                }
            },
            (journal::RequestView::WritePending(p), journal::ReplyView::Done(r)) => if r is Ok {
                after == (Disk { pending: Some(p), ..self })
            } else {
                after == self || after == (Disk { pending: None, ..self })
            },
            (journal::RequestView::RemovePending, journal::ReplyView::Done(r)) => match r {
                Ok(_) => after == (Disk { pending: None, ..self }),
                Err(e) => after == self && (e.kind == IoErrorKind::NotFound
                    ==> self.pending is None),
            },
            (journal::RequestView::ReadState { backup }, journal::ReplyView::State(r)) => {
                let kept = if backup {
                    self.state_backup
                } else {
                    self.state
                };
                &&& after == self
                &&& match r {
                    Ok(s) => kept == Some(s),
                    Err(e) => kept is None && (backup || (e.kind == IoErrorKind::NotFound
                        <==> !self.state_damaged)),
                }
            },
            (journal::RequestView::WriteState(s), journal::ReplyView::Done(r)) => {
                &&& after == (Disk {
                    state: after.state,
                    state_damaged: after.state_damaged,
                    state_backup: after.state_backup,
                    ..self
                })
                &&& if r is Ok {
                    &&& after.state == Some(s)
                    &&& !after.state_damaged
                    &&& self.state is Some ==> after.state_backup == self.state
                } else {
                    self.state_stays(after)
                }
            },
            (journal::RequestView::ReadTurn { id, backup }, journal::ReplyView::Turn(r)) => {
                let name = history::turn_name(id);
                let kept = if backup {
                    self.turn_backups
                } else {
                    self.turns
                };
                &&& after == self
                &&& match r {
                    Ok(c) => kept.contains_key(name) && kept[name] == c,
                    Err(e) => !kept.contains_key(name) && (backup || (e.kind
                        == IoErrorKind::NotFound <==> !self.damaged_turns.contains(name))),
                }
            },
            (journal::RequestView::WriteTurn(c), journal::ReplyView::Done(r)) => {
                let name = history::turn_name(c.id);
                &&& after == self.with_turns_of(after)
                &&& self.other_turns_stay(after, name)
                &&& r is Ok ==> {
                    &&& after.turns == self.turns.insert(name, c)
                    &&& !after.damaged_turns.contains(name)
                }
            },
            (journal::RequestView::ListTurns, journal::ReplyView::Turns(r)) => {
                &&& after == self
                &&& match r {
                    Ok(entries) => all_read(entries) ==> forall|name: Seq<char>| #[trigger]
                        self.on_record(name) ==> has_file(entries, name),
                    Err(e) => e.kind == IoErrorKind::NotFound ==> forall|name: Seq<char>|
                        !(#[trigger] self.on_record(name)),
                }
            },
            (journal::RequestView::ReadTurnFile { name }, journal::ReplyView::Turn(r)) => {
                &&& after == self
                &&& r matches Ok(c) ==> self.turns.contains_key(name) && self.turns[name] == c
            },
            (
                journal::RequestView::RemoveTurnFile { name },
                journal::ReplyView::Done(r),
            ) => match r {
                Ok(_) => after == (Disk {
                    turns: self.turns.remove(name),
                    damaged_turns: self.damaged_turns.remove(name),
                    ..self
                }),
                Err(e) => after == self && (e.kind == IoErrorKind::NotFound
                    ==> !self.on_record(name)),
            },
            _ => false,
        }
    }
}

} // verus!
