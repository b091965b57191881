//! That a replacement, carried out step by step, does to the disk what the models of the disk say
//! of it.

use vstd::prelude::*;

use crate::atomicity;
use crate::atomicity::{Files, Moment};
use crate::disk;
use crate::history;
use crate::history::SnapshotSide;
use crate::io;
use crate::journal;
use crate::numbers;
use crate::paths;
use crate::paths::Platform;
use crate::progress;
use crate::recovery;
use crate::replacement;
use crate::replacement::Rules;
use crate::session;
use crate::session_laws;
use crate::session_store;

verus! {

/// What a replacement is given, and what comes of it.
pub struct Carried {
    pub platform: Platform,
    pub path: Seq<char>,
    pub backup: Seq<char>,
    pub rules: Rules,
    pub pid: u32,
    pub counter: u64,
    /// What the temporary file is filled with.
    pub new: Seq<u8>,
    pub moments: Seq<Moment>,
    pub outcome: Result<(), io::IoErrorView>,
}

impl Carried {
    /// That the moments are those of a replacement, at a path that slashes part on every platform,
    /// from its beginning to its end.
    pub open spec fn ends(self) -> bool {
        &&& paths::is_plain_on(self.platform, self.path)
        &&& atomicity::is_replacement(
            self.platform,
            self.path,
            self.backup,
            self.rules,
            self.pid,
            self.counter,
            self.new,
            self.moments,
        )
        &&& self.moments.last().it.stage == replacement::FileStageView::Done(self.outcome)
    }

    /// That the file system has not failed on the way.
    pub open spec fn smooth(self) -> bool {
        atomicity::smooth(
            self.platform,
            self.path,
            self.backup,
            self.rules,
            self.pid,
            self.counter,
            self.new,
            self.moments,
        )
    }

    pub open spec fn first(self) -> Files {
        self.moments[0].files
    }

    pub open spec fn last(self) -> Files {
        self.moments.last().files
    }

    pub open spec fn temp(self) -> Seq<char> {
        disk::temporary_of(self.path, self.pid, self.counter)
    }
}

/// The rules of a replacement that leaves no backup.
pub open spec fn plainly() -> Rules {
    Rules { replaces: true, keeps_backup: false, tidies: true }
}

/// The rules of a replacement that keeps a backup.
pub open spec fn durably() -> Rules {
    Rules { replaces: true, keeps_backup: true, tidies: true }
}

/// The rules of the writing of a file that was not there.
pub open spec fn newly() -> Rules {
    Rules { replaces: false, keeps_backup: false, tidies: true }
}

/// The companion and the temporary file of a plain path are those of the model.
proof fn lemma_plain(c: Carried)
    requires
        paths::is_plain_on(c.platform, c.path),
    ensures
        paths::companion_on(c.platform, c.path, |name: Seq<char>| paths::backup_name(name))
            == disk::companion_of(c.path),
        paths::companion_on(
            c.platform,
            c.path,
            |name: Seq<char>| paths::temp_name(name, c.pid, c.counter),
        ) == c.temp(),
        disk::companion_of(c.path) != c.path,
        c.temp() != c.path,
        c.temp() != disk::companion_of(c.path),
{
    paths::lemma_companions_differ(c.path, c.pid, c.counter);
    paths::plain_paths_have_the_same_companions(
        c.platform,
        c.path,
        |name: Seq<char>| paths::backup_name(name),
    );
    paths::plain_paths_have_the_same_companions(
        c.platform,
        c.path,
        |name: Seq<char>| paths::temp_name(name, c.pid, c.counter),
    );
}

proof fn lemma_end(c: Carried)
    requires
        c.ends(),
        c.backup == disk::companion_of(c.path),
    ensures
        atomicity::three_files(c.moments[0].it),
        c.moments.last().it == c.moments[0].it.at(replacement::FileStageView::Done(c.outcome)),
        c.moments[0].it.path == c.path,
        c.moments[0].it.backup == c.backup,
        c.moments[0].it.temp == c.temp(),
        c.moments[0].it.rules == c.rules,
        atomicity::sound(c.first(), c.new, c.last(), c.moments.last().it),
{
    lemma_plain(c);
    atomicity::lemma_run(
        c.platform,
        c.path,
        c.backup,
        c.rules,
        c.pid,
        c.counter,
        c.new,
        c.moments,
        c.moments.len() - 1,
    );
}

// ---------------------------------------------------------------------------------------------
// The workspace

/// That `files` are the files of the workspace.
pub open spec fn shows(work: Map<Seq<char>, disk::Item>, files: Files) -> bool {
    forall|q: Seq<char>|
        (#[trigger] files.contains_key(q) <==> work.contains_key(q) && work[q] is File) && (
        files.contains_key(q) ==> work[q] == disk::Item::File(files[q]))
}

/// That a file or nothing stands at the path of a replacement, its backup and its temporary file.
pub open spec fn free(work: Map<Seq<char>, disk::Item>, c: Carried) -> bool {
    &&& work.contains_key(c.path) ==> work[c.path] is File
    &&& work.contains_key(c.backup) ==> work[c.backup] is File
    &&& work.contains_key(c.temp()) ==> work[c.temp()] is File
}

/// What becomes of what is no file: it stays, and missing directories on the way to `path` are
/// made.
pub open spec fn way_made(
    work: Map<Seq<char>, disk::Item>,
    after: Map<Seq<char>, disk::Item>,
    path: Seq<char>,
    q: Seq<char>,
) -> bool {
    &&& work.contains_key(q) && !(work[q] is File) ==> disk::same_at(work, after, q)
    &&& after.contains_key(q) && !(after[q] is File) ==> disk::same_at(work, after, q) || (
    !work.contains_key(q) && paths::directories(path).contains(q) && after[q] is Other)
}

/// A replacement in the workspace does what the model says of an installation, where neither a
/// directory nor a link stands at the file, its companion or its temporary file.
pub proof fn replacements_perform_installations(
    d: disk::Disk,
    v: disk::Disk,
    blob: Seq<char>,
    c: Carried,
)
    requires
        c.ends(),
        c.backup == disk::companion_of(c.path),
        c.rules == plainly(),
        c.outcome is Ok ==> d.blobs.contains_key(blob) && d.blobs[blob] == c.new,
        v == (disk::Disk { work: v.work, ..d }),
        shows(d.work, c.first()),
        shows(v.work, c.last()),
        free(d.work, c),
        free(v.work, c),
        forall|q: Seq<char>| #[trigger] way_made(d.work, v.work, c.path, q),
    ensures
        d.performs(
            journal::RequestView::Install { blob, path: c.path },
            journal::ReplyView::Done(c.outcome),
            v,
        ),
        c.smooth() ==> c.outcome is Ok && !v.work.contains_key(c.backup),
{
    let it = c.moments.last().it;
    let path = c.path;
    lemma_end(c);
    assert(c.first().contains_key(path) <==> d.work.contains_key(path));
    assert(c.last().contains_key(path) <==> v.work.contains_key(path));
    assert(c.first().contains_key(c.backup) <==> d.work.contains_key(c.backup));
    assert(c.last().contains_key(c.backup) <==> v.work.contains_key(c.backup));
    assert forall|q: Seq<char>| q != path && q != c.backup implies #[trigger] disk::same_at(
        d.work,
        v.work,
        q,
    ) || {
        &&& !d.work.contains_key(q)
        &&& v.work.contains_key(q)
        &&& paths::directories(path).contains(q) && v.work[q] is Other || !(c.outcome is Ok)
            && disk::is_temporary(path, q) && v.work[q] is File
    } by {
        assert(way_made(d.work, v.work, path, q));
        assert(c.first().contains_key(q) <==> d.work.contains_key(q) && d.work[q] is File);
        assert(c.last().contains_key(q) <==> v.work.contains_key(q) && v.work[q] is File);
        if q == c.temp() {
            assert(q == disk::temporary_of(path, c.pid, c.counter));
        }
    }
    if c.smooth() {
        lemma_plain(c);
        atomicity::undisturbed_replacements_succeed(
            c.platform,
            path,
            false,
            c.pid,
            c.counter,
            c.new,
            c.moments,
            c.moments.len() - 1,
        );
    }
}

/// At every moment within an installation, whatever fails, what the file held before or what it
/// is to hold is found in the file or aside. As long as the file is in place, all files of the
/// operation are on its sides, so that it can be recovered from an interruption; where the file is
/// moved away, what it held is aside.
pub proof fn interrupted_installations_lose_nothing(
    d: disk::Disk,
    v: disk::Disk,
    p: history::PendingView,
    index: int,
    c: Carried,
    i: int,
)
    requires
        0 <= index < p.change_set.files.len(),
        progress::separate(p),
        recovery::all_on_a_side(d, p),
        d.on_side(p, index, SnapshotSide::Expected),
        p.side(
            p.change_set.files[index],
            SnapshotSide::Desired,
        ) matches history::SnapshotView::Blob { id, len } && d.blobs.contains_key(id)
            && d.blobs[id] == c.new && c.new.len() == len,
        c.path == progress::place(p, index),
        c.backup == disk::companion_of(c.path),
        c.rules == plainly(),
        paths::is_plain_on(c.platform, c.path),
        atomicity::is_replacement(
            c.platform,
            c.path,
            c.backup,
            c.rules,
            c.pid,
            c.counter,
            c.new,
            c.moments,
        ),
        0 <= i < c.moments.len(),
        v == (disk::Disk { work: v.work, ..d }),
        shows(d.work, c.first()),
        shows(v.work, c.moments[i].files),
        free(d.work, c),
        free(v.work, c),
        forall|q: Seq<char>| #[trigger] way_made(d.work, v.work, c.path, q),
    ensures
        ({
            let held = disk::found_at(d.work, c.path);
            let found = disk::found_at(v.work, c.path);
            &&& found == held || found == Some(disk::Item::File(c.new))
            &&& (if d.work.contains_key(c.path) {
                v.work.contains_key(c.path)
            } else {
                !d.work.contains_key(c.backup)
            }) ==> recovery::all_on_a_side(v, p)
        }),
{
    let path = c.path;
    let now = c.moments[i].files;
    lemma_plain(c);
    atomicity::replacements_are_atomic(
        c.platform,
        path,
        false,
        c.pid,
        c.counter,
        c.new,
        c.moments,
        i,
    );
    assert(c.first().contains_key(path) <==> d.work.contains_key(path));
    assert(now.contains_key(path) <==> v.work.contains_key(path));
    assert(c.first().contains_key(c.backup) <==> d.work.contains_key(c.backup));
    assert(now.contains_key(c.backup) <==> v.work.contains_key(c.backup));
    assert forall|j: int| 0 <= j < p.change_set.files.len() && j != index implies
        #[trigger] recovery::on_a_side(v, p, j) by {
        let q = progress::place(p, j);
        assert(progress::apart(progress::place(p, j), progress::place(p, index)));
        assert(recovery::on_a_side(d, p, j));
        assert(c.temp() == disk::temporary_of(path, c.pid, c.counter));
        assert(disk::is_temporary(path, c.temp()));
        assert(way_made(d.work, v.work, path, q));
        assert(c.first().contains_key(q) <==> d.work.contains_key(q) && d.work[q] is File);
        assert(now.contains_key(q) <==> v.work.contains_key(q) && v.work[q] is File);
        assert(disk::same_at(d.work, v.work, q));
        assert(d.on_side(p, j, SnapshotSide::Expected) == v.on_side(p, j, SnapshotSide::Expected));
        assert(d.on_side(p, j, SnapshotSide::Desired) == v.on_side(p, j, SnapshotSide::Desired));
    }
    if v.work.contains_key(path) && (d.work.contains_key(path) || !d.work.contains_key(c.backup)) {
        assert(v.on_side(p, index, SnapshotSide::Expected) || v.on_side(
            p,
            index,
            SnapshotSide::Desired,
        ));
        assert(recovery::on_a_side(v, p, index));
    } else if !v.work.contains_key(path) && !d.work.contains_key(path) {
        assert(v.on_side(p, index, SnapshotSide::Expected));
        assert(recovery::on_a_side(v, p, index));
    }
}

// ---------------------------------------------------------------------------------------------
// The records of the journal

/// What a file records, as `decode` reads it; nothing where it is not there.
pub open spec fn recorded<T>(
    files: Files,
    path: Seq<char>,
    decode: spec_fn(Seq<u8>) -> Option<T>,
) -> Option<T> {
    if files.contains_key(path) {
        decode(files[path])
    } else {
        None
    }
}

/// That a file can be read if it is there.
pub open spec fn legible<T>(
    files: Files,
    path: Seq<char>,
    decode: spec_fn(Seq<u8>) -> Option<T>,
) -> bool {
    files.contains_key(path) ==> decode(files[path]) is Some
}

/// That a file is there but cannot be read.
pub open spec fn damaged<T>(
    files: Files,
    path: Seq<char>,
    decode: spec_fn(Seq<u8>) -> Option<T>,
) -> bool {
    files.contains_key(path) && decode(files[path]) is None
}

/// A durable replacement of the state does what the model says of the writing of the state.
pub proof fn replacements_write_the_state(
    d: disk::Disk,
    v: disk::Disk,
    s: history::HistoryState,
    decode: spec_fn(Seq<u8>) -> Option<history::HistoryState>,
    c: Carried,
)
    requires
        c.ends(),
        c.backup == disk::companion_of(c.path),
        c.rules == durably(),
        decode(c.new) == Some(s),
        d.state == recorded(c.first(), c.path, decode),
        d.state_damaged == damaged(c.first(), c.path, decode),
        d.state_backup == recorded(c.first(), c.backup, decode),
        v == (disk::Disk {
            state: recorded(c.last(), c.path, decode),
            state_damaged: damaged(c.last(), c.path, decode),
            state_backup: recorded(c.last(), c.backup, decode),
            ..d
        }),
    ensures
        d.performs(
            journal::RequestView::WriteState(s),
            journal::ReplyView::Done(c.outcome),
            v,
        ),
{
    lemma_end(c);
}

/// A replacement of the pending operation does what the model says of its writing, where the
/// pending operation can be read and has no backup; and where none was pending, no backup is left.
pub proof fn replacements_write_the_pending_operation(
    d: disk::Disk,
    v: disk::Disk,
    p: history::PendingView,
    decode: spec_fn(Seq<u8>) -> Option<history::PendingView>,
    c: Carried,
)
    requires
        c.ends(),
        c.backup == disk::companion_of(c.path),
        c.rules == plainly(),
        decode(c.new) == Some(p),
        legible(c.first(), c.path, decode),
        !c.first().contains_key(c.backup),
        d.pending == recorded(c.first(), c.path, decode),
        v == (disk::Disk { pending: recorded(c.last(), c.path, decode), ..d }),
    ensures
        d.performs(
            journal::RequestView::WritePending(p),
            journal::ReplyView::Done(c.outcome),
            v,
        ),
        d.pending is None ==> !c.last().contains_key(c.backup),
{
    lemma_end(c);
}

/// That what the disk holds of the transactions is what the files of a directory record, as far as
/// they, or the files whose backups they are, bear the name of a transaction.
pub open spec fn lists(
    d: disk::Disk,
    dir: Seq<char>,
    files: Files,
    decode: spec_fn(Seq<u8>) -> Option<history::ChangeSetView>,
) -> bool {
    forall|name: Seq<char>| #[trigger] lists_one(d, dir, files, decode, name)
}

pub open spec fn lists_one(
    d: disk::Disk,
    dir: Seq<char>,
    files: Files,
    decode: spec_fn(Seq<u8>) -> Option<history::ChangeSetView>,
    name: Seq<char>,
) -> bool {
    let path = paths::below(dir, name);
    let own = recorded(files, path, decode);
    let aside = recorded(files, disk::companion_of(path), decode);
    let named = history::turn_id(name) is Some;
    &&& d.turns.contains_key(name) <==> named && own is Some
    &&& d.turns.contains_key(name) ==> own == Some(d.turns[name])
    &&& d.damaged_turns.contains(name) <==> named && damaged(files, path, decode)
    &&& d.turn_backups.contains_key(name) <==> named && aside is Some
    &&& d.turn_backups.contains_key(name) ==> aside == Some(d.turn_backups[name])
}

/// A replacement of a transaction's record does what the model says of its writing.
pub proof fn replacements_write_transactions(
    d: disk::Disk,
    v: disk::Disk,
    change_set: history::ChangeSetView,
    dir: Seq<char>,
    decode: spec_fn(Seq<u8>) -> Option<history::ChangeSetView>,
    c: Carried,
)
    requires
        c.ends(),
        c.path == paths::below(dir, history::turn_name(change_set.id)),
        c.backup == disk::companion_of(c.path),
        c.rules == plainly(),
        decode(c.new) == Some(change_set),
        lists(d, dir, c.first(), decode),
        lists(v, dir, c.last(), decode),
        v == d.with_turns_of(v),
    ensures
        d.performs(
            journal::RequestView::WriteTurn(change_set),
            journal::ReplyView::Done(c.outcome),
            v,
        ),
{
    let own = history::turn_name(change_set.id);
    lemma_end(c);
    history::turn_names_read_back(change_set.id);
    assert forall|name: Seq<char>| name != own implies #[trigger] d.same_turn(v, name) by {
        assert(lists_one(d, dir, c.first(), decode, name));
        assert(lists_one(v, dir, c.last(), decode, name));
        if history::turn_id(name) is Some {
            lemma_other_turns(dir, change_set.id, name, c);
            let q = paths::below(dir, name);
            let aside = disk::companion_of(q);
            assert(c.last().contains_key(q) <==> c.first().contains_key(q));
            assert(c.last().contains_key(aside) <==> c.first().contains_key(aside));
        }
    }
    assert(lists_one(v, dir, c.last(), decode, own));
    if c.outcome is Ok {
        assert(v.turns.contains_key(own));
        assert(v.turns =~= d.turns.insert(own, change_set)) by {
            assert forall|name: Seq<char>| v.turns.contains_key(name) == d.turns.insert(
                own,
                change_set,
            ).contains_key(name) by {
                if name != own {
                    assert(d.same_turn(v, name));
                }
            }
            assert forall|name: Seq<char>| #[trigger] v.turns.contains_key(name) implies
                v.turns[name] == d.turns.insert(own, change_set)[name] by {
                if name != own {
                    assert(d.same_turn(v, name));
                }
            }
        }
    }
}

/// Neither the record of another transaction nor its backup is the record, its backup, or its
/// temporary file.
proof fn lemma_other_turns(dir: Seq<char>, id: u64, name: Seq<char>, c: Carried)
    requires
        history::turn_id(name) is Some,
        name != history::turn_name(id),
        c.path == paths::below(dir, history::turn_name(id)),
        c.backup == disk::companion_of(c.path),
    ensures
        paths::below(dir, name) != c.path,
        paths::below(dir, name) != c.backup,
        paths::below(dir, name) != c.temp(),
        disk::companion_of(paths::below(dir, name)) != c.path,
        disk::companion_of(paths::below(dir, name)) != c.backup,
        disk::companion_of(paths::below(dir, name)) != c.temp(),
{
    let own = history::turn_name(id);
    history::turn_names_read_back(id);
    history::lemma_turn_name_plain(name);
    history::lemma_turn_name_plain(own);
    paths::lemma_last_name_below(dir, name);
    paths::lemma_last_name_below(dir, own);
    paths::lemma_companion_names(c.path, c.pid, c.counter);
    reveal_strlit(".bak");
    reveal_strlit(".tmp-");
    assert(paths::backup_name(own)[0] == '.');
    assert(paths::temp_name(own, c.pid, c.counter)[0] == '.');
    paths::lemma_companion_names(paths::below(dir, name), c.pid, c.counter);
    let aside = paths::backup_name(name);
    assert(aside[0] == '.');
    assert(aside != paths::backup_name(own)) by {
        if aside == paths::backup_name(own) {
            assert(aside.subrange(1, aside.len() - 4) =~= name);
            assert(aside.subrange(1, aside.len() - 4) =~= own);
        }
    }
    assert(aside != paths::temp_name(own, c.pid, c.counter)) by {
        let temp = paths::temp_name(own, c.pid, c.counter);
        let digits = numbers::decimal(c.counter as nat);
        numbers::decimal_reads_back(c.counter);
        numbers::lemma_parsed_digits(digits);
        assert(temp[temp.len() - 1] == digits[digits.len() - 1]);
        assert(aside[aside.len() - 1] == 'k');
    }
}

/// That the blobs of the journal are the files of a directory.
pub open spec fn stores(
    blobs: Map<Seq<char>, Seq<u8>>,
    dir: Seq<char>,
    files: Files,
) -> bool {
    forall|id: Seq<char>|
        (#[trigger] blobs.contains_key(id) <==> !paths::has_slash(id) && files.contains_key(
            paths::below(dir, id),
        )) && (blobs.contains_key(id) ==> blobs[id] == files[paths::below(dir, id)])
}

/// Different names below a directory are different files.
proof fn lemma_below_differs(dir: Seq<char>, a: Seq<char>, b: Seq<char>)
    requires
        !paths::has_slash(a),
        !paths::has_slash(b),
        a != b,
    ensures
        paths::below(dir, a) != paths::below(dir, b),
{
    let x = paths::below(dir, a);
    let y = paths::below(dir, b);
    let n = x.len() - a.len();
    if x == y {
        assert(n == y.len() - b.len());
        assert(x.skip(n) =~= a);
        assert(y.skip(n) =~= b);
    }
}

/// The writing of a new file does what the model says of the storing of a blob.
pub proof fn new_files_store_blobs(
    d: disk::Disk,
    v: disk::Disk,
    blob: Seq<char>,
    dir: Seq<char>,
    c: Carried,
)
    requires
        c.ends(),
        c.path == paths::below(dir, blob),
        c.backup == disk::companion_of(c.path),
        c.rules == newly(),
        stores(d.blobs, dir, c.first()),
        stores(v.blobs, dir, c.last()),
        v == (disk::Disk { blobs: v.blobs, ..d }),
        !paths::has_slash(blob),
    ensures
        d.performs(
            journal::RequestView::StoreBlob { blob, bytes: c.new },
            journal::ReplyView::Done(c.outcome),
            v,
        ),
{
    lemma_end(c);
    assert forall|id: Seq<char>| id != blob || !(c.outcome is Ok) implies (#[trigger]
    d.blobs.contains_key(id) ==> v.blobs.contains_key(id) && v.blobs[id] == d.blobs[id]) && (
    c.outcome is Ok ==> (v.blobs.contains_key(id) ==> d.blobs.contains_key(id))) by {
        let q = paths::below(dir, id);
        assert(d.blobs.contains_key(id) <==> !paths::has_slash(id) && c.first().contains_key(q));
        assert(v.blobs.contains_key(id) <==> !paths::has_slash(id) && c.last().contains_key(q));
        if id != blob && !paths::has_slash(id) {
            lemma_below_differs(dir, id, blob);
        }
        if q != c.path && q != c.backup && q != c.temp() {
            assert(c.last().contains_key(q) <==> c.first().contains_key(q));
        }
    }
    if c.outcome is Ok {
        assert(v.blobs.contains_key(blob) && v.blobs[blob] == c.new);
        assert(v.blobs =~= d.blobs.insert(blob, c.new)) by {
            assert forall|id: Seq<char>| v.blobs.contains_key(id) == d.blobs.insert(
                blob,
                c.new,
            ).contains_key(id) by {
                assert(id != blob ==> (d.blobs.contains_key(id) == v.blobs.contains_key(id)));
            }
            assert forall|id: Seq<char>| #[trigger] v.blobs.contains_key(id) implies v.blobs[id]
                == d.blobs.insert(blob, c.new)[id] by {
                assert(id != blob ==> (d.blobs.contains_key(id) == v.blobs.contains_key(id)));
            }
        }
    } else {
        assert(d.blobs.submap_of(v.blobs));
    }
}

// ---------------------------------------------------------------------------------------------
// The metadata of a session

/// That the metadata on the disk are what the files of their names hold, as far as they can be
/// read.
pub open spec fn describes(
    metadata: Map<Seq<char>, session::MetadataView>,
    files: Files,
    decode: spec_fn(Seq<u8>) -> Option<session::MetadataView>,
) -> bool {
    forall|q: Seq<char>|
        (#[trigger] metadata.contains_key(q) <==> named_for_metadata(q) && recorded(
            files,
            q,
            decode,
        ) is Some) && (metadata.contains_key(q) ==> recorded(files, q, decode) == Some(metadata[q]))
}

pub open spec fn named_for_metadata(q: Seq<char>) -> bool {
    paths::last_name(q) == Some("meta.json"@) || paths::last_name(q) == Some("meta.bak"@)
}

/// A replacement of a session's metadata does what the model says of their writing.
pub proof fn replacements_write_metadata(
    codec: session_laws::Codec,
    d: session_laws::SessionDisk,
    v: session_laws::SessionDisk,
    dir: Seq<char>,
    metadata: session::MetadataView,
    decode: spec_fn(Seq<u8>) -> Option<session::MetadataView>,
    c: Carried,
)
    requires
        c.ends(),
        c.path == session_store::metadata_place(dir),
        c.backup == session_store::metadata_backup_place(dir),
        c.platform == Platform::Unix,
        c.rules == (Rules { replaces: true, keeps_backup: false, tidies: false }),
        decode(c.new) == Some(metadata),
        describes(d.metadata, c.first(), decode),
        describes(v.metadata, c.last(), decode),
        v == (session_laws::SessionDisk { metadata: v.metadata, ..d }),
    ensures
        d.performs(
            codec,
            session_store::SessionRequestView::WriteMetadata { dir, metadata },
            session_store::SessionReplyView::Done(c.outcome),
            v,
        ),
{
    atomicity::lemma_metadata_files(dir, c.pid, c.counter);
    lemma_plain(c);
    atomicity::lemma_run(
        c.platform,
        c.path,
        c.backup,
        c.rules,
        c.pid,
        c.counter,
        c.new,
        c.moments,
        c.moments.len() - 1,
    );
    assert(d.metadata.contains_key(c.path) <==> recorded(c.first(), c.path, decode) is Some);
    assert(v.metadata.contains_key(c.path) <==> recorded(c.last(), c.path, decode) is Some);
    assert(d.metadata.contains_key(c.backup) <==> recorded(c.first(), c.backup, decode) is Some);
    assert(v.metadata.contains_key(c.backup) <==> recorded(c.last(), c.backup, decode) is Some);
    assert forall|q: Seq<char>| q != c.path && q != c.backup implies #[trigger] disk::same_at(
        d.metadata,
        v.metadata,
        q,
    ) by {
        assert(d.metadata.contains_key(q) <==> named_for_metadata(q) && recorded(
            c.first(),
            q,
            decode,
        ) is Some);
        assert(v.metadata.contains_key(q) <==> named_for_metadata(q) && recorded(
            c.last(),
            q,
            decode,
        ) is Some);
        if named_for_metadata(q) {
            reveal_strlit("meta.json");
            reveal_strlit("meta.bak");
            assert(q != c.temp());
            assert(c.last().contains_key(q) <==> c.first().contains_key(q));
        }
    }
}

} // verus!
