//! What the replacement of a file guarantees: whatever the file system replies, step by step.

use vstd::prelude::*;

use crate::io::IoErrorKind;
use crate::paths;
use crate::paths::Platform;
use crate::replacement;
use crate::replacement::Rules;
use crate::session_store;

verus! {

/// The files of a file system and their contents.
pub type Files = Map<Seq<char>, Seq<u8>>;

/// That the request can meet with the reply and leave the files as `after`, where `new` is what
/// the temporary file is filled with.
pub open spec fn performs(
    files: Files,
    new: Seq<u8>,
    request: replacement::FileRequestView,
    reply: replacement::FileReplyView,
    after: Files,
) -> bool {
    match (request, reply) {
        (
            replacement::FileRequestView::CreateDirectories { .. },
            replacement::FileReplyView::Done(_),
        ) => after == files,
        (
            replacement::FileRequestView::CreateNew { path },
            replacement::FileReplyView::Done(r),
        ) => if r is Ok {
            !files.contains_key(path) && after == files.insert(path, Seq::empty())
        } else {
            after == files
        },
        (replacement::FileRequestView::Fill { path }, replacement::FileReplyView::Done(r)) => if r
            is Ok {
            after == files.insert(path, new)
        } else {
            after == files.insert(path, after[path])
        },
        (replacement::FileRequestView::Exists { path }, replacement::FileReplyView::Exists(b)) => {
            after == files && b == files.contains_key(path)
        },
        (replacement::FileRequestView::Remove { path }, replacement::FileReplyView::Done(r)) =>
            match r {
            Ok(_) => files.contains_key(path) && after == files.remove(path),
            Err(e) => after == files && (e.kind == IoErrorKind::NotFound ==> !files.contains_key(
                path,
            )),
        },
        (
            replacement::FileRequestView::Rename { from, to },
            replacement::FileReplyView::Done(r),
        ) => if r is Ok {
            files.contains_key(from) && after == files.remove(from).insert(to, files[from])
        } else {
            after == files
        },
        (
            replacement::FileRequestView::Copy { from, to },
            replacement::FileReplyView::Done(r),
        ) => if r is Ok {
            files.contains_key(from) && after == files.insert(to, files[from])
        } else {
            after == files || after == files.insert(to, after[to])
        },
        (
            replacement::FileRequestView::SyncDirectory { .. },
            replacement::FileReplyView::Done(_),
        ) => after == files,
        _ => false,
    }
}

/// A replacement under way, and the files below it.
pub struct Moment {
    pub files: Files,
    pub it: replacement::ReplacementView,
}

pub open spec fn steps(
    now: Moment,
    new: Seq<u8>,
    reply: replacement::FileReplyView,
    after: Moment,
) -> bool {
    &&& now.it.request() is Some
    &&& performs(now.files, new, now.it.request()->0, reply, after.files)
    &&& after.it == now.it.next(reply)
}

pub open spec fn leads_to(now: Moment, new: Seq<u8>, after: Moment) -> bool {
    exists|reply: replacement::FileReplyView| #[trigger] steps(now, new, reply, after)
}

/// A replacement of the file at `path` from its beginning; `backup` is where the previous contents
/// stand aside.
pub open spec fn is_replacement(
    platform: Platform,
    path: Seq<char>,
    backup: Seq<char>,
    rules: Rules,
    pid: u32,
    counter: u64,
    new: Seq<u8>,
    moments: Seq<Moment>,
) -> bool {
    &&& moments.len() > 0
    &&& Ok::<replacement::ReplacementView, crate::io::IoErrorView>(moments[0].it)
        == replacement::beginning(platform, path, backup, true, rules, pid, counter)
    &&& forall|i: int|
        0 <= i < moments.len() - 1 ==> leads_to(#[trigger] moments[i], new, moments[i + 1])
}

/// What a reader finds who turns to the backup where the file is not there.
pub open spec fn found(files: Files, path: Seq<char>, backup: Seq<char>) -> Option<Seq<u8>> {
    if files.contains_key(path) {
        Some(files[path])
    } else if files.contains_key(backup) {
        Some(files[backup])
    } else {
        None
    }
}

/// That only the file, its backup and its temporary file differ.
pub open spec fn framed(
    start: Files,
    now: Files,
    it: replacement::ReplacementView,
) -> bool {
    forall|q: Seq<char>|
        q != it.path && q != it.backup && q != it.temp ==> (#[trigger] now.contains_key(q)
            <==> start.contains_key(q)) && (start.contains_key(q) ==> now[q] == start[q])
}

pub open spec fn as_before(start: Files, now: Files, it: replacement::ReplacementView) -> bool {
    &&& now.contains_key(it.path) == start.contains_key(it.path)
    &&& start.contains_key(it.path) ==> now[it.path] == start[it.path]
}

pub open spec fn backup_as_before(
    start: Files,
    now: Files,
    it: replacement::ReplacementView,
) -> bool {
    &&& now.contains_key(it.backup) == start.contains_key(it.backup)
    &&& start.contains_key(it.backup) ==> now[it.backup] == start[it.backup]
}

/// That the temporary file is the replacement's own: what stood there before, if anything, is
/// still there.
pub open spec fn own_temp(start: Files, now: Files, it: replacement::ReplacementView) -> bool {
    match it.stage {
        replacement::FileStageView::MakeParent | replacement::FileStageView::CreateTemp => true,
        replacement::FileStageView::Done(_) => start.contains_key(it.temp) ==> now.contains_key(
            it.temp,
        ) && now[it.temp] == start[it.temp],
        _ => !start.contains_key(it.temp),
    }
}

/// That the backup is gone, or what it was, or the previous contents; where a backup is kept and
/// there was nothing before, a copy of the next contents takes its place at the end.
pub open spec fn set_aside(start: Files, now: Files, it: replacement::ReplacementView) -> bool {
    if it.stage is CopyBackup {
        !start.contains_key(it.path)
    } else if moved_in(it) && it.rules.replaces && it.rules.keeps_backup {
        start.contains_key(it.path) ==> now.contains_key(it.backup) && now[it.backup]
            == start[it.path]
    } else {
        ||| !now.contains_key(it.backup)
        ||| backup_as_before(start, now, it)
        ||| start.contains_key(it.path) && now[it.backup] == start[it.path]
    }
}

/// That the next contents are in place, and the backup is dealt with.
pub open spec fn moved_in(it: replacement::ReplacementView) -> bool {
    it.stage is Sync || (it.stage matches replacement::FileStageView::Done(r) && r is Ok)
}

/// What holds at each stage of a replacement.
pub open spec fn sound(
    start: Files,
    new: Seq<u8>,
    now: Files,
    it: replacement::ReplacementView,
) -> bool {
    let path = it.path;
    let backup = it.backup;
    let temp = it.temp;
    &&& framed(start, now, it)
    &&& own_temp(start, now, it)
    &&& set_aside(start, now, it)
    &&& match it.stage {
        replacement::FileStageView::MakeParent | replacement::FileStageView::CreateTemp => now
            == start,
        replacement::FileStageView::Fill => as_before(start, now, it) && backup_as_before(
            start,
            now,
            it,
        ),
        replacement::FileStageView::LookForPrevious => {
            &&& it.rules.replaces
            &&& as_before(start, now, it)
            &&& backup_as_before(start, now, it)
            &&& now.contains_key(temp)
            &&& now[temp] == new
        },
        replacement::FileStageView::RemoveBackup => {
            &&& it.rules.replaces
            &&& start.contains_key(path)
            &&& as_before(start, now, it)
            &&& now.contains_key(temp)
            &&& now[temp] == new
        },
        replacement::FileStageView::MoveAway => {
            &&& it.rules.replaces
            &&& start.contains_key(path)
            &&& as_before(start, now, it)
            &&& !now.contains_key(backup)
            &&& now.contains_key(temp)
            &&& now[temp] == new
        },
        replacement::FileStageView::MoveIn { had_previous } => {
            &&& now.contains_key(temp)
            &&& now[temp] == new
            &&& if had_previous {
                &&& it.rules.replaces
                &&& start.contains_key(path)
                &&& !now.contains_key(path)
                &&& now.contains_key(backup)
                &&& now[backup] == start[path]
            } else {
                &&& as_before(start, now, it)
                &&& backup_as_before(start, now, it)
                &&& it.rules.replaces ==> !start.contains_key(path)
            }
        },
        replacement::FileStageView::LookForBackup { .. } => {
            &&& it.rules.replaces
            &&& !now.contains_key(path)
            &&& found(now, path, backup) == found(start, path, backup)
        },
        replacement::FileStageView::LookForPath { .. } => {
            &&& it.rules.replaces
            &&& !now.contains_key(path)
            &&& now.contains_key(backup)
            &&& found(now, path, backup) == found(start, path, backup)
        },
        replacement::FileStageView::Restore { .. } => {
            &&& it.rules.replaces
            &&& !now.contains_key(path)
            &&& now.contains_key(backup)
            &&& found(now, path, backup) == found(start, path, backup)
        },
        replacement::FileStageView::RemoveTemp { .. } => {
            &&& it.rules.replaces ==> found(now, path, backup) == found(start, path, backup)
            &&& !it.rules.replaces ==> as_before(start, now, it) && backup_as_before(
                start,
                now,
                it,
            )
        },
        replacement::FileStageView::CopyBackup | replacement::FileStageView::DropBackup => {
            &&& it.rules.replaces
            &&& it.rules.keeps_backup == (it.stage is CopyBackup)
            &&& now.contains_key(path)
            &&& now[path] == new
            &&& !now.contains_key(temp)
        },
        replacement::FileStageView::Sync => {
            &&& now.contains_key(path)
            &&& now[path] == new
            &&& !now.contains_key(temp)
            &&& !it.rules.replaces ==> backup_as_before(start, now, it)
        },
        replacement::FileStageView::Done(r) => if r is Ok {
            &&& now.contains_key(path)
            &&& now[path] == new
            &&& !now.contains_key(temp)
            &&& !it.rules.replaces ==> backup_as_before(start, now, it)
        } else {
            &&& it.rules.replaces ==> found(now, path, backup) == found(start, path, backup)
            &&& !it.rules.replaces ==> as_before(start, now, it) && backup_as_before(
                start,
                now,
                it,
            )
        },
    }
}

pub open spec fn three_files(it: replacement::ReplacementView) -> bool {
    it.path != it.backup && it.path != it.temp && it.temp != it.backup
}

proof fn lemma_step(
    start: Files,
    new: Seq<u8>,
    now: Moment,
    reply: replacement::FileReplyView,
    after: Moment,
)
    requires
        three_files(now.it),
        sound(start, new, now.files, now.it),
        steps(now, new, reply, after),
    ensures
        three_files(after.it),
        sound(start, new, after.files, after.it),
{
    let v = after.files;
    let it = after.it;
    assert(it.path == now.it.path && it.backup == now.it.backup && it.temp == now.it.temp);
    assert forall|q: Seq<char>| q != it.path && q != it.backup && q != it.temp implies (
    #[trigger] v.contains_key(q) <==> start.contains_key(q)) && (start.contains_key(q) ==> v[q]
        == start[q]) by {
        assert(now.files.contains_key(q) <==> start.contains_key(q));
    }
}

pub proof fn lemma_run(
    platform: Platform,
    path: Seq<char>,
    backup: Seq<char>,
    rules: Rules,
    pid: u32,
    counter: u64,
    new: Seq<u8>,
    moments: Seq<Moment>,
    i: int,
)
    requires
        is_replacement(platform, path, backup, rules, pid, counter, new, moments),
        three_files(moments[0].it),
        0 <= i < moments.len(),
    ensures
        moments[i].it == moments[0].it.at(moments[i].it.stage),
        sound(moments[0].files, new, moments[i].files, moments[i].it),
    decreases i,
{
    if i > 0 {
        lemma_run(platform, path, backup, rules, pid, counter, new, moments, i - 1);
        assert(leads_to(moments[i - 1], new, moments[i - 1 + 1]));
        let reply = choose|reply: replacement::FileReplyView| #[trigger]
            steps(moments[i - 1], new, reply, moments[i]);
        lemma_step(moments[0].files, new, moments[i - 1], reply, moments[i]);
    }
}

/// At every moment of a replacement, whatever fails, a reader who turns to the backup where the
/// file is not there finds either all of the previous contents or all of the next; once it has
/// succeeded the file holds the next, and once it has failed the reader still finds the previous.
pub proof fn replacements_are_atomic(
    platform: Platform,
    path: Seq<char>,
    keeps_backup: bool,
    pid: u32,
    counter: u64,
    new: Seq<u8>,
    moments: Seq<Moment>,
    i: int,
)
    requires
        is_replacement(
            platform,
            path,
            paths::companion_on(platform, path, |name: Seq<char>| paths::backup_name(name)),
            Rules { replaces: true, keeps_backup, tidies: true },
            pid,
            counter,
            new,
            moments,
        ),
        0 <= i < moments.len(),
    ensures
        ({
            let backup = paths::companion_on(
                platform,
                path,
                |name: Seq<char>| paths::backup_name(name),
            );
            let at = paths::parted(platform, path);
            let start = moments[0].files;
            let now = moments[i].files;
            &&& found(now, at, backup) == found(start, at, backup) || found(now, at, backup)
                == Some(new)
            &&& framed(start, now, moments[0].it)
            &&& moments[i].it.stage matches replacement::FileStageView::Done(r) ==> if r is Ok {
                now.contains_key(at) && now[at] == new
            } else {
                found(now, at, backup) == found(start, at, backup)
            }
        }),
{
    let backup = paths::companion_on(platform, path, |name: Seq<char>| paths::backup_name(name));
    paths::companions_are_other_files(platform, path, pid, counter);
    lemma_run(
        platform,
        path,
        backup,
        Rules { replaces: true, keeps_backup, tidies: true },
        pid,
        counter,
        new,
        moments,
        i,
    );
}

/// The metadata of a session, their backup and their temporary file are three different files.
pub proof fn lemma_metadata_files(dir: Seq<char>, pid: u32, counter: u64)
    ensures
        ({
            let path = session_store::metadata_place(dir);
            let backup = session_store::metadata_backup_place(dir);
            let temp = paths::companion_on(
                Platform::Unix,
                path,
                |name: Seq<char>| paths::temp_name(name, pid, counter),
            );
            &&& paths::last_name(path) == Some("meta.json"@)
            &&& paths::last_name(backup) == Some("meta.bak"@)
            &&& path != backup
            &&& path != temp
            &&& temp != backup
            &&& paths::last_name(temp) is Some
            &&& paths::last_name(temp)->0.len() > 0
            &&& paths::last_name(temp)->0[0] == '.'
        }),
{
    let path = session_store::metadata_place(dir);
    let backup = session_store::metadata_backup_place(dir);
    reveal_strlit("meta.json");
    reveal_strlit("meta.bak");
    reveal_strlit(".tmp-");
    let json = "meta.json"@;
    let bak = "meta.bak"@;
    assert(!paths::has_slash(json)) by {
        assert(json[0] != '/' && json[1] != '/' && json[2] != '/' && json[3] != '/' && json[4]
            != '/' && json[5] != '/' && json[6] != '/' && json[7] != '/' && json[8] != '/');
    }
    assert(!paths::has_slash(bak)) by {
        assert(bak[0] != '/' && bak[1] != '/' && bak[2] != '/' && bak[3] != '/' && bak[4] != '/'
            && bak[5] != '/' && bak[6] != '/' && bak[7] != '/');
    }
    paths::lemma_last_name_below(dir, json);
    paths::lemma_last_name_below(dir, bak);
    paths::lemma_companion_names(path, pid, counter);
    paths::companions_are_other_files(Platform::Unix, path, pid, counter);
    paths::plain_paths_have_the_same_companions(
        Platform::Unix,
        path,
        |name: Seq<char>| paths::temp_name(name, pid, counter),
    );
    assert(paths::temp_name(json, pid, counter)[0] == '.');
    assert(bak[0] == 'm');
    assert(json.len() != bak.len());
}

/// At every moment of the replacement of a session's metadata, whatever fails, a reader who turns
/// to the backup where the file is not there finds either all of the previous metadata or all of
/// the next; once it has succeeded the file holds the next, and once it has failed the reader
/// still finds the previous.
pub proof fn metadata_are_replaced_atomically(
    dir: Seq<char>,
    pid: u32,
    counter: u64,
    new: Seq<u8>,
    moments: Seq<Moment>,
    i: int,
)
    requires
        is_replacement(
            Platform::Unix,
            session_store::metadata_place(dir),
            session_store::metadata_backup_place(dir),
            Rules { replaces: true, keeps_backup: false, tidies: false },
            pid,
            counter,
            new,
            moments,
        ),
        0 <= i < moments.len(),
    ensures
        paths::last_name(session_store::metadata_place(dir)) is Some,
        ({
            let path = session_store::metadata_place(dir);
            let backup = session_store::metadata_backup_place(dir);
            let start = moments[0].files;
            let now = moments[i].files;
            &&& found(now, path, backup) == found(start, path, backup) || found(now, path, backup)
                == Some(new)
            &&& framed(start, now, moments[0].it)
            &&& moments[i].it.stage matches replacement::FileStageView::Done(r) ==> if r is Ok {
                now.contains_key(path) && now[path] == new
            } else {
                found(now, path, backup) == found(start, path, backup)
            }
        }),
{
    let path = session_store::metadata_place(dir);
    let backup = session_store::metadata_backup_place(dir);
    lemma_metadata_files(dir, pid, counter);
    lemma_run(
        Platform::Unix,
        path,
        backup,
        Rules { replaces: true, keeps_backup: false, tidies: false },
        pid,
        counter,
        new,
        moments,
        i,
    );
}

/// At every moment of the writing of a new file, whatever fails, the file is as before or complete.
pub proof fn new_files_appear_complete(
    platform: Platform,
    path: Seq<char>,
    pid: u32,
    counter: u64,
    new: Seq<u8>,
    moments: Seq<Moment>,
    i: int,
)
    requires
        is_replacement(
            platform,
            path,
            paths::companion_on(platform, path, |name: Seq<char>| paths::backup_name(name)),
            Rules { replaces: false, keeps_backup: false, tidies: true },
            pid,
            counter,
            new,
            moments,
        ),
        0 <= i < moments.len(),
    ensures
        ({
            let at = paths::parted(platform, path);
            let start = moments[0].files;
            let now = moments[i].files;
            &&& as_before(start, now, moments[0].it) || (now.contains_key(at) && now[at]
                == new)
            &&& framed(start, now, moments[0].it)
            &&& moments[i].it.stage matches replacement::FileStageView::Done(r) ==> if r is Ok {
                now.contains_key(at) && now[at] == new
            } else {
                as_before(start, now, moments[0].it)
            }
        }),
{
    paths::companions_are_other_files(platform, path, pid, counter);
    lemma_run(
        platform,
        path,
        paths::companion_on(platform, path, |name: Seq<char>| paths::backup_name(name)),
        Rules { replaces: false, keeps_backup: false, tidies: true },
        pid,
        counter,
        new,
        moments,
        i,
    );
}

// ---------------------------------------------------------------------------------------------
// Where the file system does not fail

/// What holds at each stage where the file system has not failed.
pub open spec fn well(
    start: Files,
    new: Seq<u8>,
    now: Files,
    it: replacement::ReplacementView,
) -> bool {
    let had_previous = start.contains_key(it.path);
    match it.stage {
        replacement::FileStageView::MakeParent | replacement::FileStageView::CreateTemp
        | replacement::FileStageView::LookForPrevious | replacement::FileStageView::RemoveBackup
        | replacement::FileStageView::MoveAway => true,
        replacement::FileStageView::Fill => now.contains_key(it.temp),
        replacement::FileStageView::MoveIn { had_previous: h } => it.rules.replaces ==> h
            == had_previous,
        replacement::FileStageView::CopyBackup => it.rules.keeps_backup && !had_previous,
        replacement::FileStageView::DropBackup => !it.rules.keeps_backup,
        replacement::FileStageView::Sync => it.rules.replaces ==> backup_in_order(
            start,
            new,
            now,
            it,
        ),
        replacement::FileStageView::Done(r) => r is Ok && (it.rules.replaces ==> backup_in_order(
            start,
            new,
            now,
            it,
        )),
        _ => false,
    }
}

/// That the backup is what the rules say: gone, or the previous contents, or the next where there
/// were none.
pub open spec fn backup_in_order(
    start: Files,
    new: Seq<u8>,
    now: Files,
    it: replacement::ReplacementView,
) -> bool {
    if it.rules.keeps_backup {
        &&& now.contains_key(it.backup)
        &&& now[it.backup] == if start.contains_key(it.path) {
            start[it.path]
        } else {
            new
        }
    } else {
        !now.contains_key(it.backup)
    }
}

/// A replacement in which the file system does not fail.
pub open spec fn smooth(
    platform: Platform,
    path: Seq<char>,
    backup: Seq<char>,
    rules: Rules,
    pid: u32,
    counter: u64,
    new: Seq<u8>,
    moments: Seq<Moment>,
) -> bool {
    &&& is_replacement(platform, path, backup, rules, pid, counter, new, moments)
    &&& forall|i: int|
        0 <= i < moments.len() - 1 ==> leads_faultlessly(#[trigger] moments[i], new, moments[i + 1])
}

pub open spec fn leads_faultlessly(now: Moment, new: Seq<u8>, after: Moment) -> bool {
    exists|reply: replacement::FileReplyView| #[trigger]
        steps(now, new, reply, after) && faultless(now, reply)
}

/// That a reply reports no failure: only the removal of what is not there may find nothing.
pub open spec fn faultless(now: Moment, reply: replacement::FileReplyView) -> bool {
    reply matches replacement::FileReplyView::Done(Err(e)) ==> {
        &&& e.kind == IoErrorKind::NotFound
        &&& now.it.request() matches Some(replacement::FileRequestView::Remove { path })
        &&& !now.files.contains_key(path)
    }
}

proof fn lemma_well_run(
    platform: Platform,
    path: Seq<char>,
    backup: Seq<char>,
    rules: Rules,
    pid: u32,
    counter: u64,
    new: Seq<u8>,
    moments: Seq<Moment>,
    i: int,
)
    requires
        smooth(platform, path, backup, rules, pid, counter, new, moments),
        three_files(moments[0].it),
        0 <= i < moments.len(),
    ensures
        well(moments[0].files, new, moments[i].files, moments[i].it),
    decreases i,
{
    if i > 0 {
        let now = moments[i - 1];
        lemma_well_run(platform, path, backup, rules, pid, counter, new, moments, i - 1);
        lemma_run(platform, path, backup, rules, pid, counter, new, moments, i - 1);
        assert(leads_faultlessly(moments[i - 1], new, moments[i - 1 + 1]));
        let reply = choose|reply: replacement::FileReplyView| #[trigger]
            steps(now, new, reply, moments[i]) && faultless(now, reply);
        lemma_step(moments[0].files, new, now, reply, moments[i]);
    }
}

/// Where the file system does not fail, a replacement does not fail either, and at its end the
/// file holds the next contents, the temporary file is gone, and the backup is what is asked for:
/// none, or the previous contents, or a copy of the next where there were none.
pub proof fn undisturbed_replacements_succeed(
    platform: Platform,
    path: Seq<char>,
    keeps_backup: bool,
    pid: u32,
    counter: u64,
    new: Seq<u8>,
    moments: Seq<Moment>,
    i: int,
)
    requires
        smooth(
            platform,
            path,
            paths::companion_on(platform, path, |name: Seq<char>| paths::backup_name(name)),
            Rules { replaces: true, keeps_backup, tidies: true },
            pid,
            counter,
            new,
            moments,
        ),
        0 <= i < moments.len(),
        moments[i].it.stage is Done,
    ensures
        ({
            let at = paths::parted(platform, path);
            let it = moments[0].it;
            let start = moments[0].files;
            let now = moments[i].files;
            &&& moments[i].it.stage == replacement::FileStageView::Done(Ok(()))
            &&& now.contains_key(at)
            &&& now[at] == new
            &&& !now.contains_key(it.temp)
            &&& backup_in_order(start, new, now, it)
        }),
{
    let backup = paths::companion_on(platform, path, |name: Seq<char>| paths::backup_name(name));
    let rules = Rules { replaces: true, keeps_backup, tidies: true };
    paths::companions_are_other_files(platform, path, pid, counter);
    lemma_run(platform, path, backup, rules, pid, counter, new, moments, i);
    lemma_well_run(platform, path, backup, rules, pid, counter, new, moments, i);
}

/// Where the file system does not fail, the replacement of a session's metadata does not fail
/// either, and at its end the file holds the next metadata, and neither the temporary file nor a
/// backup is there.
pub proof fn undisturbed_metadata_replacements_succeed(
    dir: Seq<char>,
    pid: u32,
    counter: u64,
    new: Seq<u8>,
    moments: Seq<Moment>,
    i: int,
)
    requires
        smooth(
            Platform::Unix,
            session_store::metadata_place(dir),
            session_store::metadata_backup_place(dir),
            Rules { replaces: true, keeps_backup: false, tidies: false },
            pid,
            counter,
            new,
            moments,
        ),
        0 <= i < moments.len(),
        moments[i].it.stage is Done,
    ensures
        ({
            let path = session_store::metadata_place(dir);
            let now = moments[i].files;
            &&& moments[i].it.stage == replacement::FileStageView::Done(Ok(()))
            &&& now.contains_key(path)
            &&& now[path] == new
            &&& !now.contains_key(moments[0].it.temp)
            &&& !now.contains_key(session_store::metadata_backup_place(dir))
        }),
{
    let path = session_store::metadata_place(dir);
    let backup = session_store::metadata_backup_place(dir);
    let rules = Rules { replaces: true, keeps_backup: false, tidies: false };
    lemma_metadata_files(dir, pid, counter);
    lemma_run(Platform::Unix, path, backup, rules, pid, counter, new, moments, i);
    lemma_well_run(Platform::Unix, path, backup, rules, pid, counter, new, moments, i);
}

} // verus!
