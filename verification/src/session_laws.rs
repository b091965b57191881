//! What the store of sessions guarantees: what is written comes back.

use vstd::prelude::*;

use crate::disk;
use crate::io;
use crate::io::IoErrorKind;
use crate::paths;
use crate::session;
use crate::session_store;

verus! {

/// How records become texts, and texts records.
pub struct Codec {
    pub write: spec_fn(session::RecordView) -> Seq<char>,
    pub read: spec_fn(Seq<char>) -> Option<session::RecordView>,
}

impl Codec {
    /// That what is written is one line, and reads back.
    pub open spec fn faithful(self) -> bool {
        forall|r: session::RecordView|
            session::one_line(#[trigger] (self.write)(r)) && (self.read)((self.write)(r)) == Some(r)
    }
}

/// That a path is another or below it.
pub open spec fn under(path: Seq<char>, q: Seq<char>) -> bool {
    q == path || (q.len() > path.len() && q.take(path.len() as int) == path && q[path.len() as int]
        == '/')
}

/// That every entry of a directory could be read.
pub open spec fn all_read(entries: Seq<session_store::DirectoryEntryResult>) -> bool {
    forall|i: int| 0 <= i < entries.len() ==> (#[trigger] entries[i]) is Ok
}

/// That one of the entries has a name.
pub open spec fn has_name(
    entries: Seq<session_store::DirectoryEntryResult>,
    name: Seq<char>,
) -> bool {
    exists|i: int|
        0 <= i < entries.len() && (#[trigger] entries[i]) is Ok && entries[i]->Ok_0.name == name
}

/// What the disk holds: the directories, the metadata files and the record files by their paths.
pub struct SessionDisk {
    pub directories: Set<Seq<char>>,
    pub metadata: Map<Seq<char>, session::MetadataView>,
    pub records: Map<Seq<char>, Seq<char>>,
}

impl SessionDisk {
    /// The contents of a record file; one that is missing holds nothing.
    pub open spec fn contents(self, path: Seq<char>) -> Seq<char> {
        if self.records.contains_key(path) {
            self.records[path]
        } else {
            Seq::empty()
        }
    }

    /// That another disk holds the same at a path.
    pub open spec fn agrees(self, other: SessionDisk, path: Seq<char>) -> bool {
        &&& self.directories.contains(path) == other.directories.contains(path)
        &&& disk::same_at(self.metadata, other.metadata, path)
        &&& disk::same_at(self.records, other.records, path)
    }

    /// That nothing is at a path nor below it.
    pub open spec fn nothing_under(self, path: Seq<char>) -> bool {
        forall|q: Seq<char>| #[trigger]
            under(path, q) ==> !self.directories.contains(q) && !self.metadata.contains_key(q)
                && !self.records.contains_key(q)
    }

    /// That a directory has the given entries: each under a name of its own, and every directory
    /// in it among them, unless some entry could not be read.
    pub open spec fn lists(
        self,
        path: Seq<char>,
        entries: Seq<session_store::DirectoryEntryResult>,
    ) -> bool {
        &&& forall|i: int|
            0 <= i < entries.len() ==> (#[trigger] entries[i] matches Ok(e) ==> e.is_dir
                == self.directories.contains(paths::below(path, e.name)))
        &&& forall|i: int, j: int|
            0 <= i < j < entries.len() && (#[trigger] entries[i]) is Ok && (
            #[trigger] entries[j]) is Ok ==> entries[i]->Ok_0.name != entries[j]->Ok_0.name
        &&& all_read(entries) ==> forall|name: Seq<char>|
            session::valid_id(name) && #[trigger] self.directories.contains(
                paths::below(path, name),
            ) ==> has_name(entries, name)
    }

    /// That the request can meet with the reply and leave the disk as `after`: it does what it
    /// says, or fails. Metadata that cannot be read are no metadata.
    pub open spec fn performs(
        self,
        codec: Codec,
        request: session_store::SessionRequestView,
        reply: session_store::SessionReplyView,
        after: SessionDisk,
    ) -> bool {
        match (request, reply) {
            (
                session_store::SessionRequestView::MakeDirectories { path: _ },
                session_store::SessionReplyView::Done(_),
            ) => {
                &&& after == (SessionDisk { directories: after.directories, ..self })
                &&& self.directories.subset_of(after.directories)
            },
            (
                session_store::SessionRequestView::NewSessionId,
                session_store::SessionReplyView::SessionId(id),
            ) => after == self && session::valid_id(id),
            (
                session_store::SessionRequestView::MakeDirectory { path },
                session_store::SessionReplyView::Done(r),
            ) => if r is Ok {
                self.nothing_under(path) && after == (SessionDisk {
                    directories: self.directories.insert(path),
                    ..self
                })
            } else {
                after == self
            },
            (
                session_store::SessionRequestView::Clock,
                session_store::SessionReplyView::Millis(_),
            ) => after == self,
            (
                session_store::SessionRequestView::WriteMetadata { dir, metadata },
                session_store::SessionReplyView::Done(r),
            ) => {
                &&& after == (SessionDisk { metadata: after.metadata, ..self })
                &&& forall|q: Seq<char>|
                    q != session_store::metadata_place(dir) && q
                        != session_store::metadata_backup_place(dir) ==> #[trigger] disk::same_at(
                        self.metadata,
                        after.metadata,
                        q,
                    )
                &&& if r is Ok {
                    &&& after.metadata.contains_key(session_store::metadata_place(dir))
                    &&& after.metadata[session_store::metadata_place(dir)] == metadata
                } else {
                    ||| metadata_of(after, dir) == metadata_of(self, dir)
                    ||| !self.metadata.contains_key(session_store::metadata_place(dir))
                        && metadata_of(after, dir) is None
                }
            },
            (
                session_store::SessionRequestView::RemoveAll { path },
                session_store::SessionReplyView::Done(r),
            ) => {
                &&& forall|q: Seq<char>| !under(path, q) ==> #[trigger] self.agrees(after, q)
                &&& match r {
                    Ok(_) => after.nothing_under(path),
                    Err(e) => e.kind == IoErrorKind::NotFound ==> after == self
                        && self.nothing_under(path),
                }
            },
            (
                session_store::SessionRequestView::ListDirectory { path },
                session_store::SessionReplyView::Entries(r),
            ) => after == self && match r {
                Ok(entries) => self.lists(path, entries),
                Err(e) => e.kind == IoErrorKind::NotFound ==> self.lists(path, Seq::empty()),
            },
            (
                session_store::SessionRequestView::ReadMetadata { path },
                session_store::SessionReplyView::Metadata(r),
            ) => after == self && match r {
                Ok(m) => self.metadata.contains_key(path) && self.metadata[path] == m,
                Err(_) => !self.metadata.contains_key(path),
            },
            (
                session_store::SessionRequestView::ReadRecords { path },
                session_store::SessionReplyView::Contents(r),
            ) => after == self && match r {
                Ok(contents) => self.records.contains_key(path) && self.records[path] == contents,
                Err(e) => e.kind == IoErrorKind::NotFound ==> !self.records.contains_key(path),
            },
            (
                session_store::SessionRequestView::ParseRecord { text },
                session_store::SessionReplyView::Record(r),
            ) => after == self && r == (codec.read)(text),
            (
                session_store::SessionRequestView::IsDirectory { path },
                session_store::SessionReplyView::IsDirectory(b),
            ) => after == self && b == self.directories.contains(path),
            (
                session_store::SessionRequestView::AppendRecord { path, record },
                session_store::SessionReplyView::Done(r),
            ) => if r is Ok {
                after == (SessionDisk {
                    records: self.records.insert(
                        path,
                        self.contents(path) + (codec.write)(record).push('\n'),
                    ),
                    ..self
                })
            } else {
                after == (SessionDisk {
                    records: self.records.insert(path, after.contents(path)),
                    ..self
                }) || after == self
            },
            _ => false,
        }
    }
}

/// An operation under way, and the disk below it.
pub struct SessionScene {
    pub disk: SessionDisk,
    pub op: session_store::SessionOperationView,
}

impl SessionScene {
    pub open spec fn steps(
        self,
        codec: Codec,
        reply: session_store::SessionReplyView,
        after: SessionScene,
    ) -> bool {
        &&& self.op.request() is Some
        &&& self.disk.performs(codec, self.op.request()->0, reply, after.disk)
        &&& after.op == self.op.next(reply)
    }

    pub open spec fn leads_to(self, codec: Codec, after: SessionScene) -> bool {
        exists|reply: session_store::SessionReplyView| #[trigger] self.steps(codec, reply, after)
    }
}

/// That each scene leads to the next, from an operation at the given stage on.
pub open spec fn is_run(
    codec: Codec,
    first: session_store::SessionStageView,
    scenes: Seq<SessionScene>,
) -> bool {
    &&& scenes.len() > 0
    &&& scenes[0].op.stage == first
    &&& forall|i: int|
        0 <= i < scenes.len() - 1 ==> (#[trigger] scenes[i]).leads_to(codec, scenes[i + 1])
}

/// The records among texts that can be read, in order.
pub open spec fn readable(codec: Codec, texts: Seq<Seq<char>>) -> Seq<session::RecordView>
    decreases texts.len(),
{
    if texts.len() == 0 {
        Seq::empty()
    } else {
        let init = readable(codec, texts.drop_last());
        match (codec.read)(texts.last()) {
            Some(r) => init.push(r),
            None => init,
        }
    }
}

/// How many texts cannot be read, up to the largest number.
pub open spec fn unreadable(codec: Codec, texts: Seq<Seq<char>>) -> usize
    decreases texts.len(),
{
    if texts.len() == 0 {
        0
    } else {
        let init = unreadable(codec, texts.drop_last());
        if (codec.read)(texts.last()) is Some {
            init
        } else {
            session_store::counted(init)
        }
    }
}

/// The metadata that are read of a session: the file, or its backup where only that is there.
pub open spec fn metadata_of(d: SessionDisk, dir: Seq<char>) -> Option<session::MetadataView> {
    if d.metadata.contains_key(session_store::metadata_place(dir)) {
        Some(d.metadata[session_store::metadata_place(dir)])
    } else if d.metadata.contains_key(session_store::metadata_backup_place(dir)) {
        Some(d.metadata[session_store::metadata_backup_place(dir)])
    } else {
        None
    }
}

pub open spec fn loading(
    codec: Codec,
    start: SessionDisk,
    root: Seq<char>,
    id: Seq<char>,
    now: SessionScene,
) -> bool {
    let dir = paths::below(root, id);
    let all = session::record_texts(start.contents(session_store::records_place(dir)));
    &&& now.disk == start
    &&& now.op.root == root
    &&& match now.op.stage {
        session_store::SessionStageView::LoadMetadata { id: x, primary } => x == id && (primary
            is Some ==> !start.metadata.contains_key(session_store::metadata_place(dir))),
        session_store::SessionStageView::LoadRecords { id: x, metadata } => x == id
            && metadata_of(start, dir) == Some(metadata),
        session_store::SessionStageView::Parse { metadata, texts, index, records, corrupted } => {
            &&& metadata_of(start, dir) == Some(metadata)
            &&& texts == all
            &&& 0 <= index < texts.len()
            &&& records == readable(codec, all.take(index))
            &&& corrupted == unreadable(codec, all.take(index))
        },
        session_store::SessionStageView::Done(Ok(outcome)) => {
            &&& outcome matches session_store::SessionOutcomeView::Loaded(l)
            &&& metadata_of(start, dir) == Some(l.metadata)
            &&& l.records == readable(codec, all)
            &&& l.corrupted_records == unreadable(codec, all)
        },
        session_store::SessionStageView::Done(Err(_)) => true,
        _ => false,
    }
}

proof fn lemma_parse_from(
    codec: Codec,
    start: SessionDisk,
    root: Seq<char>,
    id: Seq<char>,
    op: session_store::SessionOperationView,
    metadata: session::MetadataView,
    i: int,
)
    requires
        op.root == root,
        metadata_of(start, paths::below(root, id)) == Some(metadata),
        0 <= i <= session::record_texts(
            start.contents(session_store::records_place(paths::below(root, id))),
        ).len(),
    ensures
        ({
            let all = session::record_texts(
                start.contents(session_store::records_place(paths::below(root, id))),
            );
            loading(
                codec,
                start,
                root,
                id,
                SessionScene {
                    disk: start,
                    op: op.parse_from(
                        metadata,
                        all,
                        i,
                        readable(codec, all.take(i)),
                        unreadable(codec, all.take(i)),
                    ),
                },
            )
        }),
{
    let all = session::record_texts(
        start.contents(session_store::records_place(paths::below(root, id))),
    );
    if i >= all.len() {
        assert(all.take(i) =~= all);
    }
}

proof fn lemma_loading(
    codec: Codec,
    start: SessionDisk,
    root: Seq<char>,
    id: Seq<char>,
    now: SessionScene,
    after: SessionScene,
)
    requires
        loading(codec, start, root, id, now),
        now.leads_to(codec, after),
    ensures
        loading(codec, start, root, id, after),
{
    let reply = choose|reply: session_store::SessionReplyView| #[trigger]
        now.steps(codec, reply, after);
    let dir = paths::below(root, id);
    let contents = start.contents(session_store::records_place(dir));
    let all = session::record_texts(contents);
    match now.op.stage {
        session_store::SessionStageView::LoadRecords { id: x, metadata } => {
            assert(all.take(0) =~= Seq::empty());
            lemma_parse_from(codec, start, root, id, now.op, metadata, 0);
            if let session_store::SessionReplyView::Contents(Err(e)) = reply {
                if e.kind == IoErrorKind::NotFound {
                    assert(contents =~= Seq::empty());
                    lemma_no_records();
                }
            }
        },
        session_store::SessionStageView::Parse { metadata, texts, index, records, corrupted } => {
            assert(all.take(index + 1).drop_last() =~= all.take(index));
            assert(all.take(index + 1).last() == all[index]);
            lemma_parse_from(codec, start, root, id, now.op, metadata, index + 1);
        },
        _ => {},
    }
}

proof fn lemma_no_records()
    ensures
        session::record_texts(Seq::empty()) == Seq::<Seq<char>>::empty(),
{
    let list = crate::text::lines(Seq::empty());
    assert(list =~= seq![Seq::empty()]);
    assert(session::filled_lines(list.drop_last()) =~= Seq::empty()) by {
        assert(list.drop_last() =~= Seq::empty());
    }
    assert(session::without_returns(list.last()) =~= Seq::empty());
}

proof fn lemma_load_run(
    codec: Codec,
    id: Seq<char>,
    scenes: Seq<SessionScene>,
    i: int,
)
    requires
        is_run(
            codec,
            session_store::SessionStageView::LoadMetadata { id, primary: None },
            scenes,
        ),
        0 <= i < scenes.len(),
    ensures
        loading(codec, scenes[0].disk, scenes[0].op.root, id, scenes[i]),
    decreases i,
{
    if i > 0 {
        lemma_load_run(codec, id, scenes, i - 1);
        assert(scenes[i - 1].leads_to(codec, scenes[i - 1 + 1]));
        lemma_loading(codec, scenes[0].disk, scenes[0].op.root, id, scenes[i - 1], scenes[i]);
    }
}

/// A load changes nothing; where it succeeds it gives the metadata of the session, or of the
/// backup where only that can be read, every record that can be read, in order, and the number of
/// those that cannot.
pub proof fn loads_are_exact(codec: Codec, id: Seq<char>, scenes: Seq<SessionScene>, i: int)
    requires
        is_run(
            codec,
            session_store::SessionStageView::LoadMetadata { id, primary: None },
            scenes,
        ),
        0 <= i < scenes.len(),
    ensures
        ({
            let d = scenes[0].disk;
            let dir = paths::below(scenes[0].op.root, id);
            let texts = session::record_texts(d.contents(session_store::records_place(dir)));
            &&& scenes[i].disk == d
            &&& scenes[i].op.stage matches session_store::SessionStageView::Done(Ok(outcome)) ==> {
                &&& outcome matches session_store::SessionOutcomeView::Loaded(l)
                &&& metadata_of(d, dir) == Some(l.metadata)
                &&& l.records == readable(codec, texts)
                &&& l.corrupted_records == unreadable(codec, texts)
            }
        }),
{
    lemma_load_run(codec, id, scenes, i);
}

/// That a reply reports no failure of the file system. What cannot be read as metadata is no
/// failure.
pub open spec fn fine(reply: session_store::SessionReplyView) -> bool {
    match reply {
        session_store::SessionReplyView::Done(r) => r is Ok,
        session_store::SessionReplyView::Contents(r) => r matches Err(e) ==> e.kind
            == IoErrorKind::NotFound,
        session_store::SessionReplyView::Entries(r) => match r {
            Ok(entries) => all_read(entries),
            Err(e) => e.kind == IoErrorKind::NotFound,
        },
        _ => true,
    }
}

pub open spec fn leads_smoothly(codec: Codec, now: SessionScene, after: SessionScene) -> bool {
    exists|reply: session_store::SessionReplyView| #[trigger]
        now.steps(codec, reply, after) && fine(reply)
}

/// That each scene leads to the next without a failure of the file system.
pub open spec fn is_smooth_run(
    codec: Codec,
    first: session_store::SessionStageView,
    scenes: Seq<SessionScene>,
) -> bool {
    &&& is_run(codec, first, scenes)
    &&& forall|i: int|
        0 <= i < scenes.len() - 1 ==> leads_smoothly(codec, #[trigger] scenes[i], scenes[i + 1])
}

/// Where no read fails, a session whose metadata can be read, or those of its backup, is loaded:
/// the load ends with them, with every record that can be read, in order, and with the number of
/// those that cannot.
pub proof fn undisturbed_loads_succeed(
    codec: Codec,
    id: Seq<char>,
    scenes: Seq<SessionScene>,
    i: int,
)
    requires
        is_smooth_run(
            codec,
            session_store::SessionStageView::LoadMetadata { id, primary: None },
            scenes,
        ),
        metadata_of(scenes[0].disk, paths::below(scenes[0].op.root, id)) is Some,
        0 <= i < scenes.len(),
    ensures
        ({
            let d = scenes[0].disk;
            let dir = paths::below(scenes[0].op.root, id);
            let texts = session::record_texts(d.contents(session_store::records_place(dir)));
            scenes[i].op.stage matches session_store::SessionStageView::Done(r) ==> r == Ok::<
                session_store::SessionOutcomeView,
                io::IoErrorView,
            >(
                session_store::SessionOutcomeView::Loaded(
                    session::LoadedView {
                        metadata: metadata_of(d, dir)->0,
                        records: readable(codec, texts),
                        corrupted_records: unreadable(codec, texts),
                    },
                ),
            )
        }),
    decreases i,
{
    lemma_load_run(codec, id, scenes, i);
    if i > 0 {
        undisturbed_loads_succeed(codec, id, scenes, i - 1);
        lemma_load_run(codec, id, scenes, i - 1);
        assert(leads_smoothly(codec, scenes[i - 1], scenes[i - 1 + 1]));
        let reply = choose|reply: session_store::SessionReplyView| #[trigger]
            scenes[i - 1].steps(codec, reply, scenes[i]) && fine(reply);
    }
}

/// A message that was appended is what a load finds last, after all that a load found before, with
/// the same metadata and the same number of records that cannot be read; where the last line of the
/// file was complete, the codec is faithful and no read fails.
pub proof fn appended_messages_are_loaded(
    codec: Codec,
    id: Seq<char>,
    record: session::RecordView,
    before: Seq<SessionScene>,
    l: session::LoadedView,
    append: Seq<SessionScene>,
    load: Seq<SessionScene>,
)
    requires
        codec.faithful(),
        is_run(codec, session_store::SessionStageView::LoadMetadata { id, primary: None }, before),
        before.last().op.stage == session_store::SessionStageView::Done(
            Ok(session_store::SessionOutcomeView::Loaded(l)),
        ),
        is_run(codec, session_store::SessionStageView::LookForAppend { id, record }, append),
        append[0].disk == before.last().disk,
        append[0].op.root == before[0].op.root,
        append.last().op.stage == session_store::SessionStageView::Done(
            Ok(session_store::SessionOutcomeView::Finished),
        ),
        is_smooth_run(
            codec,
            session_store::SessionStageView::LoadMetadata { id, primary: None },
            load,
        ),
        load[0].disk == append.last().disk,
        load[0].op.root == append[0].op.root,
        load.last().op.stage is Done,
        ({
            let contents = append[0].disk.contents(
                session_store::records_place(paths::below(append[0].op.root, id)),
            );
            contents.len() == 0 || contents.last() == '\n'
        }),
    ensures
        load.last().op.stage == session_store::SessionStageView::Done(
            Ok(
                session_store::SessionOutcomeView::Loaded(
                    session::LoadedView { records: l.records.push(record), ..l },
                ),
            ),
        ),
{
    let path = session_store::records_place(paths::below(append[0].op.root, id));
    let contents = append[0].disk.contents(path);
    lemma_load_run(codec, id, before, before.len() - 1);
    lemma_append_run(codec, id, record, append, append.len() - 1);
    undisturbed_loads_succeed(codec, id, load, load.len() - 1);
    let written = (codec.write)(record);
    assert(session::one_line(written));
    session::written_records_are_read_back(contents, written);
    let texts = session::record_texts(contents).push(written);
    assert(texts.drop_last() =~= session::record_texts(contents));
    assert(texts.last() == written);
}

proof fn lemma_append_run(
    codec: Codec,
    id: Seq<char>,
    record: session::RecordView,
    scenes: Seq<SessionScene>,
    i: int,
)
    requires
        is_run(codec, session_store::SessionStageView::LookForAppend { id, record }, scenes),
        0 <= i < scenes.len(),
    ensures
        ({
            let path = session_store::records_place(paths::below(scenes[0].op.root, id));
            let start = scenes[0].disk;
            let now = scenes[i];
            &&& now.op.root == scenes[0].op.root
            &&& now.disk.metadata == start.metadata
            &&& match now.op.stage {
                session_store::SessionStageView::LookForAppend { id: x, record: r } => x == id && r
                    == record && now.disk == start,
                session_store::SessionStageView::Append { id: x, record: r } => x == id && r
                    == record && now.disk == start,
                session_store::SessionStageView::Done(Ok(_)) => now.disk.contents(path)
                    == start.contents(path) + (codec.write)(record).push('\n'),
                session_store::SessionStageView::Done(Err(_)) => true,
                _ => false,
            }
        }),
    decreases i,
{
    if i > 0 {
        lemma_append_run(codec, id, record, scenes, i - 1);
        assert(scenes[i - 1].leads_to(codec, scenes[i - 1 + 1]));
        let reply = choose|reply: session_store::SessionReplyView| #[trigger]
            scenes[i - 1].steps(codec, reply, scenes[i]);
    }
}

/// A session that was created is loaded with the metadata that its creation gave, under an
/// identifier that can name a session, and without records: so ends every load right after the
/// creation that succeeds, and every one in which no read fails.
pub proof fn created_sessions_are_loaded(
    codec: Codec,
    workspace: Seq<char>,
    create: Seq<SessionScene>,
    m: session::MetadataView,
    load: Seq<SessionScene>,
)
    requires
        is_run(codec, session_store::SessionStageView::MakeRoot { workspace }, create),
        create.last().op.stage == session_store::SessionStageView::Done(
            Ok(session_store::SessionOutcomeView::Created(m)),
        ),
        is_run(
            codec,
            session_store::SessionStageView::LoadMetadata { id: m.id, primary: None },
            load,
        ),
        load[0].disk == create.last().disk,
        load[0].op.root == create[0].op.root,
    ensures
        session::valid_id(m.id),
        m == session_store::fresh_metadata(m.id, workspace, m.created_at),
        ({
            let l = session::LoadedView {
                metadata: m,
                records: Seq::empty(),
                corrupted_records: 0,
            };
            ends_with(codec, m.id, load, l)
        }),
{
    lemma_create_run(codec, workspace, create, create.len() - 1);
    lemma_load_run(codec, m.id, load, load.len() - 1);
    lemma_no_records();
    let d = load[0].disk;
    let dir = paths::below(load[0].op.root, m.id);
    let texts = session::record_texts(d.contents(session_store::records_place(dir)));
    assert(readable(codec, texts) =~= Seq::empty());
    if is_smooth_load(codec, m.id, load) {
        undisturbed_loads_succeed(codec, m.id, load, load.len() - 1);
    }
}

/// That no read of a load fails.
pub open spec fn is_smooth_load(codec: Codec, id: Seq<char>, load: Seq<SessionScene>) -> bool {
    is_smooth_run(
        codec,
        session_store::SessionStageView::LoadMetadata { id, primary: None },
        load,
    )
}

/// That a load, once it has ended, gives `l` if it succeeds, and does so if no read fails.
pub open spec fn ends_with(
    codec: Codec,
    id: Seq<char>,
    load: Seq<SessionScene>,
    l: session::LoadedView,
) -> bool {
    load.last().op.stage matches session_store::SessionStageView::Done(r) ==> {
        let loaded = Ok::<session_store::SessionOutcomeView, io::IoErrorView>(
            session_store::SessionOutcomeView::Loaded(l),
        );
        &&& r is Ok ==> r == loaded
        &&& is_smooth_load(codec, id, load) ==> r == loaded
    }
}

proof fn lemma_create_run(
    codec: Codec,
    workspace: Seq<char>,
    scenes: Seq<SessionScene>,
    i: int,
)
    requires
        is_run(codec, session_store::SessionStageView::MakeRoot { workspace }, scenes),
        0 <= i < scenes.len(),
    ensures
        ({
            let root = scenes[0].op.root;
            let now = scenes[i];
            &&& now.op.root == root
            &&& match now.op.stage {
                session_store::SessionStageView::MakeRoot { workspace: w } => w == workspace,
                session_store::SessionStageView::NewId { workspace: w } => w == workspace,
                session_store::SessionStageView::MakeDirectory { workspace: w, id } => w
                    == workspace && session::valid_id(id),
                session_store::SessionStageView::Clock { workspace: w, id } => w == workspace
                    && session::valid_id(id) && now.disk.directories.contains(
                    paths::below(root, id),
                ) && !now.disk.records.contains_key(
                    session_store::records_place(paths::below(root, id)),
                ),
                session_store::SessionStageView::SaveNew { metadata } => {
                    &&& session::valid_id(metadata.id)
                    &&& now.disk.directories.contains(paths::below(root, metadata.id))
                    &&& !now.disk.records.contains_key(
                        session_store::records_place(paths::below(root, metadata.id)),
                    )
                    &&& metadata == session_store::fresh_metadata(
                        metadata.id,
                        workspace,
                        metadata.created_at,
                    )
                },
                session_store::SessionStageView::Done(Ok(outcome)) => {
                    &&& outcome matches session_store::SessionOutcomeView::Created(m)
                    &&& session::valid_id(m.id)
                    &&& m == session_store::fresh_metadata(m.id, workspace, m.created_at)
                    &&& now.disk.directories.contains(paths::below(root, m.id))
                    &&& !now.disk.records.contains_key(
                        session_store::records_place(paths::below(root, m.id)),
                    )
                    &&& metadata_of(now.disk, paths::below(root, m.id)) == Some(m)
                },
                session_store::SessionStageView::Discard { .. } => true,
                session_store::SessionStageView::Done(Err(_)) => true,
                _ => false,
            }
        }),
    decreases i,
{
    if i > 0 {
        lemma_create_run(codec, workspace, scenes, i - 1);
        assert(scenes[i - 1].leads_to(codec, scenes[i - 1 + 1]));
        let reply = choose|reply: session_store::SessionReplyView| #[trigger]
            scenes[i - 1].steps(codec, reply, scenes[i]);
        if let session_store::SessionStageView::MakeDirectory { workspace: _, id } = scenes[i
            - 1].op.stage {
            reveal_strlit("records.jsonl");
            lemma_under(scenes[0].op.root, id, "records.jsonl"@);
        }
    }
}

/// Metadata that were saved are what a load finds, beside the records that were there: so ends
/// every load right after the saving that succeeds, and every one in which no read fails.
pub proof fn saved_metadata_are_loaded(
    codec: Codec,
    m: session::MetadataView,
    save: Seq<SessionScene>,
    load: Seq<SessionScene>,
)
    requires
        is_run(codec, session_store::SessionStageView::LookForSave { metadata: m }, save),
        save.last().op.stage == session_store::SessionStageView::Done(
            Ok(session_store::SessionOutcomeView::Finished),
        ),
        is_run(
            codec,
            session_store::SessionStageView::LoadMetadata { id: m.id, primary: None },
            load,
        ),
        load[0].disk == save.last().disk,
        load[0].op.root == save[0].op.root,
    ensures
        ({
            let dir = paths::below(save[0].op.root, m.id);
            let texts = session::record_texts(
                save[0].disk.contents(session_store::records_place(dir)),
            );
            let l = session::LoadedView {
                metadata: m,
                records: readable(codec, texts),
                corrupted_records: unreadable(codec, texts),
            };
            ends_with(codec, m.id, load, l)
        }),
{
    lemma_save_run(codec, m, save, save.len() - 1);
    lemma_load_run(codec, m.id, load, load.len() - 1);
    if is_smooth_load(codec, m.id, load) {
        undisturbed_loads_succeed(codec, m.id, load, load.len() - 1);
    }
}

proof fn lemma_save_run(
    codec: Codec,
    m: session::MetadataView,
    scenes: Seq<SessionScene>,
    i: int,
)
    requires
        is_run(codec, session_store::SessionStageView::LookForSave { metadata: m }, scenes),
        0 <= i < scenes.len(),
    ensures
        ({
            let now = scenes[i];
            &&& now.op.root == scenes[0].op.root
            &&& now.disk.records == scenes[0].disk.records
            &&& match now.op.stage {
                session_store::SessionStageView::LookForSave { metadata } => metadata == m,
                session_store::SessionStageView::Save { metadata } => metadata == m,
                session_store::SessionStageView::Done(Ok(_)) => metadata_of(
                    now.disk,
                    paths::below(now.op.root, m.id),
                ) == Some(m),
                session_store::SessionStageView::Done(Err(_)) => true,
                _ => false,
            }
        }),
    decreases i,
{
    if i > 0 {
        lemma_save_run(codec, m, scenes, i - 1);
        assert(scenes[i - 1].leads_to(codec, scenes[i - 1 + 1]));
        let reply = choose|reply: session_store::SessionReplyView| #[trigger]
            scenes[i - 1].steps(codec, reply, scenes[i]);
    }
}

// ---------------------------------------------------------------------------------------------
// Lists

/// The metadata of the directories among the entries that have some, in order.
pub open spec fn listable(
    d: SessionDisk,
    root: Seq<char>,
    entries: Seq<session_store::DirectoryEntryResult>,
) -> Seq<session::MetadataView>
    decreases entries.len(),
{
    if entries.len() == 0 {
        Seq::empty()
    } else {
        let init = listable(d, root, entries.drop_last());
        let entry = entries.last()->Ok_0;
        let found = metadata_of(d, paths::below(root, entry.name));
        if entry.is_dir && found is Some {
            init.push(found->0)
        } else {
            init
        }
    }
}

/// How many directories among the entries have no metadata that can be read, up to the largest
/// number.
pub open spec fn unlistable(
    d: SessionDisk,
    root: Seq<char>,
    entries: Seq<session_store::DirectoryEntryResult>,
) -> usize
    decreases entries.len(),
{
    if entries.len() == 0 {
        0
    } else {
        let init = unlistable(d, root, entries.drop_last());
        let entry = entries.last()->Ok_0;
        if entry.is_dir && metadata_of(d, paths::below(root, entry.name)) is None {
            session_store::counted(init)
        } else {
            init
        }
    }
}

/// That a list is what the entries of the store's directory come to.
pub open spec fn lists_entries(
    d: SessionDisk,
    root: Seq<char>,
    entries: Seq<session_store::DirectoryEntryResult>,
    l: session::ListView,
) -> bool {
    &&& d.lists(root, entries)
    &&& all_read(entries)
    &&& l.sessions == session::in_list_order(listable(d, root, entries))
    &&& l.skipped_corrupt == unlistable(d, root, entries)
}

/// That a list is of the store's directory.
pub open spec fn is_list(d: SessionDisk, root: Seq<char>, l: session::ListView) -> bool {
    exists|entries: Seq<session_store::DirectoryEntryResult>| #[trigger]
        lists_entries(d, root, entries, l)
}

pub open spec fn listing(start: SessionDisk, root: Seq<char>, now: SessionScene) -> bool {
    &&& now.disk == start
    &&& now.op.root == root
    &&& match now.op.stage {
        session_store::SessionStageView::List => true,
        session_store::SessionStageView::Read { entries, index, found, skipped, backup } => {
            &&& start.lists(root, entries)
            &&& 0 <= index < entries.len()
            &&& all_read(entries.take(index + 1))
            &&& entries[index]->Ok_0.is_dir
            &&& found == listable(start, root, entries.take(index))
            &&& skipped == unlistable(start, root, entries.take(index))
            &&& backup ==> !start.metadata.contains_key(
                session_store::metadata_place(paths::below(root, entries[index]->Ok_0.name)),
            )
        },
        session_store::SessionStageView::Done(Ok(outcome)) => outcome
            matches session_store::SessionOutcomeView::Listed(l) && is_list(start, root, l),
        session_store::SessionStageView::Done(Err(_)) => true,
        _ => false,
    }
}

proof fn lemma_read_from(
    start: SessionDisk,
    root: Seq<char>,
    op: session_store::SessionOperationView,
    entries: Seq<session_store::DirectoryEntryResult>,
    i: int,
)
    requires
        op.root == root,
        start.lists(root, entries),
        0 <= i <= entries.len(),
        all_read(entries.take(i)),
    ensures
        listing(
            start,
            root,
            SessionScene {
                disk: start,
                op: op.read_from(
                    entries,
                    i,
                    listable(start, root, entries.take(i)),
                    unlistable(start, root, entries.take(i)),
                ),
            },
        ),
    decreases entries.len() - i,
{
    let found = listable(start, root, entries.take(i));
    let skipped = unlistable(start, root, entries.take(i));
    let next = SessionScene { disk: start, op: op.read_from(entries, i, found, skipped) };
    if i >= entries.len() {
        assert(entries.take(i) =~= entries);
        let l = session::ListView {
            sessions: session::in_list_order(found),
            skipped_corrupt: skipped,
        };
        assert(next.op.stage == session_store::SessionStageView::Done(
            Ok(session_store::SessionOutcomeView::Listed(l)),
        ));
        assert(lists_entries(start, root, entries, l));
        assert(is_list(start, root, l));
    } else if entries[i] is Ok {
        let more = entries.take(i + 1);
        assert(more.drop_last() =~= entries.take(i));
        assert(more.last() == entries[i]);
        assert forall|k: int| 0 <= k < more.len() implies (#[trigger] more[k]) is Ok by {
            if k < i {
                assert(entries.take(i)[k] is Ok);
            }
        }
        if !entries[i]->Ok_0.is_dir {
            lemma_read_from(start, root, op, entries, i + 1);
            assert(listable(start, root, more) == found);
            assert(unlistable(start, root, more) == skipped);
            assert(next.op == op.read_from(entries, i + 1, found, skipped));
        }
    }
}

proof fn lemma_listing(
    codec: Codec,
    start: SessionDisk,
    root: Seq<char>,
    now: SessionScene,
    after: SessionScene,
)
    requires
        listing(start, root, now),
        now.leads_to(codec, after),
    ensures
        listing(start, root, after),
{
    let reply = choose|reply: session_store::SessionReplyView| #[trigger]
        now.steps(codec, reply, after);
    match now.op.stage {
        session_store::SessionStageView::List => {
            let none = Seq::<session_store::DirectoryEntryResult>::empty();
            if let session_store::SessionReplyView::Entries(r) = reply {
                match r {
                    Ok(entries) => {
                        assert(entries.take(0) =~= none);
                        lemma_read_from(start, root, now.op, entries, 0);
                    },
                    Err(e) => {
                        if e.kind == IoErrorKind::NotFound {
                            let l = session::ListView {
                                sessions: Seq::empty(),
                                skipped_corrupt: 0,
                            };
                            assert(listable(start, root, none) =~= Seq::empty());
                            assert(session::in_list_order(
                                Seq::<session::MetadataView>::empty(),
                            ) =~= Seq::empty());
                            assert(lists_entries(start, root, none, l));
                            assert(is_list(start, root, l));
                        }
                    },
                }
            }
        },
        session_store::SessionStageView::Read { entries, index, found, skipped, backup } => {
            let more = entries.take(index + 1);
            assert(more.drop_last() =~= entries.take(index));
            assert(more.last() == entries[index]);
            lemma_read_from(start, root, now.op, entries, index + 1);
        },
        _ => {},
    }
}

proof fn lemma_list_run(codec: Codec, scenes: Seq<SessionScene>, i: int)
    requires
        is_run(codec, session_store::SessionStageView::List, scenes),
        0 <= i < scenes.len(),
    ensures
        listing(scenes[0].disk, scenes[0].op.root, scenes[i]),
    decreases i,
{
    if i > 0 {
        lemma_list_run(codec, scenes, i - 1);
        assert(scenes[i - 1].leads_to(codec, scenes[i - 1 + 1]));
        lemma_listing(codec, scenes[0].disk, scenes[0].op.root, scenes[i - 1], scenes[i]);
    }
}

/// A list changes nothing and never looks at records; where it succeeds it gives the metadata of
/// the directories in the store that have some, in the order of the list, and the number of those
/// that have none.
pub proof fn lists_are_exact(codec: Codec, scenes: Seq<SessionScene>, i: int)
    requires
        is_run(codec, session_store::SessionStageView::List, scenes),
        0 <= i < scenes.len(),
    ensures
        scenes[i].disk == scenes[0].disk,
        scenes[i].op.request() matches Some(request) ==> request is ListDirectory
            || request is ReadMetadata,
        scenes[i].op.stage matches session_store::SessionStageView::Done(Ok(outcome)) ==> (
        outcome matches session_store::SessionOutcomeView::Listed(l) && is_list(
            scenes[0].disk,
            scenes[0].op.root,
            l,
        )),
{
    lemma_list_run(codec, scenes, i);
}

/// Where no read fails, a list does not fail either.
pub proof fn undisturbed_lists_succeed(codec: Codec, scenes: Seq<SessionScene>, i: int)
    requires
        is_smooth_run(codec, session_store::SessionStageView::List, scenes),
        0 <= i < scenes.len(),
    ensures
        scenes[i].op.stage matches session_store::SessionStageView::Done(r) ==> r is Ok,
{
    lemma_list_smooth(codec, scenes, i);
}

pub open spec fn listing_well(op: session_store::SessionOperationView) -> bool {
    match op.stage {
        session_store::SessionStageView::Read { entries, .. } => all_read(entries),
        session_store::SessionStageView::Done(r) => r is Ok,
        _ => true,
    }
}

proof fn lemma_read_well(
    op: session_store::SessionOperationView,
    entries: Seq<session_store::DirectoryEntryResult>,
    i: int,
    found: Seq<session::MetadataView>,
    skipped: usize,
)
    requires
        all_read(entries),
        0 <= i,
    ensures
        listing_well(op.read_from(entries, i, found, skipped)),
    decreases entries.len() - i,
{
    if i < entries.len() {
        assert(entries[i] is Ok);
        lemma_read_well(op, entries, i + 1, found, skipped);
    }
}

proof fn lemma_list_smooth(codec: Codec, scenes: Seq<SessionScene>, i: int)
    requires
        is_smooth_run(codec, session_store::SessionStageView::List, scenes),
        0 <= i < scenes.len(),
    ensures
        listing_well(scenes[i].op),
    decreases i,
{
    if i > 0 {
        let now = scenes[i - 1];
        lemma_list_smooth(codec, scenes, i - 1);
        lemma_list_run(codec, scenes, i - 1);
        assert(leads_smoothly(codec, scenes[i - 1], scenes[i - 1 + 1]));
        let reply = choose|reply: session_store::SessionReplyView| #[trigger]
            now.steps(codec, reply, scenes[i]) && fine(reply);
        match now.op.stage {
            session_store::SessionStageView::List => {
                if reply is Entries && reply->Entries_0 is Ok {
                    lemma_read_well(now.op, reply->Entries_0->Ok_0, 0, Seq::empty(), 0);
                }
            },
            session_store::SessionStageView::Read { entries, index, found, skipped, backup } => {
                if reply is Metadata {
                    if reply->Metadata_0 is Ok {
                        let m = reply->Metadata_0->Ok_0;
                        lemma_read_well(now.op, entries, index + 1, found.push(m), skipped);
                    }
                    let more = session_store::counted(skipped);
                    lemma_read_well(now.op, entries, index + 1, found, more);
                }
            },
            _ => {},
        }
    }
}

proof fn lemma_listable(
    d: SessionDisk,
    root: Seq<char>,
    entries: Seq<session_store::DirectoryEntryResult>,
    k: int,
)
    requires
        0 <= k < entries.len(),
        entries[k]->Ok_0.is_dir,
        metadata_of(d, paths::below(root, entries[k]->Ok_0.name)) is Some,
    ensures
        listable(d, root, entries).contains(
            metadata_of(d, paths::below(root, entries[k]->Ok_0.name))->0,
        ),
    decreases entries.len(),
{
    let m = metadata_of(d, paths::below(root, entries[k]->Ok_0.name))->0;
    let all = listable(d, root, entries);
    if k == entries.len() - 1 {
        assert(all[all.len() - 1] == m);
    } else {
        let init = listable(d, root, entries.drop_last());
        lemma_listable(d, root, entries.drop_last(), k);
        let j = choose|j: int| 0 <= j < init.len() && init[j] == m;
        assert(all[j] == m);
    }
}

/// Every session whose metadata can be read is in the list; so is one that was just created.
pub proof fn sessions_are_listed(
    codec: Codec,
    scenes: Seq<SessionScene>,
    l: session::ListView,
    id: Seq<char>,
)
    requires
        is_run(codec, session_store::SessionStageView::List, scenes),
        scenes.last().op.stage == session_store::SessionStageView::Done(
            Ok(session_store::SessionOutcomeView::Listed(l)),
        ),
        session::valid_id(id),
        scenes[0].disk.directories.contains(paths::below(scenes[0].op.root, id)),
        metadata_of(scenes[0].disk, paths::below(scenes[0].op.root, id)) is Some,
    ensures
        l.sessions.contains(metadata_of(scenes[0].disk, paths::below(scenes[0].op.root, id))->0),
{
    let d = scenes[0].disk;
    let root = scenes[0].op.root;
    let m = metadata_of(d, paths::below(root, id))->0;
    lemma_list_run(codec, scenes, scenes.len() - 1);
    let entries = choose|entries: Seq<session_store::DirectoryEntryResult>| #[trigger]
        lists_entries(d, root, entries, l);
    assert(has_name(entries, id));
    let k = choose|k: int|
        0 <= k < entries.len() && (#[trigger] entries[k]) is Ok && entries[k]->Ok_0.name == id;
    lemma_listable(d, root, entries, k);
    let found = listable(d, root, entries);
    session::sessions_are_listed_newest_first(found);
    found.to_multiset_ensures();
    session::in_list_order(found).to_multiset_ensures();
    assert(found.to_multiset().count(m) > 0);
}

/// A session that was created is in the list that is made next: in every list that succeeds, and
/// one in which no read fails does.
pub proof fn created_sessions_are_listed(
    codec: Codec,
    workspace: Seq<char>,
    create: Seq<SessionScene>,
    m: session::MetadataView,
    list: Seq<SessionScene>,
)
    requires
        is_run(codec, session_store::SessionStageView::MakeRoot { workspace }, create),
        create.last().op.stage == session_store::SessionStageView::Done(
            Ok(session_store::SessionOutcomeView::Created(m)),
        ),
        is_run(codec, session_store::SessionStageView::List, list),
        list[0].disk == create.last().disk,
        list[0].op.root == create[0].op.root,
    ensures
        list.last().op.stage matches session_store::SessionStageView::Done(r) ==> {
            &&& r is Ok ==> lists_session(r, m)
            &&& is_smooth_run(codec, session_store::SessionStageView::List, list) ==> lists_session(
                r,
                m,
            )
        },
{
    lemma_create_run(codec, workspace, create, create.len() - 1);
    lemma_list_run(codec, list, list.len() - 1);
    if is_smooth_run(codec, session_store::SessionStageView::List, list) {
        undisturbed_lists_succeed(codec, list, list.len() - 1);
    }
    if let session_store::SessionStageView::Done(
        Ok(session_store::SessionOutcomeView::Listed(l)),
    ) = list.last().op.stage {
        sessions_are_listed(codec, list, l, m.id);
    }
}

/// That a list was made and holds the given session.
pub open spec fn lists_session(
    r: Result<session_store::SessionOutcomeView, io::IoErrorView>,
    m: session::MetadataView,
) -> bool {
    r matches Ok(session_store::SessionOutcomeView::Listed(l)) && l.sessions.contains(m)
}

// ---------------------------------------------------------------------------------------------
// Sessions that are not there

/// A file in the directory of a session is below that directory.
pub proof fn lemma_under(root: Seq<char>, id: Seq<char>, file: Seq<char>)
    requires
        session::valid_id(id),
        file.len() > 0,
        file[0] != '/',
    ensures
        under(paths::below(root, id), paths::below(paths::below(root, id), file)),
{
    let dir = paths::below(root, id);
    assert(session::id_character(id[0]));
    assert(session::id_character(id[id.len() - 1]));
    assert(dir.last() == id.last());
    let q = paths::below(dir, file);
    assert(q == dir + seq!['/'] + file);
    assert(q.take(dir.len() as int) =~= dir);
}

/// A session that was deleted is gone with all that it held, and one that is gone can be deleted:
/// where the file system says that there is no such session, the deletion succeeds and changes
/// nothing.
pub proof fn deleted_sessions_are_gone(
    codec: Codec,
    id: Seq<char>,
    before: SessionScene,
    after: SessionScene,
)
    requires
        session::valid_id(id),
        before.op.stage == (session_store::SessionStageView::Remove { id }),
        before.leads_to(codec, after),
    ensures
        after.op.stage is Done,
        after.op.stage->Done_0 is Ok ==> {
            let dir = paths::below(before.op.root, id);
            &&& !after.disk.directories.contains(dir)
            &&& metadata_of(after.disk, dir) is None
            &&& after.disk.contents(session_store::records_place(dir)) == Seq::<char>::empty()
        },
        forall|e: crate::io::IoErrorView|
            e.kind == IoErrorKind::NotFound ==> (#[trigger] before.op.next(
                session_store::SessionReplyView::Done(Err(e)),
            )).stage == session_store::SessionStageView::Done(
                Ok(session_store::SessionOutcomeView::Finished),
            ),
        forall|e: crate::io::IoErrorView, d: SessionDisk|
            e.kind == IoErrorKind::NotFound && #[trigger] before.disk.performs(
                codec,
                session_store::SessionRequestView::RemoveAll {
                    path: paths::below(before.op.root, id),
                },
                session_store::SessionReplyView::Done(Err(e)),
                d,
            ) ==> d == before.disk,
{
    let reply = choose|reply: session_store::SessionReplyView| #[trigger]
        before.steps(codec, reply, after);
    let dir = paths::below(before.op.root, id);
    reveal_strlit("meta.json");
    reveal_strlit("meta.bak");
    reveal_strlit("records.jsonl");
    lemma_under(before.op.root, id, "meta.json"@);
    lemma_under(before.op.root, id, "meta.bak"@);
    lemma_under(before.op.root, id, "records.jsonl"@);
    assert(under(dir, dir));
}

/// Nothing can be appended to a session that is not there, and no metadata can be saved for it.
pub proof fn missing_sessions_take_nothing(
    codec: Codec,
    id: Seq<char>,
    before: SessionScene,
    after: SessionScene,
)
    requires
        match before.op.stage {
            session_store::SessionStageView::LookForAppend { id: x, record: _ } => x == id,
            session_store::SessionStageView::LookForSave { metadata } => metadata.id == id,
            _ => false,
        },
        !before.disk.directories.contains(paths::below(before.op.root, id)),
        before.leads_to(codec, after),
    ensures
        after.disk == before.disk,
        after.op.stage == session_store::SessionStageView::Done(Err(session::no_session_error())),
{
    let reply = choose|reply: session_store::SessionReplyView| #[trigger]
        before.steps(codec, reply, after);
}

/// A session that has no metadata, such as one that was deleted, cannot be loaded.
pub proof fn missing_sessions_are_not_loaded(
    codec: Codec,
    id: Seq<char>,
    scenes: Seq<SessionScene>,
    i: int,
)
    requires
        is_run(
            codec,
            session_store::SessionStageView::LoadMetadata { id, primary: None },
            scenes,
        ),
        metadata_of(scenes[0].disk, paths::below(scenes[0].op.root, id)) is None,
        0 <= i < scenes.len(),
    ensures
        scenes[i].op.stage matches session_store::SessionStageView::Done(r) ==> r is Err,
{
    lemma_load_run(codec, id, scenes, i);
}

// ---------------------------------------------------------------------------------------------
// One session at a time

/// That two disks hold the same of the session in a directory.
pub open spec fn same_session(a: SessionDisk, b: SessionDisk, dir: Seq<char>) -> bool {
    &&& a.directories.contains(dir) == b.directories.contains(dir)
    &&& metadata_of(a, dir) == metadata_of(b, dir)
    &&& a.contents(session_store::records_place(dir)) == b.contents(
        session_store::records_place(dir),
    )
}

/// What is in the directory of one session is not below that of another.
proof fn lemma_apart(root: Seq<char>, id: Seq<char>, other: Seq<char>, file: Seq<char>)
    requires
        session::valid_id(id),
        session::valid_id(other),
        id != other,
        file.len() > 0,
        file[0] != '/',
    ensures
        !under(paths::below(root, id), paths::below(root, other)),
        !under(paths::below(root, id), paths::below(paths::below(root, other), file)),
{
    let base = if root.len() == 0 {
        Seq::empty()
    } else if root.last() == '/' {
        root
    } else {
        root + seq!['/']
    };
    let dir = paths::below(root, id);
    let odir = paths::below(root, other);
    assert forall|i: int| 0 <= i < id.len() implies #[trigger] id[i] != '/' by {
        assert(session::id_character(id[i]));
    }
    assert forall|i: int| 0 <= i < other.len() implies #[trigger] other[i] != '/' by {
        assert(session::id_character(other[i]));
    }
    assert(dir =~= base + id);
    assert(odir =~= base + other);
    assert(odir.last() == other.last());
    let q = paths::below(odir, file);
    assert(q =~= base + other + seq!['/'] + file);
    let n = base.len() as int;
    assert(odir.skip(n) =~= other);
    assert(dir.skip(n) =~= id);
    if under(dir, odir) {
        if odir == dir {
            assert(odir.skip(n) == dir.skip(n));
        } else {
            assert(odir[n + id.len()] == other[id.len() as int]);
        }
    }
    if under(dir, q) {
        let head = q.take(dir.len() as int);
        if q == dir {
            assert(q[n + other.len()] == '/');
            assert(dir[n + other.len()] == id[other.len() as int]);
        } else if other.len() < id.len() {
            assert(head[n + other.len()] == q[n + other.len()]);
            assert(q[n + other.len()] == '/');
            assert(dir[n + other.len()] == id[other.len() as int]);
        } else if other.len() > id.len() {
            assert(q[n + id.len()] == other[id.len() as int]);
        } else {
            assert(head.skip(n) =~= other);
            assert(head.skip(n) == dir.skip(n));
        }
    }
}

/// What a step may change of other sessions than the one it is for: nothing.
proof fn lemma_other_session(
    before: SessionDisk,
    after: SessionDisk,
    root: Seq<char>,
    id: Seq<char>,
    other: Seq<char>,
)
    requires
        session::valid_id(id),
        session::valid_id(other),
        id != other,
        forall|q: Seq<char>|
            !under(paths::below(root, id), q) ==> #[trigger] before.agrees(after, q),
    ensures
        same_session(before, after, paths::below(root, other)),
{
    let odir = paths::below(root, other);
    reveal_strlit("meta.json");
    reveal_strlit("meta.bak");
    reveal_strlit("records.jsonl");
    lemma_apart(root, id, other, "meta.json"@);
    lemma_apart(root, id, other, "meta.bak"@);
    lemma_apart(root, id, other, "records.jsonl"@);
    assert(before.agrees(after, odir));
    assert(before.agrees(after, session_store::metadata_place(odir)));
    assert(before.agrees(after, session_store::metadata_backup_place(odir)));
    assert(before.agrees(after, session_store::records_place(odir)));
}

/// That an operation at a stage is for the session `id` alone.
pub open spec fn concerns(stage: session_store::SessionStageView, id: Seq<char>) -> bool {
    match stage {
        session_store::SessionStageView::LoadMetadata { .. } => true,
        session_store::SessionStageView::LoadRecords { .. } => true,
        session_store::SessionStageView::Parse { .. } => true,
        session_store::SessionStageView::LookForAppend { id: x, record: _ } => x == id,
        session_store::SessionStageView::Append { id: x, record: _ } => x == id,
        session_store::SessionStageView::LookForSave { metadata } => metadata.id == id,
        session_store::SessionStageView::Save { metadata } => metadata.id == id,
        session_store::SessionStageView::Remove { id: x } => x == id,
        session_store::SessionStageView::Done(_) => true,
        _ => false,
    }
}

proof fn lemma_one_session(
    codec: Codec,
    id: Seq<char>,
    now: SessionScene,
    after: SessionScene,
)
    requires
        session::valid_id(id),
        concerns(now.op.stage, id),
        now.leads_to(codec, after),
    ensures
        concerns(after.op.stage, id),
        after.op.root == now.op.root,
        forall|q: Seq<char>|
            !under(paths::below(now.op.root, id), q) ==> #[trigger] now.disk.agrees(after.disk, q),
{
    let reply = choose|reply: session_store::SessionReplyView| #[trigger]
        now.steps(codec, reply, after);
    let dir = paths::below(now.op.root, id);
    reveal_strlit("meta.json");
    reveal_strlit("meta.bak");
    reveal_strlit("records.jsonl");
    lemma_under(now.op.root, id, "meta.json"@);
    lemma_under(now.op.root, id, "meta.bak"@);
    lemma_under(now.op.root, id, "records.jsonl"@);
    assert forall|q: Seq<char>| !under(dir, q) implies #[trigger] now.disk.agrees(
        after.disk,
        q,
    ) by {
        if now.op.stage is Save {
            assert(q != session_store::metadata_place(dir));
            assert(q != session_store::metadata_backup_place(dir));
            assert(disk::same_at(now.disk.metadata, after.disk.metadata, q));
        } else if now.op.stage is Append {
            assert(q != session_store::records_place(dir));
        }
    }
}

/// Whatever is done with one session, whether it succeeds or not, leaves every other as it is.
pub proof fn other_sessions_stay_as_they_are(
    codec: Codec,
    first: session_store::SessionStageView,
    scenes: Seq<SessionScene>,
    id: Seq<char>,
    other: Seq<char>,
    i: int,
)
    requires
        is_run(codec, first, scenes),
        concerns(first, id),
        session::valid_id(id),
        session::valid_id(other),
        id != other,
        0 <= i < scenes.len(),
    ensures
        same_session(scenes[0].disk, scenes[i].disk, paths::below(scenes[0].op.root, other)),
{
    lemma_other_run(codec, first, scenes, id, other, i);
}

proof fn lemma_other_run(
    codec: Codec,
    first: session_store::SessionStageView,
    scenes: Seq<SessionScene>,
    id: Seq<char>,
    other: Seq<char>,
    i: int,
)
    requires
        is_run(codec, first, scenes),
        concerns(first, id),
        session::valid_id(id),
        session::valid_id(other),
        id != other,
        0 <= i < scenes.len(),
    ensures
        same_session(scenes[0].disk, scenes[i].disk, paths::below(scenes[0].op.root, other)),
        concerns(scenes[i].op.stage, id),
        scenes[i].op.root == scenes[0].op.root,
    decreases i,
{
    if i > 0 {
        lemma_other_run(codec, first, scenes, id, other, i - 1);
        assert(scenes[i - 1].leads_to(codec, scenes[i - 1 + 1]));
        lemma_one_session(codec, id, scenes[i - 1], scenes[i]);
        lemma_other_session(
            scenes[i - 1].disk,
            scenes[i].disk,
            scenes[0].op.root,
            id,
            other,
        );
    }
}

/// What holds at each stage of a creation, of a session that was there before.
pub open spec fn creating(
    start: SessionDisk,
    root: Seq<char>,
    other: Seq<char>,
    now: SessionScene,
) -> bool {
    &&& now.op.root == root
    &&& same_session(start, now.disk, paths::below(root, other))
    &&& match now.op.stage {
        session_store::SessionStageView::MakeRoot { .. } => true,
        session_store::SessionStageView::NewId { .. } => true,
        session_store::SessionStageView::MakeDirectory { workspace: _, id } => session::valid_id(
            id,
        ),
        session_store::SessionStageView::Clock { workspace: _, id } => session::valid_id(id) && id
            != other,
        session_store::SessionStageView::SaveNew { metadata } => session::valid_id(metadata.id)
            && metadata.id != other,
        session_store::SessionStageView::Discard { id, error: _ } => session::valid_id(id) && id
            != other,
        session_store::SessionStageView::Done(_) => true,
        _ => false,
    }
}

proof fn lemma_creating(
    codec: Codec,
    start: SessionDisk,
    root: Seq<char>,
    other: Seq<char>,
    now: SessionScene,
    after: SessionScene,
)
    requires
        session::valid_id(other),
        start.directories.contains(paths::below(root, other)),
        creating(start, root, other, now),
        now.leads_to(codec, after),
    ensures
        creating(start, root, other, after),
{
    let reply = choose|reply: session_store::SessionReplyView| #[trigger]
        now.steps(codec, reply, after);
    reveal_strlit("meta.json");
    reveal_strlit("meta.bak");
    match now.op.stage {
        session_store::SessionStageView::MakeDirectory { workspace: _, id } => {
            assert(under(paths::below(root, id), paths::below(root, id)));
        },
        session_store::SessionStageView::SaveNew { metadata } => {
            let id = metadata.id;
            let dir = paths::below(root, id);
            lemma_under(root, id, "meta.json"@);
            lemma_under(root, id, "meta.bak"@);
            assert forall|q: Seq<char>| !under(dir, q) implies #[trigger] now.disk.agrees(
                after.disk,
                q,
            ) by {
                assert(disk::same_at(now.disk.metadata, after.disk.metadata, q));
            }
            lemma_other_session(now.disk, after.disk, root, id, other);
        },
        session_store::SessionStageView::Discard { id, error: _ } => {
            if reply is Done {
                lemma_other_session(now.disk, after.disk, root, id, other);
            }
        },
        _ => {},
    }
}

/// The creation of a session, whether it succeeds or not, leaves every session that is there as it
/// is.
pub proof fn creations_leave_sessions_alone(
    codec: Codec,
    workspace: Seq<char>,
    scenes: Seq<SessionScene>,
    other: Seq<char>,
    i: int,
)
    requires
        is_run(codec, session_store::SessionStageView::MakeRoot { workspace }, scenes),
        session::valid_id(other),
        scenes[0].disk.directories.contains(paths::below(scenes[0].op.root, other)),
        0 <= i < scenes.len(),
    ensures
        same_session(scenes[0].disk, scenes[i].disk, paths::below(scenes[0].op.root, other)),
{
    lemma_creating_run(codec, workspace, scenes, other, i);
}

proof fn lemma_creating_run(
    codec: Codec,
    workspace: Seq<char>,
    scenes: Seq<SessionScene>,
    other: Seq<char>,
    i: int,
)
    requires
        is_run(codec, session_store::SessionStageView::MakeRoot { workspace }, scenes),
        session::valid_id(other),
        scenes[0].disk.directories.contains(paths::below(scenes[0].op.root, other)),
        0 <= i < scenes.len(),
    ensures
        creating(scenes[0].disk, scenes[0].op.root, other, scenes[i]),
    decreases i,
{
    if i > 0 {
        lemma_creating_run(codec, workspace, scenes, other, i - 1);
        assert(scenes[i - 1].leads_to(codec, scenes[i - 1 + 1]));
        lemma_creating(
            codec,
            scenes[0].disk,
            scenes[0].op.root,
            other,
            scenes[i - 1],
            scenes[i],
        );
    }
}

// ---------------------------------------------------------------------------------------------
// The order of lists, and what they count

/// In a list that is given, the time of the last change does not rise, and among sessions changed
/// at the same time the identifier does not.
pub proof fn given_lists_do_not_rise(
    codec: Codec,
    scenes: Seq<SessionScene>,
    l: session::ListView,
    i: int,
    j: int,
)
    requires
        is_run(codec, session_store::SessionStageView::List, scenes),
        scenes.last().op.stage == session_store::SessionStageView::Done(
            Ok(session_store::SessionOutcomeView::Listed(l)),
        ),
        0 <= i < j < l.sessions.len(),
    ensures
        l.sessions[i].updated_at >= l.sessions[j].updated_at,
        l.sessions[i].updated_at == l.sessions[j].updated_at ==> session::text_less(
            l.sessions[j].id,
            l.sessions[i].id,
        ) || l.sessions[i].id == l.sessions[j].id,
{
    let d = scenes[0].disk;
    let root = scenes[0].op.root;
    lemma_list_run(codec, scenes, scenes.len() - 1);
    let entries = choose|entries: Seq<session_store::DirectoryEntryResult>| #[trigger]
        lists_entries(d, root, entries, l);
    session::the_time_of_change_does_not_rise(listable(d, root, entries), i, j);
}

/// The directories of the store among its entries.
pub open spec fn session_directories(
    entries: Seq<session_store::DirectoryEntryResult>,
) -> Seq<session_store::DirectoryEntryResult> {
    entries.filter(|e: session_store::DirectoryEntryResult| e is Ok && e->Ok_0.is_dir)
}

proof fn lemma_listed_or_skipped(
    d: SessionDisk,
    root: Seq<char>,
    entries: Seq<session_store::DirectoryEntryResult>,
)
    requires
        all_read(entries),
        entries.len() <= usize::MAX,
    ensures
        listable(d, root, entries).len() + unlistable(d, root, entries) == session_directories(
            entries,
        ).len(),
        session_directories(entries).len() <= entries.len(),
    decreases entries.len(),
{
    let is_directory = |e: session_store::DirectoryEntryResult| e is Ok && e->Ok_0.is_dir;
    reveal(Seq::filter);
    if entries.len() > 0 {
        let init = entries.drop_last();
        assert(all_read(init)) by {
            assert forall|i: int| 0 <= i < init.len() implies (#[trigger] init[i]) is Ok by {
                assert(entries[i] is Ok);
            }
        }
        assert(entries[entries.len() - 1] is Ok);
        lemma_listed_or_skipped(d, root, init);
    }
}

/// Every directory in the store is either in the list or counted among those that could not be
/// read, and nothing else is.
pub proof fn every_directory_is_listed_or_skipped(
    d: SessionDisk,
    root: Seq<char>,
    entries: Seq<session_store::DirectoryEntryResult>,
    l: session::ListView,
)
    requires
        lists_entries(d, root, entries, l),
        entries.len() <= usize::MAX,
    ensures
        l.sessions.len() + l.skipped_corrupt == session_directories(entries).len(),
{
    lemma_listed_or_skipped(d, root, entries);
    let found = listable(d, root, entries);
    session::sessions_are_listed_newest_first(found);
    found.to_multiset_ensures();
    session::in_list_order(found).to_multiset_ensures();
}

/// Every text of a record is either read or counted among those that could not be.
pub proof fn every_record_is_read_or_counted(codec: Codec, texts: Seq<Seq<char>>)
    requires
        texts.len() <= usize::MAX,
    ensures
        readable(codec, texts).len() + unreadable(codec, texts) == texts.len(),
    decreases texts.len(),
{
    if texts.len() > 0 {
        every_record_is_read_or_counted(codec, texts.drop_last());
    }
}

/// A text that cannot be read is passed over, wherever it stands: the records before and behind it
/// are read as if it were not there.
pub proof fn unreadable_records_are_passed_over(
    codec: Codec,
    earlier: Seq<Seq<char>>,
    later: Seq<Seq<char>>,
)
    ensures
        readable(codec, earlier + later) == readable(codec, earlier) + readable(codec, later),
        earlier.len() == 1 ==> readable(codec, earlier) == match (codec.read)(earlier[0]) {
            Some(record) => seq![record],
            None => Seq::empty(),
        },
    decreases later.len(),
{
    if earlier.len() == 1 {
        assert(readable(codec, earlier.drop_last()) =~= Seq::empty());
        assert(readable(codec, earlier) =~= match (codec.read)(earlier[0]) {
            Some(record) => seq![record],
            None => Seq::empty(),
        });
    }
    if later.len() == 0 {
        assert(earlier + later =~= earlier);
        assert(readable(codec, earlier) + readable(codec, later) =~= readable(codec, earlier));
    } else {
        unreadable_records_are_passed_over(codec, earlier, later.drop_last());
        assert((earlier + later).drop_last() =~= earlier + later.drop_last());
        assert(readable(codec, earlier + later) =~= readable(codec, earlier) + readable(
            codec,
            later,
        ));
    }
}

// ---------------------------------------------------------------------------------------------
// Success and failure

/// What a creation gives: a session with the title of new ones, for the workspace it was asked
/// for, created and changed at one time, with nothing selected and nothing applied.
pub proof fn created_sessions_are_new(
    codec: Codec,
    workspace: Seq<char>,
    create: Seq<SessionScene>,
    m: session::MetadataView,
)
    requires
        is_run(codec, session_store::SessionStageView::MakeRoot { workspace }, create),
        create.last().op.stage == session_store::SessionStageView::Done(
            Ok(session_store::SessionOutcomeView::Created(m)),
        ),
    ensures
        m.title == "New session"@,
        m.workspace == workspace,
        m.created_at == m.updated_at,
        m.provider is None,
        m.account is None,
        m.model is None,
        m.history_cursor == 0,
        create.last().disk.directories.contains(paths::below(create[0].op.root, m.id)),
{
    lemma_create_run(codec, workspace, create, create.len() - 1);
}

/// The identifier and the time of a new session are those that were asked for when it was made.
pub proof fn new_sessions_take_identifier_and_time(
    op: session_store::SessionOperationView,
    workspace: Seq<char>,
    id: Seq<char>,
    now: u64,
)
    requires
        op.stage == (session_store::SessionStageView::NewId { workspace }),
    ensures
        ({
            let named = op.next(session_store::SessionReplyView::SessionId(id));
            let made = named.next(session_store::SessionReplyView::Done(Ok(())));
            let timed = made.next(session_store::SessionReplyView::Millis(now));
            let saved = timed.next(session_store::SessionReplyView::Done(Ok(())));
            &&& named.request() == Some(
                session_store::SessionRequestView::MakeDirectory {
                    path: paths::below(op.root, id),
                },
            )
            &&& saved.stage matches session_store::SessionStageView::Done(Ok(outcome))
            &&& outcome matches session_store::SessionOutcomeView::Created(m)
            &&& m.id == id
            &&& m.created_at == now
            &&& m.updated_at == now
            &&& m.workspace == workspace
        }),
{
}

/// A creation whose directory is there already asks for another identifier, however often; where
/// the metadata cannot be written the directory is removed again, and the creation fails with the
/// error of the writing, whatever comes of the removal.
pub proof fn creations_try_again_and_clean_up(
    op: session_store::SessionOperationView,
    e: io::IoErrorView,
    reply: session_store::SessionReplyView,
)
    ensures
        op.stage is MakeDirectory && e.kind == IoErrorKind::AlreadyExists ==> op.next(
            session_store::SessionReplyView::Done(Err(e)),
        ).request() == Some(session_store::SessionRequestView::NewSessionId),
        op.stage is MakeDirectory && e.kind != IoErrorKind::AlreadyExists ==> op.next(
            session_store::SessionReplyView::Done(Err(e)),
        ).stage == session_store::SessionStageView::Done(Err(e)),
        op.stage matches session_store::SessionStageView::SaveNew { metadata } ==> {
            let failing = op.next(session_store::SessionReplyView::Done(Err(e)));
            &&& failing.request() == Some(
                session_store::SessionRequestView::RemoveAll {
                    path: paths::below(op.root, metadata.id),
                },
            )
            &&& failing.next(reply).stage == session_store::SessionStageView::Done(Err(e))
        },
{
}

/// Where no step fails, neither does a creation, an appending, a saving nor a deletion; the
/// session of an appending or a saving must be there.
pub proof fn undisturbed_changes_succeed(
    codec: Codec,
    first: session_store::SessionStageView,
    scenes: Seq<SessionScene>,
    i: int,
)
    requires
        is_smooth_run(codec, first, scenes),
        match first {
            session_store::SessionStageView::MakeRoot { .. } => true,
            session_store::SessionStageView::LookForAppend { id, record: _ } => {
                scenes[0].disk.directories.contains(paths::below(scenes[0].op.root, id))
            },
            session_store::SessionStageView::LookForSave { metadata } => {
                scenes[0].disk.directories.contains(paths::below(scenes[0].op.root, metadata.id))
            },
            session_store::SessionStageView::Remove { .. } => true,
            _ => false,
        },
        0 <= i < scenes.len(),
    ensures
        scenes[i].op.stage matches session_store::SessionStageView::Done(r) ==> r is Ok,
{
    lemma_changing(codec, first, scenes, i);
}

proof fn lemma_changing(
    codec: Codec,
    first: session_store::SessionStageView,
    scenes: Seq<SessionScene>,
    i: int,
)
    requires
        is_smooth_run(codec, first, scenes),
        match first {
            session_store::SessionStageView::MakeRoot { .. } => true,
            session_store::SessionStageView::LookForAppend { id, record: _ } => {
                scenes[0].disk.directories.contains(paths::below(scenes[0].op.root, id))
            },
            session_store::SessionStageView::LookForSave { metadata } => {
                scenes[0].disk.directories.contains(paths::below(scenes[0].op.root, metadata.id))
            },
            session_store::SessionStageView::Remove { .. } => true,
            _ => false,
        },
        0 <= i < scenes.len(),
    ensures
        match scenes[i].op.stage {
            session_store::SessionStageView::MakeRoot { .. } => true,
            session_store::SessionStageView::NewId { .. } => true,
            session_store::SessionStageView::MakeDirectory { .. } => true,
            session_store::SessionStageView::Clock { .. } => true,
            session_store::SessionStageView::SaveNew { .. } => true,
            session_store::SessionStageView::LookForAppend { .. } => i == 0,
            session_store::SessionStageView::Append { .. } => true,
            session_store::SessionStageView::LookForSave { .. } => i == 0,
            session_store::SessionStageView::Save { .. } => true,
            session_store::SessionStageView::Remove { .. } => true,
            session_store::SessionStageView::Done(r) => r is Ok,
            _ => false,
        },
    decreases i,
{
    if i > 0 {
        lemma_changing(codec, first, scenes, i - 1);
        assert(leads_smoothly(codec, scenes[i - 1], scenes[i - 1 + 1]));
        let reply = choose|reply: session_store::SessionReplyView| #[trigger]
            scenes[i - 1].steps(codec, reply, scenes[i]) && fine(reply);
    }
}

/// That the reply is of the kind that the request asks for.
pub open spec fn answers(
    request: session_store::SessionRequestView,
    reply: session_store::SessionReplyView,
) -> bool {
    match request {
        session_store::SessionRequestView::MakeDirectories { .. } => reply is Done,
        session_store::SessionRequestView::NewSessionId => reply is SessionId,
        session_store::SessionRequestView::MakeDirectory { .. } => reply is Done,
        session_store::SessionRequestView::Clock => reply is Millis,
        session_store::SessionRequestView::WriteMetadata { .. } => reply is Done,
        session_store::SessionRequestView::RemoveAll { .. } => reply is Done,
        session_store::SessionRequestView::ListDirectory { .. } => reply is Entries,
        session_store::SessionRequestView::ReadMetadata { .. } => reply is Metadata,
        session_store::SessionRequestView::ReadRecords { .. } => reply is Contents,
        session_store::SessionRequestView::ParseRecord { .. } => reply is Record,
        session_store::SessionRequestView::IsDirectory { .. } => reply is IsDirectory,
        session_store::SessionRequestView::AppendRecord { .. } => reply is Done,
    }
}

/// The error that a reply brought, where it did.
pub open spec fn failure(reply: session_store::SessionReplyView) -> Option<io::IoErrorView> {
    match reply {
        session_store::SessionReplyView::Done(Err(e)) => Some(e),
        session_store::SessionReplyView::Entries(Err(e)) => Some(e),
        session_store::SessionReplyView::Metadata(Err(e)) => Some(e),
        session_store::SessionReplyView::Contents(Err(e)) => Some(e),
        _ => None,
    }
}

/// That one of the entries that follow could not be read, with the given error.
pub open spec fn failing_entry(
    entries: Seq<session_store::DirectoryEntryResult>,
    i: int,
    e: io::IoErrorView,
) -> bool {
    exists|k: int| i <= k < entries.len() && #[trigger] entries[k] == Err::<
        session_store::DirectoryEntryView,
        io::IoErrorView,
    >(e)
}

proof fn lemma_read_failure(
    op: session_store::SessionOperationView,
    entries: Seq<session_store::DirectoryEntryResult>,
    i: int,
    found: Seq<session::MetadataView>,
    skipped: usize,
)
    requires
        0 <= i,
    ensures
        op.read_from(entries, i, found, skipped).stage
            matches session_store::SessionStageView::Done(Err(e)) ==> failing_entry(entries, i, e),
    decreases entries.len() - i,
{
    if i < entries.len() {
        if entries[i] is Err {
            let e = entries[i]->Err_0;
            assert(failing_entry(entries, i, e));
        } else if !entries[i]->Ok_0.is_dir {
            lemma_read_failure(op, entries, i + 1, found, skipped);
            if let session_store::SessionStageView::Done(Err(e)) = op.read_from(
                entries,
                i,
                found,
                skipped,
            ).stage {
                let k = choose|k: int| i + 1 <= k < entries.len() && #[trigger] entries[k] == Err::<
                    session_store::DirectoryEntryView,
                    io::IoErrorView,
                >(e);
                assert(failing_entry(entries, i, e));
            }
        }
    }
}

/// An operation fails only with an error that came: the one that the reply brought, the one that
/// an entry of a directory could not be read for, the one that an earlier reply brought and that
/// had to be seen to first, or that the session is not there.
pub proof fn failures_of_operations_are_those_of_replies(
    op: session_store::SessionOperationView,
    reply: session_store::SessionReplyView,
)
    requires
        op.request() is Some,
        op.wf(),
        answers(op.request()->0, reply),
    ensures
        op.next(reply).stage matches session_store::SessionStageView::Done(Err(e)) ==> {
            ||| failure(reply) == Some(e)
            ||| reply matches session_store::SessionReplyView::Entries(Ok(entries))
                && failing_entry(entries, 0, e)
            ||| op.stage matches session_store::SessionStageView::Read { entries, .. }
                && failing_entry(entries, 0, e)
            ||| op.stage matches session_store::SessionStageView::Discard { id: _, error } && error
                == e
            ||| op.stage matches session_store::SessionStageView::LoadMetadata { id: _, primary }
                && primary == Some(e)
            ||| reply == session_store::SessionReplyView::IsDirectory(false) && e.kind
                == IoErrorKind::NotFound && e.message == "session does not exist"@
        },
{
    match (op.stage, reply) {
        (
            session_store::SessionStageView::List,
            session_store::SessionReplyView::Entries(Ok(entries)),
        ) => {
            lemma_read_failure(op, entries, 0, Seq::empty(), 0);
        },
        (
            session_store::SessionStageView::Read { entries, index, found, skipped, backup },
            session_store::SessionReplyView::Metadata(r),
        ) => {
            if r is Ok {
                lemma_read_failure(op, entries, index + 1, found.push(r->Ok_0), skipped);
            }
            lemma_read_failure(op, entries, index + 1, found, session_store::counted(skipped));
            if let session_store::SessionStageView::Done(Err(e)) = op.next(reply).stage {
                if failing_entry(entries, index + 1, e) {
                    let k = choose|k: int|
                        index + 1 <= k < entries.len() && #[trigger] entries[k] == Err::<
                            session_store::DirectoryEntryView,
                            io::IoErrorView,
                        >(e);
                    assert(failing_entry(entries, 0, e));
                }
            }
        },
        _ => {},
    }
}

// ---------------------------------------------------------------------------------------------
// Names

/// The metadata of a session, their backup and its records are files in its directory, each under
/// a name of its own.
pub proof fn session_files_have_their_names(dir: Seq<char>)
    ensures
        paths::last_name(session_store::metadata_place(dir)) == Some("meta.json"@),
        paths::last_name(session_store::metadata_backup_place(dir)) == Some("meta.bak"@),
        paths::last_name(session_store::records_place(dir)) == Some("records.jsonl"@),
{
    reveal_strlit("meta.json");
    reveal_strlit("meta.bak");
    reveal_strlit("records.jsonl");
    assert(!paths::has_slash("meta.json"@));
    assert(!paths::has_slash("meta.bak"@));
    assert(!paths::has_slash("records.jsonl"@));
    paths::lemma_last_name_below(dir, "meta.json"@);
    paths::lemma_last_name_below(dir, "meta.bak"@);
    paths::lemma_last_name_below(dir, "records.jsonl"@);
}

} // verus!
