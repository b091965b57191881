//! Sessions: what is kept of a conversation, and where.

use vstd::prelude::*;
use vstd::string::*;

use crate::io;
use crate::io::{IoError, IoErrorKind};
use crate::numbers;
use crate::paths;
use crate::text;

pub use crate::paths::Platform;
pub use crate::session_store::SessionStore;

verus! {

// ---------------------------------------------------------------------------------------------
// Data

#[derive(Debug, Clone, Copy, PartialEq, Eq, Structural)]
pub enum MessageRole {
    User,
    Assistant,
    System,
}

/// What a [`SessionRecord`] holds.
#[verifier::ext_equal]
pub enum RecordView {
    Message { role: MessageRole, content: Seq<char> },
}

/// An entry in the course of a session.
#[derive(Debug, Clone, PartialEq, Eq)]
pub enum SessionRecord {
    Message { role: MessageRole, content: String },
}

impl View for SessionRecord {
    type V = RecordView;

    open spec fn view(&self) -> RecordView {
        match *self {
            SessionRecord::Message { role, content } => RecordView::Message {
                role,
                content: content@,
            },
        }
    }
}

impl SessionRecord {
    pub fn duplicate(&self) -> (r: SessionRecord)
        ensures
            r@ == self@,
    {
        match self {
            SessionRecord::Message { role, content } => SessionRecord::Message {
                role: *role,
                content: content.clone(),
            },
        }
    }
}

pub open spec fn records_view(list: Seq<SessionRecord>) -> Seq<RecordView> {
    list.map_values(|r: SessionRecord| r@)
}

/// What a [`SessionMetadata`] holds.
#[verifier::ext_equal]
pub struct MetadataView {
    pub id: Seq<char>,
    pub title: Seq<char>,
    pub created_at: u64,
    pub updated_at: u64,
    pub workspace: Seq<char>,
    pub provider: Option<Seq<char>>,
    pub account: Option<Seq<char>>,
    pub model: Option<Seq<char>>,
    pub history_cursor: u64,
}

/// What is known of a session without its records.
#[derive(Debug, Clone, PartialEq, Eq)]
pub struct SessionMetadata {
    pub id: String,
    pub title: String,
    pub created_at: u64,
    pub updated_at: u64,
    pub workspace: String,
    pub provider: Option<String>,
    pub account: Option<String>,
    pub model: Option<String>,
    pub history_cursor: u64,
}

pub open spec fn option_view(s: Option<String>) -> Option<Seq<char>> {
    match s {
        Some(s) => Some(s@),
        None => None,
    }
}

impl View for SessionMetadata {
    type V = MetadataView;

    open spec fn view(&self) -> MetadataView {
        MetadataView {
            id: self.id@,
            title: self.title@,
            created_at: self.created_at,
            updated_at: self.updated_at,
            workspace: self.workspace@,
            provider: option_view(self.provider),
            account: option_view(self.account),
            model: option_view(self.model),
            history_cursor: self.history_cursor,
        }
    }
}

fn copied_option(s: &Option<String>) -> (r: Option<String>)
    ensures
        option_view(r) == option_view(*s),
{
    match s {
        Some(s) => Some(s.clone()),
        None => None,
    }
}

impl SessionMetadata {
    pub fn duplicate(&self) -> (r: SessionMetadata)
        ensures
            r@ == self@,
    {
        SessionMetadata {
            id: self.id.clone(),
            title: self.title.clone(),
            created_at: self.created_at,
            updated_at: self.updated_at,
            workspace: self.workspace.clone(),
            provider: copied_option(&self.provider),
            account: copied_option(&self.account),
            model: copied_option(&self.model),
            history_cursor: self.history_cursor,
        }
    }
}

pub open spec fn sessions_view(list: Seq<SessionMetadata>) -> Seq<MetadataView> {
    list.map_values(|m: SessionMetadata| m@)
}

/// What a [`LoadedSession`] holds.
#[verifier::ext_equal]
pub struct LoadedView {
    pub metadata: MetadataView,
    pub records: Seq<RecordView>,
    pub corrupted_records: usize,
}

/// A session with its records, and how many records could not be read.
#[derive(Debug, Clone, PartialEq, Eq)]
pub struct LoadedSession {
    pub metadata: SessionMetadata,
    pub records: Vec<SessionRecord>,
    pub corrupted_records: usize,
}

impl View for LoadedSession {
    type V = LoadedView;

    open spec fn view(&self) -> LoadedView {
        LoadedView {
            metadata: self.metadata@,
            records: records_view(self.records@),
            corrupted_records: self.corrupted_records,
        }
    }
}

/// What a [`SessionList`] holds.
#[verifier::ext_equal]
pub struct ListView {
    pub sessions: Seq<MetadataView>,
    pub skipped_corrupt: usize,
}

/// The sessions that there are, and how many could not be read.
#[derive(Debug, Clone, PartialEq, Eq)]
pub struct SessionList {
    pub sessions: Vec<SessionMetadata>,
    pub skipped_corrupt: usize,
}

impl View for SessionList {
    type V = ListView;

    open spec fn view(&self) -> ListView {
        ListView {
            sessions: sessions_view(self.sessions@),
            skipped_corrupt: self.skipped_corrupt,
        }
    }
}

// ---------------------------------------------------------------------------------------------
// Identifiers and places

pub open spec fn id_character(c: char) -> bool {
    'a' <= c <= 'z' || 'A' <= c <= 'Z' || '0' <= c <= '9' || c == '-' || c == '_'
}

/// That an identifier can name a session: letters, digits, dashes and underscores, and at least
/// one of them.
pub open spec fn valid_id(id: Seq<char>) -> bool {
    id.len() > 0 && forall|i: int| 0 <= i < id.len() ==> id_character(#[trigger] id[i])
}

pub open spec fn invalid_id_error() -> io::IoErrorView {
    io::IoErrorView { kind: IoErrorKind::InvalidInput, message: "invalid session id"@ }
}

pub open spec fn no_session_error() -> io::IoErrorView {
    io::IoErrorView { kind: IoErrorKind::NotFound, message: "session does not exist"@ }
}

pub fn validate_session_id(id: &str) -> (r: Result<(), IoError>)
    ensures
        match r {
            Ok(_) => valid_id(id@),
            Err(e) => !valid_id(id@) && e@ == invalid_id_error(),
        },
{
    let chars = text::chars_of(id);
    let mut ok: bool = chars.len() > 0;
    let mut i: usize = 0;
    while i < chars.len()
        invariant
            chars@ == id@,
            i <= chars@.len(),
            ok == (id@.len() > 0 && forall|j: int| 0 <= j < i ==> id_character(#[trigger] id@[j])),
        decreases chars@.len() - i,
    {
        let c = chars[i];
        let good: bool = ('a' <= c && c <= 'z') || ('A' <= c && c <= 'Z') || ('0' <= c && c <= '9')
            || c == '-' || c == '_';
        assert(good == id_character(id@[i as int]));
        ok = ok && good;
        i = i + 1;
    }
    if ok {
        Ok(())
    } else {
        Err(IoError::new(IoErrorKind::InvalidInput, "invalid session id"))
    }
}

/// The identifier of a new session: the time, the process and a counter make it.
pub open spec fn session_id_text(nanos: u128, pid: u32, counter: u64) -> Seq<char> {
    "s-"@ + numbers::dashed(nanos as nat, pid as nat, counter as nat)
}

/// Makes the identifier of a new session.
pub fn new_session_id(nanos: u128, pid: u32, counter: u64) -> (r: String)
    ensures
        r@ == session_id_text(nanos, pid, counter),
{
    text::joined("s-", numbers::write_dashed(nanos, pid, counter).as_str())
}

/// Sessions that differ in their time, process or counter have different identifiers.
pub proof fn session_ids_are_distinct(
    nanos: u128,
    pid: u32,
    counter: u64,
    other_nanos: u128,
    other_pid: u32,
    other_counter: u64,
)
    requires
        session_id_text(nanos, pid, counter) == session_id_text(
            other_nanos,
            other_pid,
            other_counter,
        ),
    ensures
        nanos == other_nanos,
        pid == other_pid,
        counter == other_counter,
{
    let a = session_id_text(nanos, pid, counter);
    let b = session_id_text(other_nanos, other_pid, other_counter);
    let n = "s-"@.len() as int;
    assert(a.skip(n) =~= numbers::dashed(nanos as nat, pid as nat, counter as nat));
    assert(b.skip(n) =~= numbers::dashed(
        other_nanos as nat,
        other_pid as nat,
        other_counter as nat,
    ));
    numbers::dashed_is_injective(
        nanos as nat,
        pid as nat,
        counter as nat,
        other_nanos as nat,
        other_pid as nat,
        other_counter as nat,
    );
}

proof fn lemma_notation_valid(n: nat, i: int)
    requires
        0 <= i < numbers::hexadecimal(n).len(),
    ensures
        id_character(numbers::hexadecimal(n)[i]),
    decreases n,
{
    if n >= 16 {
        let init = numbers::hexadecimal(n / 16);
        if i < init.len() {
            lemma_notation_valid(n / 16, i);
        }
    }
}

/// A new identifier is one that can name a session.
pub proof fn new_session_ids_are_valid(nanos: u128, pid: u32, counter: u64)
    ensures
        valid_id(session_id_text(nanos, pid, counter)),
{
    reveal_strlit("s-");
    let id = session_id_text(nanos, pid, counter);
    let a = numbers::hexadecimal(nanos as nat);
    let b = numbers::hexadecimal(pid as nat);
    let c = numbers::hexadecimal(counter as nat);
    assert forall|i: int| 0 <= i < id.len() implies id_character(#[trigger] id[i]) by {
        let j = i - 2;
        if j >= 0 {
            assert(id[i] == numbers::dashed(nanos as nat, pid as nat, counter as nat)[j]);
            if j < a.len() {
                lemma_notation_valid(nanos as nat, j);
            } else if a.len() < j < a.len() + 1 + b.len() {
                lemma_notation_valid(pid as nat, j - a.len() - 1);
            } else if j > a.len() + 1 + b.len() {
                lemma_notation_valid(counter as nat, j - a.len() - b.len() - 2);
            }
        }
    }
}

/// A valid identifier names a directory right below that of the sessions.
pub proof fn valid_ids_stay_below(id: Seq<char>)
    requires
        valid_id(id),
    ensures
        !paths::has_slash(id),
        id != paths::dot(),
        id != paths::dot_dot(),
        paths::parts(id) == seq![id],
{
    assert forall|i: int| 0 <= i < id.len() implies #[trigger] id[i] != '/' && id[i] != '.' by {
        assert(id_character(id[i]));
    }
    assert(id[0] != '.');
    let names = seq![id];
    assert(paths::slashed(names) == id);
    paths::lemma_parts_slashed(names);
}

/// Milliseconds as far as 64 bits count.
pub open spec fn counted_millis(millis: u128) -> u64 {
    if millis <= u64::MAX {
        millis as u64
    } else {
        u64::MAX
    }
}

/// Milliseconds since the epoch, at most the largest number.
pub fn now_millis(millis: u128) -> (r: u64)
    ensures
        r == counted_millis(millis),
        r == (if millis <= u64::MAX {
            millis as u64
        } else {
            u64::MAX
        }),
{
    if millis <= u64::MAX as u128 {
        millis as u64
    } else {
        u64::MAX
    }
}

/// What the environment says on where data go.
#[derive(Debug, Clone, PartialEq, Eq)]
pub struct Environment {
    pub xdg_data_home: Option<String>,
    pub home: Option<String>,
    pub local_app_data: Option<String>,
}

pub open spec fn set_value(value: Option<String>) -> Option<Seq<char>> {
    match value {
        Some(s) if s@.len() > 0 => Some(s@),
        _ => None,
    }
}

pub open spec fn unset(name: Seq<char>) -> io::IoErrorView {
    io::IoErrorView {
        kind: IoErrorKind::NotFound,
        message: "environment variable "@ + name + " is not set"@,
    }
}

/// The place called `name` below the value of a variable, which must be set.
pub open spec fn below_variable(
    value: Option<String>,
    variable: Seq<char>,
    name: Seq<char>,
) -> Result<Seq<char>, io::IoErrorView> {
    match set_value(value) {
        Some(base) => Ok(paths::below(base, name)),
        None => Err(unset(variable)),
    }
}

/// Where the data of the program go.
pub open spec fn data_place(platform: Platform, env: Environment) -> Result<
    Seq<char>,
    io::IoErrorView,
> {
    match platform {
        Platform::Windows => below_variable(env.local_app_data, "LOCALAPPDATA"@, "MatrixCode"@),
        Platform::MacOs => below_variable(
            env.home,
            "HOME"@,
            "Library/Application Support/MatrixCode"@,
        ),
        Platform::Unix => match set_value(env.xdg_data_home) {
            Some(base) => Ok(paths::below(base, "matrixcode"@)),
            None => below_variable(env.home, "HOME"@, ".local/share/matrixcode"@),
        },
        Platform::Other => below_variable(env.home, "HOME"@, ".matrixcode"@),
    }
}

pub open spec fn text_result(r: Result<String, IoError>) -> Result<Seq<char>, io::IoErrorView> {
    match r {
        Ok(s) => Ok(s@),
        Err(e) => Err(e@),
    }
}

fn env_path(value: &Option<String>, variable: &str, name: &str) -> (r: Result<String, IoError>)
    ensures
        text_result(r) == below_variable(*value, variable@, name@),
{
    if let Some(base) = value {
        if !base.as_str().is_empty() {
            return Ok(paths::join(base.as_str(), name));
        }
    }
    let mut message = text::joined("environment variable ", variable);
    message.append(" is not set");
    Err(IoError { kind: IoErrorKind::NotFound, message })
}

/// Finds where the data of the program go.
pub fn data_dir(platform: Platform, env: &Environment) -> (r: Result<String, IoError>)
    ensures
        text_result(r) == data_place(platform, *env),
{
    match platform {
        Platform::Windows => env_path(&env.local_app_data, "LOCALAPPDATA", "MatrixCode"),
        Platform::MacOs => env_path(
            &env.home,
            "HOME",
            "Library/Application Support/MatrixCode",
        ),
        Platform::Unix => {
            if let Some(base) = &env.xdg_data_home {
                if !base.as_str().is_empty() {
                    return Ok(paths::join(base.as_str(), "matrixcode"));
                }
            }
            env_path(&env.home, "HOME", ".local/share/matrixcode")
        },
        Platform::Other => env_path(&env.home, "HOME", ".matrixcode"),
    }
}

// ---------------------------------------------------------------------------------------------
// Order of the list

/// That `a` comes before `b` in the order of their characters.
pub open spec fn text_less(a: Seq<char>, b: Seq<char>) -> bool
    decreases a.len(),
{
    if b.len() == 0 {
        false
    } else if a.len() == 0 {
        true
    } else if a[0] != b[0] {
        a[0] < b[0]
    } else {
        text_less(a.skip(1), b.skip(1))
    }
}

/// That `a` stands before `b` in the list: later changed first, and then the greater identifier.
pub open spec fn listed_before(a: MetadataView, b: MetadataView) -> bool {
    a.updated_at > b.updated_at || (a.updated_at == b.updated_at && text_less(b.id, a.id))
}

fn is_text_less(a: &str, b: &str) -> (r: bool)
    ensures
        r == text_less(a@, b@),
{
    let x = text::chars_of(a);
    let y = text::chars_of(b);
    let mut i: usize = 0;
    assert(a@.skip(0) =~= a@);
    assert(b@.skip(0) =~= b@);
    while i < x.len() && i < y.len() && x[i] == y[i]
        invariant
            x@ == a@,
            y@ == b@,
            i <= x@.len(),
            i <= y@.len(),
            text_less(a@, b@) == text_less(a@.skip(i as int), b@.skip(i as int)),
        decreases x@.len() - i,
    {
        assert(a@.skip(i as int).skip(1) =~= a@.skip(i + 1));
        assert(b@.skip(i as int).skip(1) =~= b@.skip(i + 1));
        i = i + 1;
    }
    if i >= y.len() {
        false
    } else if i >= x.len() {
        true
    } else {
        x[i] < y[i]
    }
}

fn is_listed_before(a: &SessionMetadata, b: &SessionMetadata) -> (r: bool)
    ensures
        r == listed_before(a@, b@),
{
    a.updated_at > b.updated_at || (a.updated_at == b.updated_at && is_text_less(
        b.id.as_str(),
        a.id.as_str(),
    ))
}

/// Where a session belongs in a list: behind those that stand before it, and behind its equals.
pub open spec fn list_position(list: Seq<MetadataView>, m: MetadataView) -> int
    decreases list.len(),
{
    if list.len() == 0 {
        0
    } else if listed_before(m, list.last()) {
        list_position(list.drop_last(), m)
    } else {
        list.len() as int
    }
}

/// The sessions in the order of the list.
pub open spec fn in_list_order(found: Seq<MetadataView>) -> Seq<MetadataView>
    decreases found.len(),
{
    if found.len() == 0 {
        Seq::empty()
    } else {
        let init = in_list_order(found.drop_last());
        init.insert(list_position(init, found.last()), found.last())
    }
}

/// Sorts the sessions into the order of the list.
pub fn sort_sessions(found: Vec<SessionMetadata>) -> (r: Vec<SessionMetadata>)
    ensures
        sessions_view(r@) == in_list_order(sessions_view(found@)),
{
    let ghost all = sessions_view(found@);
    let mut r: Vec<SessionMetadata> = Vec::new();
    let mut i: usize = 0;
    assert(sessions_view(r@) =~= in_list_order(all.take(0)));
    while i < found.len()
        invariant
            all == sessions_view(found@),
            i <= found@.len(),
            sessions_view(r@) == in_list_order(all.take(i as int)),
        decreases found@.len() - i,
    {
        let ghost list = sessions_view(r@);
        let m = found[i].duplicate();
        assert(m@ == all[i as int]);
        assert(all.take(i + 1).drop_last() =~= all.take(i as int));
        let mut k: usize = r.len();
        assert(list.take(k as int) =~= list);
        while k > 0 && is_listed_before(&m, &r[k - 1])
            invariant
                list == sessions_view(r@),
                k <= r@.len(),
                list_position(list, m@) == list_position(list.take(k as int), m@),
            decreases k,
        {
            assert(list[k - 1] == r@[k - 1]@);
            assert(list.take(k as int).drop_last() =~= list.take(k - 1));
            k = k - 1;
        }
        proof {
            if k > 0 {
                assert(list[k - 1] == r@[k - 1]@);
                assert(list.take(k as int).last() == list[k - 1]);
            }
        }
        r.insert(k, m);
        assert(sessions_view(r@) =~= list.insert(k as int, m@));
        i = i + 1;
    }
    assert(all.take(i as int) =~= all);
    r
}

/// That a list is in order: none stands behind one that it belongs before.
pub open spec fn in_order(list: Seq<MetadataView>) -> bool {
    forall|i: int, j: int|
        0 <= i < j < list.len() ==> !listed_before(#[trigger] list[j], #[trigger] list[i])
}

proof fn lemma_text_less(a: Seq<char>, b: Seq<char>, c: Seq<char>)
    ensures
        text_less(a, b) ==> !text_less(b, a),
        !text_less(b, a) && !text_less(c, b) ==> !text_less(c, a),
    decreases a.len() + b.len() + c.len(),
{
    if a.len() > 0 && b.len() > 0 && c.len() > 0 {
        lemma_text_less(a.skip(1), b.skip(1), c.skip(1));
    } else if a.len() > 0 && b.len() > 0 {
        lemma_text_less(a.skip(1), b.skip(1), c);
    }
}

proof fn lemma_listed_before(a: MetadataView, b: MetadataView, c: MetadataView)
    ensures
        listed_before(a, b) ==> !listed_before(b, a),
        !listed_before(b, a) && !listed_before(c, b) ==> !listed_before(c, a),
{
    lemma_text_less(c.id, b.id, a.id);
    lemma_text_less(b.id, a.id, c.id);
    lemma_text_less(a.id, b.id, c.id);
}

proof fn lemma_insert_in_order(list: Seq<MetadataView>, m: MetadataView)
    requires
        in_order(list),
    ensures
        0 <= list_position(list, m) <= list.len(),
        in_order(list.insert(list_position(list, m), m)),
    decreases list.len(),
{
    if list.len() > 0 && listed_before(m, list.last()) {
        let init = list.drop_last();
        assert(in_order(init)) by {
            assert forall|i: int, j: int| 0 <= i < j < init.len() implies !listed_before(
                #[trigger] init[j],
                #[trigger] init[i],
            ) by {
                assert(!listed_before(list[j], list[i]));
            }
        }
        lemma_insert_in_order(init, m);
        let k = list_position(init, m);
        let a = init.insert(k, m);
        let b = list.insert(k, m);
        assert(b =~= a.push(list.last()));
        assert forall|i: int, j: int| 0 <= i < j < b.len() implies !listed_before(
            #[trigger] b[j],
            #[trigger] b[i],
        ) by {
            if j < a.len() {
                assert(!listed_before(a[j], a[i]));
            } else if i == k {
                lemma_listed_before(m, list.last(), m);
            } else {
                let o = if i < k {
                    i
                } else {
                    i - 1
                };
                assert(b[i] == list[o]);
                assert(!listed_before(list[list.len() - 1], list[o]));
            }
        }
    } else {
        let b = list.insert(list.len() as int, m);
        assert(b =~= list.push(m));
        assert forall|i: int, j: int| 0 <= i < j < b.len() implies !listed_before(
            #[trigger] b[j],
            #[trigger] b[i],
        ) by {
            if j < list.len() {
                assert(!listed_before(list[j], list[i]));
            } else if i < list.len() - 1 {
                assert(!listed_before(list[list.len() - 1], list[i]));
                lemma_listed_before(list[i], list.last(), m);
            }
        }
    }
}

/// The list holds every session that was found, as often as it was found, and the one changed
/// last stands first.
pub proof fn sessions_are_listed_newest_first(found: Seq<MetadataView>)
    ensures
        in_order(in_list_order(found)),
        in_list_order(found).to_multiset() == found.to_multiset(),
    decreases found.len(),
{
    broadcast use vstd::seq_lib::group_to_multiset_ensures;

    if found.len() > 0 {
        let init = in_list_order(found.drop_last());
        sessions_are_listed_newest_first(found.drop_last());
        lemma_insert_in_order(init, found.last());
        let k = list_position(init, found.last());
        assert(found =~= found.drop_last().push(found.last()));
        assert(init.insert(k, found.last()).to_multiset() == init.to_multiset().insert(
            found.last(),
        ));
    } else {
        assert(in_list_order(found) =~= found);
    }
}

// ---------------------------------------------------------------------------------------------
// Records as lines

/// A line without the carriage returns at its end.
pub open spec fn without_returns(s: Seq<char>) -> Seq<char>
    decreases s.len(),
{
    if s.len() > 0 && s.last() == '\r' {
        without_returns(s.drop_last())
    } else {
        s
    }
}

/// The lines that are not empty, without carriage returns at their ends.
pub open spec fn filled_lines(list: Seq<Seq<char>>) -> Seq<Seq<char>>
    decreases list.len(),
{
    if list.len() == 0 {
        Seq::empty()
    } else {
        let init = filled_lines(list.drop_last());
        let line = without_returns(list.last());
        if line.len() == 0 {
            init
        } else {
            init.push(line)
        }
    }
}

/// The texts of the records in a file.
pub open spec fn record_texts(contents: Seq<char>) -> Seq<Seq<char>> {
    filled_lines(text::lines(contents))
}

fn push_line(list: &mut Vec<String>, line: &str)
    ensures
        text::texts(final(list)@) == (if without_returns(line@).len() == 0 {
            text::texts(old(list)@)
        } else {
            text::texts(old(list)@).push(without_returns(line@))
        }),
{
    let chars = text::chars_of(line);
    let mut end: usize = chars.len();
    assert(chars@.take(end as int) =~= line@);
    while end > 0 && chars[end - 1] == '\r'
        invariant
            chars@ == line@,
            end <= chars@.len(),
            without_returns(line@) == without_returns(chars@.take(end as int)),
        decreases end,
    {
        assert(chars@.take(end as int).drop_last() =~= chars@.take(end - 1));
        end = end - 1;
    }
    proof {
        if end > 0 {
            assert(chars@.take(end as int).last() == chars@[end - 1]);
        }
    }
    assert(without_returns(line@) == chars@.take(end as int));
    if end > 0 {
        let kept = line.substring_char(0, end);
        assert(kept@ =~= chars@.take(end as int));
        text::push_text(list, kept);
    }
}

/// Cuts the contents of a file into the texts of its records.
pub fn split_records(contents: &str) -> (r: Vec<String>)
    ensures
        text::texts(r@) == record_texts(contents@),
{
    let list = text::split_lines(contents);
    let ghost all = text::texts(list@);
    let mut r: Vec<String> = Vec::new();
    let mut i: usize = 0;
    assert(text::texts(r@) =~= filled_lines(all.take(0)));
    while i < list.len()
        invariant
            all == text::texts(list@),
            i <= list@.len(),
            text::texts(r@) == filled_lines(all.take(i as int)),
        decreases list@.len() - i,
    {
        assert(all.take(i + 1).drop_last() =~= all.take(i as int));
        assert(all[i as int] == list@[i as int]@);
        push_line(&mut r, list[i].as_str());
        i = i + 1;
    }
    assert(all.take(i as int) =~= all);
    r
}

/// A record as it is written to the file: its text and a line feed.
pub fn record_line(record: &str) -> (r: String)
    ensures
        r@ == record@.push('\n'),
{
    let mut r = record.to_owned();
    r.push('\n');
    r
}

/// That a text can be a record: it has no line feed, and does not end with a carriage return.
pub open spec fn one_line(text: Seq<char>) -> bool {
    &&& text.len() > 0
    &&& text.last() != '\r'
    &&& forall|i: int| 0 <= i < text.len() ==> #[trigger] text[i] != '\n'
}

/// A record that is written to a file whose last line is complete is read back as the last, and
/// the records before it stay what they are.
pub proof fn written_records_are_read_back(contents: Seq<char>, record: Seq<char>)
    requires
        contents.len() == 0 || contents.last() == '\n',
        one_line(record),
    ensures
        record_texts(contents + record.push('\n')) == record_texts(contents).push(record),
{
    text::lemma_lines_some(contents);
    let list = text::lines(contents);
    assert(list.last() =~= Seq::empty());
    text::lemma_lines_append(contents, record);
    let whole = contents + record.push('\n');
    assert(whole.drop_last() =~= contents + record);
    assert(whole.last() == '\n');
    let middle = text::lines(contents + record);
    assert(middle =~= list.drop_last().push(record)) by {
        assert(list.last() + record =~= record);
    }
    assert(text::lines(whole) == middle.push(Seq::empty()));
    assert(text::lines(whole).drop_last() =~= middle);
    assert(middle.drop_last() =~= list.drop_last());
    assert(without_returns(record) == record);
    assert(middle.last() == record);
    assert(filled_lines(middle) == filled_lines(list.drop_last()).push(record));
    assert(text::lines(whole).last() =~= Seq::empty());
    assert(filled_lines(text::lines(whole)) == filled_lines(middle));
}

// ---------------------------------------------------------------------------------------------
// Laws

/// One text is less than another exactly if they agree up to a position at which the one ends and
/// the other goes on, or at which the one has the lesser character.
pub proof fn texts_are_ordered_by_their_characters(a: Seq<char>, b: Seq<char>)
    ensures
        text_less(a, b) <==> exists|k: int|
            0 <= k <= a.len() && k < b.len() && #[trigger] a.take(k) == b.take(k) && (k == a.len()
                || a[k] < b[k]),
    decreases a.len(),
{
    if a.len() > 0 && b.len() > 0 && a[0] == b[0] {
        let x = a.skip(1);
        let y = b.skip(1);
        texts_are_ordered_by_their_characters(x, y);
        if text_less(a, b) {
            let k = choose|k: int|
                0 <= k <= x.len() && k < y.len() && #[trigger] x.take(k) == y.take(k) && (k
                    == x.len() || x[k] < y[k]);
            assert(a.take(k + 1) =~= seq![a[0]] + x.take(k));
            assert(b.take(k + 1) =~= seq![b[0]] + y.take(k));
            assert(a.take(k + 1) == b.take(k + 1));
        }
        if exists|k: int|
            0 <= k <= a.len() && k < b.len() && #[trigger] a.take(k) == b.take(k) && (k == a.len()
                || a[k] < b[k]) {
            let k = choose|k: int|
                0 <= k <= a.len() && k < b.len() && #[trigger] a.take(k) == b.take(k) && (k
                    == a.len() || a[k] < b[k]);
            assert(x.take(k - 1) =~= a.take(k).skip(1));
            assert(y.take(k - 1) =~= b.take(k).skip(1));
            assert(x.take(k - 1) == y.take(k - 1));
        }
    } else {
        if text_less(a, b) {
            assert(a.take(0) =~= b.take(0));
        }
        if exists|k: int|
            0 <= k <= a.len() && k < b.len() && #[trigger] a.take(k) == b.take(k) && (k == a.len()
                || a[k] < b[k]) {
            let k = choose|k: int|
                0 <= k <= a.len() && k < b.len() && #[trigger] a.take(k) == b.take(k) && (k
                    == a.len() || a[k] < b[k]);
            if k > 0 {
                assert(a.take(k)[0] == b.take(k)[0]);
            }
        }
    }
}

/// Of two different texts one is less than the other, and not the other way round.
pub proof fn different_texts_are_ordered(a: Seq<char>, b: Seq<char>)
    ensures
        a != b <==> text_less(a, b) || text_less(b, a),
        !(text_less(a, b) && text_less(b, a)),
    decreases a.len(),
{
    if a.len() > 0 && b.len() > 0 {
        different_texts_are_ordered(a.skip(1), b.skip(1));
        assert(a =~= seq![a[0]] + a.skip(1));
        assert(b =~= seq![b[0]] + b.skip(1));
    } else if a.len() == 0 && b.len() == 0 {
        assert(a =~= b);
    }
}

/// Down the list the time of the last change does not rise, and among sessions changed at the same
/// time the identifier does not.
pub proof fn the_time_of_change_does_not_rise(found: Seq<MetadataView>, i: int, j: int)
    requires
        0 <= i < j < in_list_order(found).len(),
    ensures
        in_list_order(found)[i].updated_at >= in_list_order(found)[j].updated_at,
        in_list_order(found)[i].updated_at == in_list_order(found)[j].updated_at ==> text_less(
            in_list_order(found)[j].id,
            in_list_order(found)[i].id,
        ) || in_list_order(found)[i].id == in_list_order(found)[j].id,
{
    sessions_are_listed_newest_first(found);
    let list = in_list_order(found);
    assert(!listed_before(list[j], list[i]));
    different_texts_are_ordered(list[i].id, list[j].id);
}

/// What a session identifier can hold.
pub const ID_CHARACTERS: &'static str =
    "ABCDEFGHIJKLMNOPQRSTUVWXYZabcdefghijklmnopqrstuvwxyz0123456789-_";

proof fn lemma_id_character(c: char)
    ensures
        id_character(c) <==> ID_CHARACTERS@.contains(c),
{
    reveal_strlit("ABCDEFGHIJKLMNOPQRSTUVWXYZabcdefghijklmnopqrstuvwxyz0123456789-_");
    let all = ID_CHARACTERS@;
    let n = c as u32;
    if 'A' <= c <= 'Z' {
        assert(all[n - 65] == c);
    } else if 'a' <= c <= 'z' {
        assert(all[n - 97 + 26] == c);
    } else if '0' <= c <= '9' {
        assert(all[n - 48 + 52] == c);
    } else if c == '-' {
        assert(all[62] == c);
    } else if c == '_' {
        assert(all[63] == c);
    }
    if all.contains(c) {
        let i = choose|i: int| 0 <= i < all.len() && all[i] == c;
        assert(id_character(all[i]));
    }
}

/// A text is an identifier exactly if it is not empty and holds nothing but letters, digits, dashes
/// and underscores, however many.
pub proof fn identifiers_hold_these_characters(id: Seq<char>)
    ensures
        valid_id(id) <==> id.len() > 0 && forall|i: int|
            0 <= i < id.len() ==> ID_CHARACTERS@.contains(#[trigger] id[i]),
{
    assert forall|c: char| id_character(c) <==> #[trigger] ID_CHARACTERS@.contains(c) by {
        lemma_id_character(c);
    }
    if id.len() > 0 && forall|i: int|
        0 <= i < id.len() ==> ID_CHARACTERS@.contains(#[trigger] id[i]) {
        assert forall|i: int| 0 <= i < id.len() implies id_character(#[trigger] id[i]) by {
            assert(ID_CHARACTERS@.contains(id[i]));
        }
    }
}

/// A new identifier says its time, its process and its counter, in this order and in hexadecimal.
pub proof fn new_identifiers_say_what_made_them(nanos: u128, pid: u32, counter: u64)
    ensures
        session_id_text(nanos, pid, counter) == "s-"@ + numbers::hexadecimal(nanos as nat) + "-"@
            + numbers::hexadecimal(pid as nat) + "-"@ + numbers::hexadecimal(counter as nat),
{
    reveal_strlit("-");
    assert("-"@ =~= seq!['-']);
    assert(session_id_text(nanos, pid, counter) =~= "s-"@ + numbers::hexadecimal(nanos as nat)
        + "-"@ + numbers::hexadecimal(pid as nat) + "-"@ + numbers::hexadecimal(counter as nat));
}

pub open spec fn is_set(value: Option<String>) -> bool {
    value matches Some(s) && s@.len() > 0
}

/// Each platform looks at its own variable alone, which must be set and not empty; of the two that
/// most look at, the home directory counts only where the other is not set.
pub proof fn data_go_below_their_variable(platform: Platform, env: Environment)
    ensures
        data_place(platform, env) is Ok <==> match platform {
            Platform::Windows => is_set(env.local_app_data),
            Platform::MacOs | Platform::Other => is_set(env.home),
            Platform::Unix => is_set(env.xdg_data_home) || is_set(env.home),
        },
        platform == Platform::Windows && is_set(env.local_app_data) ==> data_place(platform, env)
            == Ok::<Seq<char>, io::IoErrorView>(
            paths::below(env.local_app_data->0@, "MatrixCode"@),
        ),
        platform == Platform::MacOs && is_set(env.home) ==> data_place(platform, env) == Ok::<
            Seq<char>,
            io::IoErrorView,
        >(paths::below(env.home->0@, "Library/Application Support/MatrixCode"@)),
        platform == Platform::Other && is_set(env.home) ==> data_place(platform, env) == Ok::<
            Seq<char>,
            io::IoErrorView,
        >(paths::below(env.home->0@, ".matrixcode"@)),
        platform == Platform::Unix && is_set(env.xdg_data_home) ==> data_place(platform, env)
            == Ok::<Seq<char>, io::IoErrorView>(
            paths::below(env.xdg_data_home->0@, "matrixcode"@),
        ),
        platform == Platform::Unix && !is_set(env.xdg_data_home) && is_set(env.home)
            ==> data_place(platform, env) == Ok::<Seq<char>, io::IoErrorView>(
            paths::below(env.home->0@, ".local/share/matrixcode"@),
        ),
        data_place(platform, env) matches Err(e) ==> e.kind == IoErrorKind::NotFound && e.message
            == (if platform == Platform::Windows {
            "environment variable "@ + "LOCALAPPDATA"@ + " is not set"@
        } else {
            "environment variable "@ + "HOME"@ + " is not set"@
        }),
{
}

proof fn lemma_without_returns(s: Seq<char>) -> (n: int)
    ensures
        0 <= n <= s.len(),
        without_returns(s) == s.take(n),
        forall|i: int| n <= i < s.len() ==> #[trigger] s[i] == '\r',
        n > 0 ==> s[n - 1] != '\r',
    decreases s.len(),
{
    if s.len() > 0 && s.last() == '\r' {
        let rest = s.drop_last();
        let n = lemma_without_returns(rest);
        assert(rest.take(n) =~= s.take(n));
        assert forall|i: int| n <= i < s.len() implies #[trigger] s[i] == '\r' by {
            if i < rest.len() {
                assert(rest[i] == s[i]);
            }
        }
        n
    } else {
        assert(s.take(s.len() as int) =~= s);
        s.len() as int
    }
}

/// Only the carriage returns at the end of a line are left out, and all of them.
pub proof fn returns_at_the_end_are_left_out(line: Seq<char>, ending: Seq<char>)
    requires
        forall|i: int| 0 <= i < ending.len() ==> #[trigger] ending[i] == '\r',
    ensures
        line.len() == 0 || line.last() != '\r' ==> without_returns(line + ending) == line,
{
    let s = line + ending;
    let n = lemma_without_returns(s);
    if line.len() == 0 || line.last() != '\r' {
        if n > line.len() {
            assert(s[n - 1] == ending[n - 1 - line.len()]);
        }
        if n < line.len() {
            assert(s[line.len() - 1] == line.last());
        }
        assert(s.take(n) =~= line);
    }
}

proof fn lemma_filled_append(a: Seq<Seq<char>>, b: Seq<Seq<char>>)
    ensures
        filled_lines(a + b) == filled_lines(a) + filled_lines(b),
    decreases b.len(),
{
    if b.len() == 0 {
        assert(a + b =~= a);
        assert(filled_lines(a) + filled_lines(b) =~= filled_lines(a));
    } else {
        lemma_filled_append(a, b.drop_last());
        assert((a + b).drop_last() =~= a + b.drop_last());
        assert(filled_lines(a + b) =~= filled_lines(a) + filled_lines(b));
    }
}

/// The records of a file are those of its lines one after the other: a line is one record, without
/// the carriage returns at its end, unless nothing is left of it.
pub proof fn records_are_read_line_by_line(first: Seq<char>, rest: Seq<char>)
    requires
        !first.contains('\n'),
    ensures
        record_texts(first.push('\n') + rest) == record_texts(first) + record_texts(rest),
        (forall|i: int| 0 <= i < first.len() ==> #[trigger] first[i] == '\r') ==> record_texts(
            first,
        ).len() == 0,
        first.len() > 0 && first.last() != '\r' ==> record_texts(first) == seq![first]
            && record_texts(first.push('\r')) == seq![first],
{
    text::line_feeds_part_lines(first, rest);
    lemma_filled_append(text::lines(first), text::lines(rest));
    let none = seq![first].drop_last();
    assert(none.len() == 0);
    assert(filled_lines(none) =~= Seq::empty());
    if forall|i: int| 0 <= i < first.len() ==> #[trigger] first[i] == '\r' {
        returns_at_the_end_are_left_out(Seq::empty(), first);
        assert(Seq::<char>::empty() + first =~= first);
    }
    if first.len() > 0 && first.last() != '\r' {
        let returned = first.push('\r');
        assert(!returned.contains('\n')) by {
            if returned.contains('\n') {
                let i = choose|i: int| 0 <= i < returned.len() && returned[i] == '\n';
                assert(first[i] == '\n');
                assert(first.contains('\n'));
            }
        }
        text::line_feeds_part_lines(returned, rest);
        returns_at_the_end_are_left_out(first, seq!['\r']);
        assert(first + seq!['\r'] =~= returned);
        let bare = seq![returned].drop_last();
        assert(bare.len() == 0);
        assert(filled_lines(bare) =~= Seq::empty());
        assert(filled_lines(seq![first]) =~= seq![first]);
        assert(filled_lines(seq![returned]) =~= seq![first]);
    }
}

/// The metadata of a session that changes now.
pub open spec fn touched(m: MetadataView, now: u64) -> MetadataView {
    MetadataView {
        updated_at: if now > m.updated_at {
            now
        } else {
            m.updated_at
        },
        ..m
    }
}

/// The time of the last change is the latest at which a session was noted to change, in whatever
/// order that came, and nothing else is changed by it.
pub proof fn the_time_of_change_does_not_go_back(m: MetadataView, now: u64, then: u64)
    ensures
        touched(m, now).updated_at >= m.updated_at,
        touched(m, now).updated_at >= now,
        touched(m, now).updated_at == m.updated_at || touched(m, now).updated_at == now,
        touched(touched(m, now), then) == touched(touched(m, then), now),
        touched(touched(m, now), now) == touched(m, now),
        (MetadataView { updated_at: m.updated_at, ..touched(m, now) }) == m,
{
}

/// Times are counted exactly as far as 64 bits go, and later ones never come out earlier.
pub proof fn later_times_do_not_come_out_earlier(earlier: u128, later: u128)
    requires
        earlier <= later,
    ensures
        counted_millis(earlier) <= counted_millis(later),
        earlier <= u64::MAX ==> counted_millis(earlier) == earlier,
        counted_millis(earlier) < u64::MAX ==> counted_millis(earlier) == earlier,
{
}

} // verus!
