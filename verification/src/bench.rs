//! What the benchmark of the program reads off its runs: markers in the output of a terminal,
//! memory and processor time in the process file system.

use vstd::prelude::*;
use vstd::string::*;

use crate::cli;
use crate::io;
use crate::io::{IoError, IoErrorKind};
use crate::numbers;
use crate::text;

verus! {

// ---------------------------------------------------------------------------------------------
// Markers

/// That `needle` stands in `haystack` at position `i`.
pub open spec fn stands_at(haystack: Seq<u8>, needle: Seq<u8>, i: int) -> bool {
    0 <= i <= haystack.len() - needle.len() && haystack.subrange(i, i + needle.len()) == needle
}

/// That `needle` stands somewhere in `haystack`.
pub open spec fn contained(haystack: Seq<u8>, needle: Seq<u8>) -> bool {
    exists|i: int| #[trigger] stands_at(haystack, needle, i)
}

fn found_at(haystack: &[u8], needle: &[u8], i: usize) -> (r: bool)
    requires
        i + needle@.len() <= haystack@.len(),
        haystack@.len() <= usize::MAX,
    ensures
        r == stands_at(haystack@, needle@, i as int),
{
    let mut j: usize = 0;
    while j < needle.len()
        invariant
            i + needle@.len() <= haystack@.len() <= usize::MAX,
            j <= needle@.len(),
            forall|k: int| 0 <= k < j ==> haystack@[i + k] == needle@[k],
        decreases needle@.len() - j,
    {
        if haystack[i + j] != needle[j] {
            assert(haystack@.subrange(i as int, i + needle@.len())[j as int] == haystack@[i + j]);
            return false;
        }
        j = j + 1;
    }
    assert(haystack@.subrange(i as int, i + needle@.len()) =~= needle@);
    true
}

/// Whether `needle` stands somewhere in `haystack`.
pub fn contains_bytes(haystack: &[u8], needle: &[u8]) -> (r: bool)
    ensures
        r == contained(haystack@, needle@),
{
    let n: usize = haystack.len();
    let m: usize = needle.len();
    if m == 0 {
        assert(haystack@.subrange(0, 0) =~= needle@);
        assert(stands_at(haystack@, needle@, 0));
        return true;
    }
    if m > n {
        return false;
    }
    let mut i: usize = 0;
    while i < n - m + 1
        invariant
            n == haystack@.len(),
            m == needle@.len(),
            0 < m <= n,
            i <= n - m + 1,
            forall|k: int| 0 <= k < i ==> !(#[trigger] stands_at(haystack@, needle@, k)),
        decreases n - m + 1 - i,
    {
        if found_at(haystack, needle, i) {
            return true;
        }
        i = i + 1;
    }
    false
}

/// How long a window may become before it is cut.
pub const WINDOW: usize = 65536;

/// How much of a window is kept at least.
pub const KEPT: usize = 4096;

/// A window on a stream of bytes, as long as it takes to find a marker in it.
pub struct MarkerScanner {
    marker: Vec<u8>,
    collected: Vec<u8>,
    stream: Ghost<Seq<u8>>,
}

/// What may come of a read.
#[derive(Debug)]
pub enum ReadOutcome {
    Bytes(Vec<u8>),
    /// Nothing is there yet, or the other side is not there yet.
    Nothing,
    Failed(IoError),
}

/// What to do after a read.
#[derive(Debug)]
pub enum ReadStep {
    Found,
    Again,
    Wait,
    Fail(IoError),
}

impl MarkerScanner {
    pub closed spec fn marker(self) -> Seq<u8> {
        self.marker@
    }

    /// All bytes that were read so far.
    pub closed spec fn stream(self) -> Seq<u8> {
        self.stream@
    }

    /// That the marker has not come yet; an empty one comes with the first bytes.
    pub open spec fn searching(self) -> bool {
        self.marker().len() == 0 || !contained(self.stream(), self.marker())
    }

    /// The window is the end of the stream, and leaves out nothing that could be the beginning of
    /// the marker.
    pub closed spec fn wf(self) -> bool {
        &&& self.collected@.len() <= self.stream@.len()
        &&& self.collected@ == self.stream@.skip(self.stream@.len() - self.collected@.len())
        &&& self.collected@.len() == self.stream@.len() || self.collected@.len() + 1
            >= self.marker@.len()
    }

    pub fn new(marker: &[u8]) -> (r: MarkerScanner)
        ensures
            r.wf(),
            r.marker() == marker@,
            r.stream() == Seq::<u8>::empty(),
            r.searching(),
    {
        let r = MarkerScanner {
            marker: copy_bytes(marker),
            collected: Vec::new(),
            stream: Ghost(Seq::empty()),
        };
        assert(r.collected@ =~= r.stream@.skip(0));
        r
    }
}

fn copy_bytes(bytes: &[u8]) -> (r: Vec<u8>)
    ensures
        r@ == bytes@,
{
    let mut r: Vec<u8> = Vec::new();
    r.extend_from_slice(bytes);
    assert(r@ =~= bytes@);
    r
}

/// The last bytes of a list.
fn tail(bytes: &Vec<u8>, keep: usize) -> (r: Vec<u8>)
    requires
        keep <= bytes@.len(),
    ensures
        r@ == bytes@.skip(bytes@.len() - keep),
{
    let mut r: Vec<u8> = Vec::new();
    let n: usize = bytes.len();
    let mut i: usize = n - keep;
    while i < n
        invariant
            n == bytes@.len(),
            keep <= n,
            n - keep <= i <= n,
            r@ == bytes@.subrange(n - keep, i as int),
        decreases n - i,
    {
        r.push(bytes[i]);
        assert(r@ =~= bytes@.subrange(n - keep, i + 1));
        i = i + 1;
    }
    assert(r@ =~= bytes@.skip(n - keep));
    r
}

/// A marker that was not in a stream before some bytes came can only end in those bytes.
proof fn lemma_marker_in_window(stream: Seq<u8>, bytes: Seq<u8>, window: Seq<u8>, marker: Seq<u8>)
    requires
        window.len() <= stream.len(),
        window == stream.skip(stream.len() - window.len()),
        window.len() == stream.len() || window.len() + 1 >= marker.len(),
        !contained(stream, marker),
    ensures
        contained(stream + bytes, marker) == contained(window + bytes, marker),
{
    let whole = stream + bytes;
    let near = window + bytes;
    let d = stream.len() - window.len();
    assert(near =~= whole.skip(d));
    if contained(near, marker) {
        let i = choose|i: int| #[trigger] stands_at(near, marker, i);
        assert(whole.subrange(i + d, i + d + marker.len()) =~= near.subrange(i, i + marker.len()));
        assert(stands_at(whole, marker, i + d));
    }
    if contained(whole, marker) {
        let i = choose|i: int| #[trigger] stands_at(whole, marker, i);
        if i + marker.len() <= stream.len() {
            assert(stream.subrange(i, i + marker.len()) =~= whole.subrange(i, i + marker.len()));
            assert(stands_at(stream, marker, i));
        }
        assert(i >= d);
        assert(near.subrange(i - d, i - d + marker.len()) =~= whole.subrange(i, i + marker.len()));
        assert(stands_at(near, marker, i - d));
    }
}

impl MarkerScanner {
    /// Takes what was read next, and says whether the marker has come: it has exactly if it stands
    /// in all that was read, however far back.
    pub fn feed(&mut self, bytes: &[u8]) -> (found: bool)
        requires
            old(self).wf(),
            old(self).searching(),
        ensures
            final(self).wf(),
            final(self).marker() == old(self).marker(),
            final(self).stream() == old(self).stream() + bytes@,
            found == contained(final(self).stream(), final(self).marker()),
    {
        let ghost stream = self.stream@;
        let ghost window = self.collected@;
        proof {
            if self.marker@.len() == 0 {
                assert(stands_at(stream + bytes@, self.marker@, 0)) by {
                    assert((stream + bytes@).subrange(0, 0) =~= self.marker@);
                }
                assert(stands_at(window + bytes@, self.marker@, 0)) by {
                    assert((window + bytes@).subrange(0, 0) =~= self.marker@);
                }
            } else {
                lemma_marker_in_window(stream, bytes@, window, self.marker@);
            }
        }
        let mut collected: Vec<u8> = Vec::new();
        core::mem::swap(&mut collected, &mut self.collected);
        collected.extend_from_slice(bytes);
        assert(collected@ =~= window + bytes@);
        let found = contains_bytes(collected.as_slice(), self.marker.as_slice());
        let ghost all = stream + bytes@;
        assert(collected@ =~= all.skip(all.len() - collected@.len()));
        let needed: usize = self.marker.len().saturating_sub(1);
        let keep: usize = if needed > KEPT {
            needed
        } else {
            KEPT
        };
        if collected.len() > WINDOW && collected.len() > keep {
            let kept = tail(&collected, keep);
            assert(kept@ =~= all.skip(all.len() - keep));
            self.collected = kept;
        } else {
            self.collected = collected;
        }
        self.stream = Ghost(all);
        found
    }
}

impl MarkerScanner {
    /// Goes on with what came of a read.
    pub fn step(&mut self, outcome: ReadOutcome) -> (step: ReadStep)
        requires
            old(self).wf(),
            old(self).searching(),
        ensures
            final(self).wf(),
            final(self).marker() == old(self).marker(),
            match outcome {
                ReadOutcome::Bytes(bytes) => {
                    &&& final(self).stream() == old(self).stream() + bytes@
                    &&& if bytes@.len() == 0 {
                        step is Wait
                    } else if contained(final(self).stream(), final(self).marker()) {
                        step is Found
                    } else {
                        step is Again
                    }
                },
                ReadOutcome::Nothing => step is Wait && final(self).stream()
                    == old(self).stream(),
                ReadOutcome::Failed(e) => step == ReadStep::Fail(e) && final(self).stream()
                    == old(self).stream(),
            },
            !(step is Found) ==> final(self).searching(),
    {
        match outcome {
            ReadOutcome::Bytes(bytes) => {
                if bytes.len() == 0 {
                    assert(self.stream() + bytes@ =~= self.stream());
                    return ReadStep::Wait;
                }
                if self.feed(bytes.as_slice()) {
                    ReadStep::Found
                } else {
                    ReadStep::Again
                }
            },
            ReadOutcome::Nothing => ReadStep::Wait,
            ReadOutcome::Failed(e) => ReadStep::Fail(e),
        }
    }
}

// ---------------------------------------------------------------------------------------------
// Writing to a terminal

/// How much of a text is written.
#[derive(Debug, Clone, Copy, PartialEq, Eq, Structural)]
pub struct WriteProgress {
    pub total: usize,
    pub written: usize,
}

/// What may come of a write.
#[derive(Debug)]
pub enum WriteOutcome {
    Wrote(usize),
    Blocked,
    Failed(IoError),
}

/// What to do after a write.
#[derive(Debug)]
pub enum WriteStep {
    Again,
    Wait,
    Fail(IoError),
}

impl WriteProgress {
    pub open spec fn wf(self) -> bool {
        self.written <= self.total
    }

    pub fn new(total: usize) -> (r: WriteProgress)
        ensures
            r == (WriteProgress { total, written: 0 }),
            r.wf(),
    {
        WriteProgress { total, written: 0 }
    }

    pub fn is_complete(&self) -> (r: bool)
        ensures
            r == (self.written == self.total),
    {
        self.written == self.total
    }

    /// Goes on with what came of a write of the rest; at most the rest is written.
    pub fn step(&mut self, outcome: WriteOutcome) -> (step: WriteStep)
        requires
            old(self).wf(),
            outcome matches WriteOutcome::Wrote(n) ==> n <= old(self).total - old(self).written,
        ensures
            final(self).wf(),
            match outcome {
                WriteOutcome::Wrote(n) => *final(self) == (WriteProgress {
                    written: (old(self).written + n) as usize,
                    ..*old(self)
                }) && if n == 0 {
                    step is Wait
                } else {
                    step is Again
                },
                WriteOutcome::Blocked => step is Wait && *final(self) == *old(self),
                WriteOutcome::Failed(e) => step == WriteStep::Fail(e) && *final(self)
                    == *old(self),
            },
    {
        match outcome {
            WriteOutcome::Wrote(n) => {
                self.written = self.written + n;
                if n == 0 {
                    WriteStep::Wait
                } else {
                    WriteStep::Again
                }
            },
            WriteOutcome::Blocked => WriteStep::Wait,
            WriteOutcome::Failed(e) => WriteStep::Fail(e),
        }
    }

    /// What a write comes to when its time is over.
    pub fn finish(&self) -> (r: Result<(), IoError>)
        ensures
            match r {
                Ok(_) => self.written == self.total,
                Err(e) => self.written != self.total && e@ == (io::IoErrorView {
                    kind: IoErrorKind::TimedOut,
                    message: "PTY write timed out"@,
                }),
            },
    {
        if self.written == self.total {
            Ok(())
        } else {
            Err(IoError::new(IoErrorKind::TimedOut, "PTY write timed out"))
        }
    }
}

// ---------------------------------------------------------------------------------------------
// The process file system

pub open spec fn other_error(message: Seq<char>) -> io::IoErrorView {
    io::IoErrorView { kind: IoErrorKind::Other, message }
}

/// The number behind a key at the start of a line.
pub open spec fn kb_value(line: Seq<char>, key: Seq<char>) -> Option<u64> {
    let found = text::words(line.skip(key.len() as int));
    if text::begins_with(line, key) && found.len() > 0 {
        numbers::parsed_u64(found[0])
    } else {
        None
    }
}

/// Reads the number behind a key at the start of a line.
pub fn parse_kb_line(line: &str, key: &str) -> (r: Option<u64>)
    ensures
        r == kb_value(line@, key@),
{
    match text::after_prefix(line, key) {
        None => None,
        Some(rest) => {
            let found = text::list_words(rest);
            assert(text::texts(found@).len() == found@.len());
            if found.len() == 0 {
                None
            } else {
                assert(text::texts(found@)[0] == found@[0]@);
                numbers::parse_u64(found[0].as_str())
            }
        },
    }
}

/// The number behind a key in the last line that has one.
pub open spec fn last_kb_value(lines: Seq<Seq<char>>, key: Seq<char>) -> Option<u64>
    decreases lines.len(),
{
    if lines.len() == 0 {
        None
    } else {
        match kb_value(lines.last(), key) {
            Some(n) => Some(n),
            None => last_kb_value(lines.drop_last(), key),
        }
    }
}

/// No line has both keys.
proof fn lemma_one_key(line: Seq<char>)
    ensures
        kb_value(line, "Rss:"@) is Some ==> kb_value(line, "Pss:"@) is None,
{
    reveal_strlit("Rss:");
    reveal_strlit("Pss:");
    if text::begins_with(line, "Rss:"@) && text::begins_with(line, "Pss:"@) {
        assert(line.take(4)[0] == 'R');
        assert(line.take(4)[0] == 'P');
    }
}

/// Reads the resident and the proportional memory off the summary of a process.
pub fn memory_kb(summary: &str) -> (r: Result<(u64, u64), IoError>)
    ensures
        io::result_view(r) == memory_of(summary@),
        ({
            let lines = text::shown_lines(summary@);
            let rss = last_kb_value(lines, "Rss:"@);
            let pss = last_kb_value(lines, "Pss:"@);
            match r {
                Ok(found) => rss == Some(found.0) && pss == Some(found.1),
                Err(e) => if rss is None {
                    e@ == other_error("Rss missing from smaps_rollup"@)
                } else {
                    pss is None && e@ == other_error("Pss missing from smaps_rollup"@)
                },
            }
        }),
{
    let lines = text::list_lines(summary);
    let ghost all = text::shown_lines(summary@);
    let mut rss: Option<u64> = None;
    let mut pss: Option<u64> = None;
    let mut i: usize = 0;
    while i < lines.len()
        invariant
            all == text::texts(lines@),
            i <= lines@.len(),
            rss == last_kb_value(all.take(i as int), "Rss:"@),
            pss == last_kb_value(all.take(i as int), "Pss:"@),
        decreases lines@.len() - i,
    {
        assert(all.take(i + 1).drop_last() =~= all.take(i as int));
        assert(all[i as int] == lines@[i as int]@);
        proof {
            lemma_one_key(all[i as int]);
        }
        let line = lines[i].as_str();
        match parse_kb_line(line, "Rss:") {
            Some(n) => {
                rss = Some(n);
            },
            None => {
                if let Some(n) = parse_kb_line(line, "Pss:") {
                    pss = Some(n);
                }
            },
        }
        i = i + 1;
    }
    assert(all.take(i as int) =~= all);
    match (rss, pss) {
        (None, _) => Err(IoError::new(IoErrorKind::Other, "Rss missing from smaps_rollup")),
        (_, None) => Err(IoError::new(IoErrorKind::Other, "Pss missing from smaps_rollup")),
        (Some(a), Some(b)) => Ok((a, b)),
    }
}

/// The position of the last closing bracket before `n`, or -1.
pub open spec fn last_bracket(s: Seq<char>, n: int) -> int
    decreases n,
{
    if n <= 0 {
        -1
    } else if s[n - 1] == ')' {
        n - 1
    } else {
        last_bracket(s, n - 1)
    }
}

/// The words behind the last closing bracket.
pub open spec fn stat_fields(stat: Seq<char>) -> Seq<Seq<char>> {
    text::words(stat.skip(last_bracket(stat, stat.len() as int) + 1))
}

pub open spec fn field_value(
    fields: Seq<Seq<char>>,
    i: int,
    missing: Seq<char>,
    invalid: Seq<char>,
) -> Result<u64, io::IoErrorView> {
    if i >= fields.len() {
        Err(other_error(missing))
    } else {
        match numbers::parsed_u64(fields[i]) {
            Some(n) => Ok(n),
            None => Err(other_error(invalid)),
        }
    }
}

fn field(fields: &Vec<String>, i: usize, missing: &str, invalid: &str) -> (r: Result<u64, IoError>)
    ensures
        io::result_view(r) == field_value(text::texts(fields@), i as int, missing@, invalid@),
{
    assert(text::texts(fields@).len() == fields@.len());
    if i >= fields.len() {
        Err(IoError::new(IoErrorKind::Other, missing))
    } else {
        assert(text::texts(fields@)[i as int] == fields@[i as int]@);
        match numbers::parse_u64(fields[i].as_str()) {
            Some(n) => Ok(n),
            None => Err(IoError::new(IoErrorKind::Other, invalid)),
        }
    }
}

/// The ticks that a process spent in user mode and in the kernel, by its status line.
pub open spec fn ticks_of(stat: Seq<char>) -> Result<(u64, u64), io::IoErrorView> {
    let fields = stat_fields(stat);
    if last_bracket(stat, stat.len() as int) < 0 {
        Err(other_error("malformed /proc stat"@))
    } else {
        match (
            field_value(fields, 11, "utime missing"@, "invalid utime"@),
            field_value(fields, 12, "stime missing"@, "invalid stime"@),
        ) {
            (Err(e), _) => Err(e),
            (Ok(_), Err(e)) => Err(e),
            (Ok(user), Ok(system)) => Ok((user, system)),
        }
    }
}

/// Reads the ticks that a process spent in user mode and in the kernel off its status line.
pub fn process_times(stat: &str) -> (r: Result<(u64, u64), IoError>)
    ensures
        io::result_view(r) == ticks_of(stat@),
{
    let chars = text::chars_of(stat);
    let total: usize = chars.len();
    let mut n: usize = total;
    while n > 0 && chars[n - 1] != ')'
        invariant
            chars@ == stat@,
            total == chars@.len(),
            n <= total,
            last_bracket(stat@, total as int) == last_bracket(stat@, n as int),
        decreases n,
    {
        n = n - 1;
    }
    if n == 0 {
        return Err(IoError::new(IoErrorKind::Other, "malformed /proc stat"));
    }
    let rest = stat.substring_char(n, total);
    assert(rest@ =~= stat@.skip(n as int));
    let fields = text::list_words(rest);
    match field(&fields, 11, "utime missing", "invalid utime") {
        Err(e) => Err(e),
        Ok(user) => match field(&fields, 12, "stime missing", "invalid stime") {
            Err(e) => Err(e),
            Ok(system) => Ok((user, system)),
        },
    }
}

/// The ticks that a process spent altogether, by its status line.
pub open spec fn all_ticks_of(stat: Seq<char>) -> Result<int, io::IoErrorView> {
    match ticks_of(stat) {
        Ok((user, system)) => Ok(user + system),
        Err(e) => Err(e),
    }
}

/// Reads the ticks that a process spent altogether off its status line.
pub fn process_ticks(stat: &str) -> (r: Result<u64, IoError>)
    requires
        all_ticks_of(stat@) matches Ok(n) ==> n <= u64::MAX,
    ensures
        match r {
            Ok(n) => all_ticks_of(stat@) == Ok::<int, io::IoErrorView>(n as int),
            Err(e) => all_ticks_of(stat@) == Err::<int, io::IoErrorView>(e@),
        },
{
    match process_times(stat) {
        Ok((user, system)) => Ok(user + system),
        Err(e) => Err(e),
    }
}

// ---------------------------------------------------------------------------------------------
// Samples

/// That numbers do not fall.
pub open spec fn ascending(s: Seq<i128>) -> bool {
    forall|i: int, j: int| 0 <= i <= j < s.len() ==> s[i] <= s[j]
}

/// That `s` holds the given numbers in order.
pub open spec fn is_ordering(s: Seq<i128>, values: Seq<i128>) -> bool {
    ascending(s) && s.to_multiset() == values.to_multiset()
}

proof fn lemma_insert(ordered: Seq<i128>, values: Seq<i128>, k: int, v: i128)
    requires
        is_ordering(ordered, values),
        0 <= k <= ordered.len(),
        k > 0 ==> ordered[k - 1] <= v,
        forall|j: int| k <= j < ordered.len() ==> ordered[j] > v,
    ensures
        is_ordering(ordered.insert(k, v), values.push(v)),
{
    broadcast use vstd::seq_lib::group_to_multiset_ensures;

    assert(ordered.insert(k, v).to_multiset() == ordered.to_multiset().insert(v));
    let s = ordered.insert(k, v);
    assert forall|i: int, j: int| 0 <= i <= j < s.len() implies s[i] <= s[j] by {
        if i < k && j == k {
            assert(ordered[i] <= ordered[k - 1]);
        }
    }
}

/// Puts numbers in order.
fn sort_numbers(values: &Vec<i128>) -> (r: Vec<i128>)
    ensures
        is_ordering(r@, values@),
{
    let mut r: Vec<i128> = Vec::new();
    let mut i: usize = 0;
    assert(values@.take(0) =~= Seq::empty());
    assert(r@ =~= Seq::empty());
    while i < values.len()
        invariant
            i <= values@.len(),
            is_ordering(r@, values@.take(i as int)),
        decreases values@.len() - i,
    {
        let v: i128 = values[i];
        let ghost before = r@;
        let mut k: usize = r.len();
        while k > 0 && r[k - 1] > v
            invariant
                r@ == before,
                k <= r@.len(),
                forall|j: int| k <= j < r@.len() ==> r@[j] > v,
            decreases k,
        {
            k = k - 1;
        }
        r.insert(k, v);
        assert(r@ =~= before.insert(k as int, v));
        assert(values@.take(i + 1) =~= values@.take(i as int).push(v));
        proof {
            lemma_insert(before, values@.take(i as int), k as int, v);
        }
        i = i + 1;
    }
    assert(values@.take(i as int) =~= values@);
    r
}

/// The number that stands at a position once the numbers are in order.
pub fn order_statistic(values: &Vec<i128>, index: usize) -> (r: i128)
    requires
        index < values@.len(),
    ensures
        exists|s: Seq<i128>| #[trigger] is_ordering(s, values@) && r == s[index as int],
{
    let sorted = sort_numbers(values);
    proof {
        sorted@.to_multiset_ensures();
        values@.to_multiset_ensures();
    }
    assert(sorted@.len() == values@.len());
    sorted[index]
}

/// There is only one order of numbers, so that the number at a position is determined.
pub proof fn orderings_are_unique(a: Seq<i128>, b: Seq<i128>, values: Seq<i128>)
    requires
        is_ordering(a, values),
        is_ordering(b, values),
    ensures
        a == b,
{
    let leq = |x: i128, y: i128| x <= y;
    assert(vstd::relations::sorted_by(a, leq));
    assert(vstd::relations::sorted_by(b, leq));
    vstd::seq_lib::lemma_sorted_unique(a, b, leq);
}

/// The number that the bits of `n` stand for where the first of them is a sign.
pub open spec fn signed(n: u64) -> int {
    if n <= i64::MAX {
        n as int
    } else {
        n - 0x1_0000_0000_0000_0000
    }
}

/// How much memory a session takes: what is used with it, less what was used without.
pub fn session_delta(without: u64, with_session: u64) -> (r: i64)
    requires
        i64::MIN <= signed(with_session) - signed(without) <= i64::MAX,
    ensures
        r == signed(with_session) - signed(without),
{
    proof {
        assert(with_session <= 0x7fff_ffff_ffff_ffffu64 ==> with_session as i64 == with_session)
            by (bit_vector);
        assert(with_session > 0x7fff_ffff_ffff_ffffu64 ==> with_session as i64 == with_session
            - 0x1_0000_0000_0000_0000) by (bit_vector);
        assert(without <= 0x7fff_ffff_ffff_ffffu64 ==> without as i64 == without) by (bit_vector);
        assert(without > 0x7fff_ffff_ffff_ffffu64 ==> without as i64 == without
            - 0x1_0000_0000_0000_0000) by (bit_vector);
    }
    #[verifier::truncate]
    let after: i64 = with_session as i64;
    #[verifier::truncate]
    let before: i64 = without as i64;
    after - before
}

/// How many runs an argument asks for: ten where there is none or it is no number.
pub open spec fn runs_asked(argument: Option<Seq<char>>) -> u64 {
    match argument {
        Some(s) => match numbers::parsed_u64(s) {
            Some(n) => n,
            None => 10,
        },
        None => 10,
    }
}

/// Reads how many runs are asked for; none is refused.
pub fn runs_argument(argument: Option<&str>) -> (r: Option<u64>)
    ensures
        ({
            let asked = runs_asked(
                match argument {
                    Some(s) => Some(s@),
                    None => None,
                },
            );
            r == if asked == 0 {
                None
            } else {
                Some(asked)
            }
        }),
{
    let asked: u64 = match argument {
        Some(s) => match numbers::parse_u64(s) {
            Some(n) => n,
            None => 10,
        },
        None => 10,
    };
    if asked == 0 {
        None
    } else {
        Some(asked)
    }
}

// ---------------------------------------------------------------------------------------------
// A run

/// How far a run of the program in a terminal has come.
#[derive(Debug, Clone, Copy, PartialEq, Eq, Structural)]
pub enum RunStage {
    FirstFrame,
    Type,
    Echo,
    Erase,
    Settle,
    Memory,
    Idle,
    NewSession,
    SessionStarted,
    SettleAgain,
    SessionMemory,
    Interrupt,
    Wait,
    Over,
}

/// What a run does next.
#[derive(Debug, Clone, Copy, PartialEq, Eq)]
pub enum RunAction {
    /// Read until a text comes.
    Expect(&'static str),
    /// Write a text.
    Send(&'static str),
    /// Let some milliseconds pass.
    Pause(u64),
    /// Measure the memory of the program.
    MeasureMemory,
    /// Measure the processor time of the idle program.
    MeasureIdle,
    /// Wait for the program to end, and end it after a second.
    AwaitExit,
}

impl RunStage {
    /// What is done at a stage.
    pub open spec fn action_of(self) -> Option<RunAction> {
        match self {
            RunStage::FirstFrame => Some(RunAction::Expect("MatrixCode")),
            RunStage::Type => Some(RunAction::Send("§")),
            RunStage::Echo => Some(RunAction::Expect("§")),
            RunStage::Erase => Some(RunAction::Send("\x7f")),
            RunStage::Settle => Some(RunAction::Pause(100)),
            RunStage::Memory => Some(RunAction::MeasureMemory),
            RunStage::Idle => Some(RunAction::MeasureIdle),
            RunStage::NewSession => Some(RunAction::Send("/new\r")),
            RunStage::SessionStarted => Some(RunAction::Expect("Started a new session.")),
            RunStage::SettleAgain => Some(RunAction::Pause(100)),
            RunStage::SessionMemory => Some(RunAction::MeasureMemory),
            RunStage::Interrupt => Some(RunAction::Send("\x03")),
            RunStage::Wait => Some(RunAction::AwaitExit),
            RunStage::Over => None,
        }
    }

    /// The stage that follows where all goes well.
    pub open spec fn following(self) -> RunStage {
        match self {
            RunStage::FirstFrame => RunStage::Type,
            RunStage::Type => RunStage::Echo,
            RunStage::Echo => RunStage::Erase,
            RunStage::Erase => RunStage::Settle,
            RunStage::Settle => RunStage::Memory,
            RunStage::Memory => RunStage::Idle,
            RunStage::Idle => RunStage::NewSession,
            RunStage::NewSession => RunStage::SessionStarted,
            RunStage::SessionStarted => RunStage::SettleAgain,
            RunStage::SettleAgain => RunStage::SessionMemory,
            RunStage::SessionMemory => RunStage::Interrupt,
            RunStage::Interrupt => RunStage::Wait,
            RunStage::Wait => RunStage::Over,
            RunStage::Over => RunStage::Over,
        }
    }

    /// What is done next; nothing once the run is over.
    pub fn action(&self) -> (r: Option<RunAction>)
        ensures
            r == self.action_of(),
    {
        match self {
            RunStage::FirstFrame => Some(RunAction::Expect("MatrixCode")),
            RunStage::Type => Some(RunAction::Send("§")),
            RunStage::Echo => Some(RunAction::Expect("§")),
            RunStage::Erase => Some(RunAction::Send("\x7f")),
            RunStage::Settle => Some(RunAction::Pause(100)),
            RunStage::Memory => Some(RunAction::MeasureMemory),
            RunStage::Idle => Some(RunAction::MeasureIdle),
            RunStage::NewSession => Some(RunAction::Send("/new\r")),
            RunStage::SessionStarted => Some(RunAction::Expect("Started a new session.")),
            RunStage::SettleAgain => Some(RunAction::Pause(100)),
            RunStage::SessionMemory => Some(RunAction::MeasureMemory),
            RunStage::Interrupt => Some(RunAction::Send("\x03")),
            RunStage::Wait => Some(RunAction::AwaitExit),
            RunStage::Over => None,
        }
    }

    /// Goes on to the stage that follows.
    pub fn advance(&self) -> (r: RunStage)
        ensures
            r == self.following(),
    {
        match self {
            RunStage::FirstFrame => RunStage::Type,
            RunStage::Type => RunStage::Echo,
            RunStage::Echo => RunStage::Erase,
            RunStage::Erase => RunStage::Settle,
            RunStage::Settle => RunStage::Memory,
            RunStage::Memory => RunStage::Idle,
            RunStage::Idle => RunStage::NewSession,
            RunStage::NewSession => RunStage::SessionStarted,
            RunStage::SessionStarted => RunStage::SettleAgain,
            RunStage::SettleAgain => RunStage::SessionMemory,
            RunStage::SessionMemory => RunStage::Interrupt,
            RunStage::Interrupt => RunStage::Wait,
            RunStage::Wait => RunStage::Over,
            RunStage::Over => RunStage::Over,
        }
    }

    /// Whether a failure at this stage ends the program: one to see a text that is expected does.
    pub fn failure_ends_program(&self) -> (r: bool)
        ensures
            r == (self.action_of() matches Some(RunAction::Expect(_))),
    {
        match self {
            RunStage::FirstFrame | RunStage::Echo | RunStage::SessionStarted => true,
            _ => false,
        }
    }
}

// ---------------------------------------------------------------------------------------------
// Laws

/// A text is found wherever it stands, whatever is before and behind it; and what is found stands
/// there.
pub proof fn what_stands_there_is_found(before: Seq<u8>, needle: Seq<u8>, after: Seq<u8>)
    ensures
        contained(before + needle + after, needle),
{
    let whole = before + needle + after;
    let i = before.len() as int;
    assert(whole.subrange(i, i + needle.len()) =~= needle);
    assert(stands_at(whole, needle, i));
}

/// What is found is there: the whole is what is before it, itself, and what is behind it.
pub proof fn what_is_found_stands_there(haystack: Seq<u8>, needle: Seq<u8>) -> (i: int)
    requires
        contained(haystack, needle),
    ensures
        0 <= i <= haystack.len() - needle.len(),
        haystack == haystack.take(i) + needle + haystack.skip(i + needle.len()),
{
    let i = choose|i: int| #[trigger] stands_at(haystack, needle, i);
    assert(haystack =~= haystack.take(i) + haystack.subrange(i, i + needle.len()) + haystack.skip(
        i + needle.len(),
    ));
    i
}

proof fn lemma_padded_words(pad: Seq<char>, word: Seq<char>, rest: Seq<char>)
    requires
        forall|i: int| 0 <= i < pad.len() ==> text::white_space(#[trigger] pad[i]),
        word.len() > 0,
        forall|i: int| 0 <= i < word.len() ==> !text::white_space(#[trigger] word[i]),
        rest.len() == 0 || text::white_space(rest[0]),
    ensures
        text::words(pad + word + rest).len() > 0,
        text::words(pad + word + rest)[0] == word,
    decreases pad.len(),
{
    let whole = pad + word + rest;
    if pad.len() > 0 {
        let less = pad.skip(1);
        let none = Seq::<char>::empty();
        assert forall|i: int| 0 <= i < less.len() implies text::white_space(
            #[trigger] less[i],
        ) by {
            assert(less[i] == pad[i + 1]);
        }
        lemma_padded_words(less, word, rest);
        assert(text::white_space(pad[0]));
        text::white_space_parts_words(none, pad[0], less + word + rest);
        assert(none.push(pad[0]) + (less + word + rest) =~= whole);
        assert(text::words(whole) =~= text::words(less + word + rest));
    } else if rest.len() > 0 {
        text::white_space_parts_words(word, rest[0], rest.skip(1));
        assert(word.push(rest[0]) + rest.skip(1) =~= whole);
    } else {
        text::white_space_parts_words(word, ' ', rest);
        assert(whole =~= word);
    }
}

/// The number behind a key is read whatever white space is before it, and whatever follows it
/// behind white space.
pub proof fn numbers_behind_keys_are_read(
    key: Seq<char>,
    pad: Seq<char>,
    n: u64,
    rest: Seq<char>,
)
    requires
        forall|i: int| 0 <= i < pad.len() ==> text::white_space(#[trigger] pad[i]),
        rest.len() == 0 || text::white_space(rest[0]),
    ensures
        kb_value(key + pad + numbers::decimal(n as nat) + rest, key) == Some(n),
{
    let word = numbers::decimal(n as nat);
    let line = key + pad + word + rest;
    numbers::decimal_reads_back(n);
    numbers::lemma_parsed_digits(word);
    assert forall|i: int| 0 <= i < word.len() implies !text::white_space(#[trigger] word[i]) by {
        assert(numbers::is_digit(word[i]) || word[i] == '+');
    }
    lemma_padded_words(pad, word, rest);
    assert(line.take(key.len() as int) =~= key);
    assert(line.skip(key.len() as int) =~= pad + word + rest);
}

/// Lines that do not begin with the key hold no number behind it.
pub proof fn other_lines_hold_no_number(line: Seq<char>, key: Seq<char>)
    requires
        line.len() < key.len() || line.take(key.len() as int) != key,
    ensures
        kb_value(line, key) is None,
{
}

/// Of several lines with a number behind the key the last counts, and lines without one do not.
pub proof fn the_last_number_counts(
    earlier: Seq<Seq<char>>,
    later: Seq<Seq<char>>,
    key: Seq<char>,
)
    ensures
        last_kb_value(earlier + later, key) == (if last_kb_value(later, key) is Some {
            last_kb_value(later, key)
        } else {
            last_kb_value(earlier, key)
        }),
        earlier.len() == 1 ==> last_kb_value(earlier, key) == kb_value(earlier[0], key),
    decreases later.len(),
{
    if earlier.len() == 1 {
        let none = earlier.drop_last();
        assert(none.len() == 0);
        assert(last_kb_value(none, key) is None);
    }
    if later.len() == 0 {
        assert(earlier + later =~= earlier);
    } else {
        the_last_number_counts(earlier, later.drop_last(), key);
        assert((earlier + later).drop_last() =~= earlier + later.drop_last());
    }
}

proof fn lemma_last_bracket(s: Seq<char>, k: int, n: int)
    requires
        0 <= k < n <= s.len(),
        s[k] == ')',
        forall|i: int| k < i < n ==> #[trigger] s[i] != ')',
    ensures
        last_bracket(s, n) == k,
    decreases n,
{
    if n - 1 > k {
        lemma_last_bracket(s, k, n - 1);
    }
}

proof fn lemma_no_bracket(s: Seq<char>, n: int)
    requires
        0 <= n <= s.len(),
        !s.contains(')'),
    ensures
        last_bracket(s, n) == -1,
    decreases n,
{
    if n > 0 {
        assert(s.contains(s[n - 1]));
        lemma_no_bracket(s, n - 1);
    }
}

/// The fields of a status line are the words behind its last closing bracket, whatever stands
/// before it: the name of a process may hold brackets and spaces.
pub proof fn fields_stand_behind_the_last_bracket(head: Seq<char>, rest: Seq<char>)
    requires
        !rest.contains(')'),
    ensures
        stat_fields(head.push(')') + rest) == text::words(rest),
        ticks_of(rest) == Err::<(u64, u64), io::IoErrorView>(
            io::IoErrorView { kind: IoErrorKind::Other, message: "malformed /proc stat"@ },
        ),
{
    let s = head.push(')') + rest;
    let k = head.len() as int;
    assert forall|i: int| k < i < s.len() implies #[trigger] s[i] != ')' by {
        assert(s[i] == rest[i - k - 1]);
        assert(rest.contains(rest[i - k - 1]));
    }
    lemma_last_bracket(s, k, s.len() as int);
    assert(s.skip(k + 1) =~= rest);
    lemma_no_bracket(rest, rest.len() as int);
}

/// The ticks of a process are the twelfth and the thirteenth field, both of which must be there and
/// spell numbers; what is wrong with the former is said before what is wrong with the latter.
pub proof fn ticks_are_two_fields(head: Seq<char>, rest: Seq<char>)
    requires
        !rest.contains(')'),
    ensures
        ({
            let fields = text::words(rest);
            let ticks = ticks_of(head.push(')') + rest);
            &&& ticks is Ok <==> fields.len() >= 13 && numbers::parsed_u64(fields[11]) is Some
                && numbers::parsed_u64(fields[12]) is Some
            &&& ticks matches Ok(found) ==> Some(found.0) == numbers::parsed_u64(fields[11])
                && Some(found.1) == numbers::parsed_u64(fields[12])
            &&& ticks matches Err(e) ==> {
                &&& e.kind == IoErrorKind::Other
                &&& fields.len() < 12 ==> e.message == "utime missing"@
                &&& fields.len() >= 12 && numbers::parsed_u64(fields[11]) is None ==> e.message
                    == "invalid utime"@
                &&& fields.len() == 12 && numbers::parsed_u64(fields[11]) is Some ==> e.message
                    == "stime missing"@
                &&& fields.len() >= 13 && numbers::parsed_u64(fields[11]) is Some ==> e.message
                    == "invalid stime"@
            }
        }),
{
    fields_stand_behind_the_last_bracket(head, rest);
    let s = head.push(')') + rest;
    let k = head.len() as int;
    assert forall|i: int| k < i < s.len() implies #[trigger] s[i] != ')' by {
        assert(s[i] == rest[i - k - 1]);
        assert(rest.contains(rest[i - k - 1]));
    }
    lemma_last_bracket(s, k, s.len() as int);
}

/// What a process spent altogether is what it spent in user mode and in the kernel.
pub proof fn ticks_are_summed(stat: Seq<char>)
    ensures
        ticks_of(stat) matches Ok(found) ==> all_ticks_of(stat) == Ok::<int, io::IoErrorView>(
            found.0 + found.1,
        ),
        ticks_of(stat) matches Err(e) ==> all_ticks_of(stat) == Err::<int, io::IoErrorView>(e),
{
}

/// Numbers in order begin with the least and end with the greatest, and hold each as often as it
/// was given.
pub proof fn orderings_go_from_least_to_greatest(s: Seq<i128>, values: Seq<i128>, i: int)
    requires
        is_ordering(s, values),
        0 <= i < values.len(),
    ensures
        s.len() == values.len(),
        s[0] <= values[i] <= s[s.len() - 1],
        s.contains(values[i]),
{
    s.to_multiset_ensures();
    values.to_multiset_ensures();
    assert(values.contains(values[i]));
    assert(values.to_multiset().count(values[i]) > 0);
    assert(s.contains(values[i]));
    let k = choose|k: int| 0 <= k < s.len() && s[k] == values[i];
    assert(s[0] <= s[k] <= s[s.len() - 1]);
}

/// The signed number of some bits differs from the unsigned one by nothing or by all that the bits
/// can count, and fits in the same bits.
pub proof fn signed_numbers_have_the_same_bits(n: u64)
    ensures
        i64::MIN <= signed(n) <= i64::MAX,
        signed(n) == n || signed(n) + 0x1_0000_0000_0000_0000 == n,
{
}

/// Ten runs are made unless a number is given; that many are made if it is.
pub proof fn as_many_runs_as_asked(n: u64, s: Seq<char>)
    ensures
        runs_asked(None) == 10,
        runs_asked(Some(numbers::decimal(n as nat))) == n,
        numbers::parsed_u64(s) is None ==> runs_asked(Some(s)) == 10,
{
    numbers::decimal_reads_back(n);
}

/// How many stages of a run are still to come.
pub open spec fn stages_left(stage: RunStage) -> int {
    match stage {
        RunStage::FirstFrame => 13,
        RunStage::Type => 12,
        RunStage::Echo => 11,
        RunStage::Erase => 10,
        RunStage::Settle => 9,
        RunStage::Memory => 8,
        RunStage::Idle => 7,
        RunStage::NewSession => 6,
        RunStage::SessionStarted => 5,
        RunStage::SettleAgain => 4,
        RunStage::SessionMemory => 3,
        RunStage::Interrupt => 2,
        RunStage::Wait => 1,
        RunStage::Over => 0,
    }
}

/// A run goes through all its stages, one after the other, and leaves none out; it is over when
/// nothing is left to be done, and only then.
pub proof fn runs_leave_no_stage_out(stage: RunStage)
    ensures
        stage.action_of() is None <==> stages_left(stage) == 0,
        stages_left(stage) > 0 ==> stages_left(stage.following()) == stages_left(stage) - 1,
        stages_left(stage) == 0 ==> stage.following() == stage,
{
}

/// A run begins by waiting for the name of the program. Memory is measured only after a pause, what
/// is typed into the program is waited for and then erased, and the program is interrupted before
/// its end is waited for.
pub proof fn runs_settle_before_they_measure(stage: RunStage)
    ensures
        stage.following().action_of() == Some(RunAction::MeasureMemory) ==> stage.action_of()
            == Some(RunAction::Pause(100)),
        stage.action_of() == Some(RunAction::Pause(100)) ==> stage.following().action_of() == Some(
            RunAction::MeasureMemory,
        ),
        stage.action_of() == Some(RunAction::Send("§")) ==> stage.following().action_of() == Some(
            RunAction::Expect("§"),
        ),
        stage.action_of() == Some(RunAction::Send("/new\r")) ==> stage.following().action_of()
            == Some(RunAction::Expect("Started a new session.")),
        stage.following().action_of() == Some(RunAction::AwaitExit) && stage.action_of() != Some(
            RunAction::AwaitExit,
        ) ==> stage.action_of() == Some(RunAction::Send("\x03")),
        stage.action_of() == Some(RunAction::MeasureIdle) ==> stage.following().action_of() == Some(
            RunAction::Send("/new\r"),
        ),
        stage.action_of() == Some(RunAction::Expect("§")) ==> stage.following().action_of() == Some(
            RunAction::Send("\x7f"),
        ),
        stages_left(stage) == 13 ==> stage.action_of() == Some(RunAction::Expect(cli::NAME)),
{
    reveal_strlit("§");
    reveal_strlit("/new\r");
    reveal_strlit("\x7f");
    reveal_strlit("\x03");
    assert("§"@.len() == 1 && "/new\r"@.len() == 5 && "\x7f"@.len() == 1 && "\x03"@.len() == 1);
    reveal_strlit("MatrixCode");
    reveal_strlit("Started a new session.");
    assert("MatrixCode"@.len() == 10 && "Started a new session."@.len() == 22);
    assert("§"@[0] == '§' && "\x7f"@[0] == '\x7f' && "\x03"@[0] == '\x03');
}

/// What the summary of a process says on its resident and its proportional memory.
pub open spec fn memory_of(summary: Seq<char>) -> Result<(u64, u64), io::IoErrorView> {
    let lines = text::shown_lines(summary);
    match (last_kb_value(lines, "Rss:"@), last_kb_value(lines, "Pss:"@)) {
        (None, _) => Err(other_error("Rss missing from smaps_rollup"@)),
        (Some(_), None) => Err(other_error("Pss missing from smaps_rollup"@)),
        (Some(rss), Some(pss)) => Ok((rss, pss)),
    }
}

/// The memory of a process is read off two lines with the right keys, wherever they stand among
/// others that have neither: the resident memory comes first, the proportional memory second.
pub proof fn memory_is_read_off_two_lines(
    rss: u64,
    pss: u64,
    pad: Seq<char>,
    unit: Seq<char>,
    rest: Seq<char>,
)
    requires
        forall|i: int|
            0 <= i < pad.len() ==> text::white_space(#[trigger] pad[i]) && pad[i] != '\n',
        unit.len() > 0,
        text::white_space(unit[0]),
        unit.last() != '\r',
        !unit.contains('\n'),
        last_kb_value(text::shown_lines(rest), "Rss:"@) is None,
        last_kb_value(text::shown_lines(rest), "Pss:"@) is None,
    ensures
        ({
            let first = "Rss:"@ + pad + numbers::decimal(rss as nat) + unit;
            let second = "Pss:"@ + pad + numbers::decimal(pss as nat) + unit;
            &&& memory_of(first.push('\n') + (second.push('\n') + rest)) == Ok::<
                (u64, u64),
                io::IoErrorView,
            >((rss, pss))
            &&& memory_of(second.push('\n') + (first.push('\n') + rest)) == Ok::<
                (u64, u64),
                io::IoErrorView,
            >((rss, pss))
            &&& memory_of(first.push('\n') + rest) == Err::<(u64, u64), io::IoErrorView>(
                other_error("Pss missing from smaps_rollup"@),
            )
            &&& memory_of(second.push('\n') + rest) == Err::<(u64, u64), io::IoErrorView>(
                other_error("Rss missing from smaps_rollup"@),
            )
        }),
{
    let first = "Rss:"@ + pad + numbers::decimal(rss as nat) + unit;
    let second = "Pss:"@ + pad + numbers::decimal(pss as nat) + unit;
    reveal_strlit("Rss:");
    reveal_strlit("Pss:");
    lemma_memory_line("Rss:"@, pad, rss, unit);
    lemma_memory_line("Pss:"@, pad, pss, unit);
    let tail = text::shown_lines(rest);
    assert(first[0] == 'R' && second[0] == 'P');
    assert(first.take(4)[0] == 'R' && second.take(4)[0] == 'P');
    assert(kb_value(first, "Pss:"@) is None);
    assert(kb_value(second, "Rss:"@) is None);
    text::lines_are_shown_as_they_stand(first, rest);
    text::lines_are_shown_as_they_stand(second, rest);
    text::lines_are_shown_as_they_stand(first, second.push('\n') + rest);
    text::lines_are_shown_as_they_stand(second, first.push('\n') + rest);
    the_last_number_counts(seq![first], tail, "Rss:"@);
    the_last_number_counts(seq![first], tail, "Pss:"@);
    the_last_number_counts(seq![second], tail, "Rss:"@);
    the_last_number_counts(seq![second], tail, "Pss:"@);
    the_last_number_counts(seq![first], seq![second] + tail, "Rss:"@);
    the_last_number_counts(seq![first], seq![second] + tail, "Pss:"@);
    the_last_number_counts(seq![second], seq![first] + tail, "Rss:"@);
    the_last_number_counts(seq![second], seq![first] + tail, "Pss:"@);
}

proof fn lemma_memory_line(key: Seq<char>, pad: Seq<char>, n: u64, unit: Seq<char>)
    requires
        forall|i: int|
            0 <= i < pad.len() ==> text::white_space(#[trigger] pad[i]) && pad[i] != '\n',
        unit.len() > 0,
        text::white_space(unit[0]),
        unit.last() != '\r',
        !unit.contains('\n'),
        !key.contains('\n'),
    ensures
        ({
            let line = key + pad + numbers::decimal(n as nat) + unit;
            &&& kb_value(line, key) == Some(n)
            &&& !line.contains('\n')
            &&& line.len() > 0
            &&& line.last() != '\r'
        }),
{
    let digits = numbers::decimal(n as nat);
    let line = key + pad + digits + unit;
    assert forall|i: int| 0 <= i < pad.len() implies text::white_space(#[trigger] pad[i]) by {
        assert(pad[i] != '\n');
    }
    numbers_behind_keys_are_read(key, pad, n, unit);
    numbers::decimal_reads_back(n);
    numbers::lemma_parsed_digits(digits);
    assert forall|i: int| 0 <= i < line.len() implies #[trigger] line[i] != '\n' by {
        let a = key.len();
        let b = a + pad.len();
        let c = b + digits.len();
        if i < a {
            assert(line[i] == key[i]);
            assert(key.contains(key[i]));
        } else if i < b {
            assert(line[i] == pad[i - a]);
        } else if i < c {
            assert(line[i] == digits[i - b]);
            assert(numbers::is_digit(digits[i - b]) || digits[i - b] == '+');
        } else {
            assert(line[i] == unit[i - c]);
            assert(unit.contains(unit[i - c]));
        }
    }
    assert(line.last() == unit.last());
}

} // verus!
