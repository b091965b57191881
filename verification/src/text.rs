//! Text: white space, comparison, and the correspondence between the characters of a string
//! and the bytes that encode them.

use vstd::prelude::*;
use vstd::string::*;
use vstd::utf8::*;

verus! {

// ---------------------------------------------------------------------------------------------
// Characters and their encoding

/// The number of bytes that encode the first `k` characters of `s`: the byte position at which
/// character `k` starts.
pub open spec fn byte_pos(s: Seq<char>, k: int) -> int {
    encode_utf8(s.take(k)).len() as int
}

/// Byte position `p` is where a character of `s` starts, or the end of `s`.
pub open spec fn starts_character_or_end(s: Seq<char>, p: int) -> bool {
    exists|k: int| 0 <= k <= s.len() && #[trigger] byte_pos(s, k) == p
}

/// Encoding distributes over concatenation.
pub proof fn lemma_encode_concat(a: Seq<char>, b: Seq<char>)
    ensures
        encode_utf8(a + b) == encode_utf8(a) + encode_utf8(b),
    decreases a.len(),
{
    if a.len() == 0 {
        assert(a + b =~= b);
        assert(encode_utf8(a) + encode_utf8(b) =~= encode_utf8(b));
    } else {
        lemma_encode_concat(a.drop_first(), b);
        assert((a + b).drop_first() =~= a.drop_first() + b);
        assert(encode_utf8(a + b) =~= encode_utf8(a) + encode_utf8(b));
    }
}

/// Encoding loses nothing: two texts with the same bytes are the same text.
pub proof fn lemma_encode_injective(a: Seq<char>, b: Seq<char>)
    requires
        encode_utf8(a) == encode_utf8(b),
    ensures
        a == b,
{
    encode_utf8_decode_utf8(a);
    encode_utf8_decode_utf8(b);
}

pub proof fn lemma_encode_one(c: char)
    ensures
        encode_utf8(seq![c]) == encode_scalar(c as u32),
        1 <= encode_scalar(c as u32).len() <= 4,
{
    let rest = seq![c].drop_first();
    assert(rest.len() == 0);
    assert(encode_utf8(rest) == Seq::<u8>::empty());
    assert(encode_utf8(seq![c]) =~= encode_scalar(c as u32));
}

/// One step of [`byte_pos`].
pub proof fn lemma_byte_pos_step(s: Seq<char>, k: int)
    requires
        0 <= k < s.len(),
    ensures
        encode_utf8(s.take(k + 1)) == encode_utf8(s.take(k)) + encode_scalar(s[k] as u32),
        byte_pos(s, k + 1) == byte_pos(s, k) + encode_scalar(s[k] as u32).len(),
        byte_pos(s, k) < byte_pos(s, k + 1) <= byte_pos(s, k) + 4,
{
    assert(s.take(k + 1) =~= s.take(k) + seq![s[k]]);
    lemma_encode_concat(s.take(k), seq![s[k]]);
    lemma_encode_one(s[k]);
}

pub proof fn lemma_byte_pos_increases(s: Seq<char>, j: int, k: int)
    requires
        0 <= j < k <= s.len(),
    ensures
        byte_pos(s, j) < byte_pos(s, k),
    decreases k - j,
{
    lemma_byte_pos_step(s, k - 1);
    if j < k - 1 {
        lemma_byte_pos_increases(s, j, k - 1);
    }
}

pub proof fn lemma_byte_pos_ends(s: Seq<char>)
    ensures
        byte_pos(s, 0) == 0,
        byte_pos(s, s.len() as int) == encode_utf8(s).len(),
{
    assert(s.take(0) =~= Seq::<char>::empty());
    assert(s.take(s.len() as int) =~= s);
}

/// The bytes of a text, cut at the start of character `k`.
pub proof fn lemma_cut(s: Seq<char>, k: int)
    requires
        0 <= k <= s.len(),
    ensures
        encode_utf8(s) == encode_utf8(s.take(k)) + encode_utf8(s.skip(k)),
        encode_utf8(s).subrange(0, byte_pos(s, k)) == encode_utf8(s.take(k)),
        encode_utf8(s).subrange(byte_pos(s, k), encode_utf8(s).len() as int) == encode_utf8(
            s.skip(k),
        ),
        0 <= byte_pos(s, k) <= encode_utf8(s).len(),
{
    assert(s =~= s.take(k) + s.skip(k));
    lemma_encode_concat(s.take(k), s.skip(k));
    assert(encode_utf8(s).subrange(0, byte_pos(s, k)) =~= encode_utf8(s.take(k)));
    assert(encode_utf8(s).subrange(byte_pos(s, k), encode_utf8(s).len() as int) =~= encode_utf8(
        s.skip(k),
    ));
}

/// Every character starts at a boundary.
pub proof fn lemma_byte_pos_is_boundary(s: Seq<char>, k: int)
    requires
        0 <= k <= s.len(),
    ensures
        is_char_boundary(encode_utf8(s), byte_pos(s, k)),
    decreases k,
{
    encode_utf8_valid_utf8(s);
    if k == 0 {
        lemma_byte_pos_ends(s);
    } else {
        encode_utf8_first_scalar(s);
        lemma_cut(s, k);
        lemma_byte_pos_is_boundary(s.drop_first(), k - 1);
        assert(s.take(k).drop_first() =~= s.drop_first().take(k - 1));
        assert(s.take(k)[0] == s[0]);
        assert(pop_first_scalar(encode_utf8(s)) =~= encode_utf8(s.drop_first()));
        lemma_byte_pos_ends(s);
        lemma_byte_pos_increases(s, 0, k);
    }
}

/// Every boundary is the start of a character, or the end.
pub proof fn lemma_boundary_is_byte_pos(s: Seq<char>, p: int) -> (k: int)
    requires
        is_char_boundary(encode_utf8(s), p),
        0 <= p <= encode_utf8(s).len(),
    ensures
        0 <= k <= s.len(),
        byte_pos(s, k) == p,
{
    let bytes = encode_utf8(s);
    encode_utf8_valid_utf8(s);
    encode_utf8_decode_utf8(s);
    valid_utf8_split(bytes, p);
    decode_utf8_split(bytes, p);
    let a = decode_utf8(bytes.subrange(0, p));
    decode_utf8_encode_utf8(bytes.subrange(0, p));
    assert(s.take(a.len() as int) =~= a);
    a.len() as int
}

/// The byte at the start of a character is a line feed exactly when the character is one; so is
/// the byte just before the start of the next.
pub proof fn lemma_line_feed_byte(s: Seq<char>, k: int)
    requires
        0 <= k < s.len(),
    ensures
        byte_pos(s, k) < byte_pos(s, k + 1) <= encode_utf8(s).len(),
        (encode_utf8(s)[byte_pos(s, k)] == 10u8) <==> s[k] == '\n',
        (encode_utf8(s)[byte_pos(s, k + 1) - 1] == 10u8) <==> s[k] == '\n',
{
    lemma_byte_pos_step(s, k);
    lemma_cut(s, k + 1);
    lemma_byte_pos_ends(s);
    let c = s[k] as u32;
    let e = encode_scalar(c);
    char_is_scalar(s[k]);
    assert(encode_utf8(s)[byte_pos(s, k)] == e[0]);
    assert(encode_utf8(s)[byte_pos(s, k + 1) - 1] == e[e.len() - 1]);
    assert(c == 10 <==> s[k] == '\n') by {
        char_u32_cast(s[k], c);
    }
    if has_width_1_encoding(c) {
        assert(leading_byte_width_1(c) as u32 == c) by (bit_vector)
            requires
                c <= 0x7f,
        ;
    } else {
        assert(last_continuation_byte(c) >= 0x80u8) by (bit_vector);
        assert(leading_byte_width_2(c) >= 0x80u8) by (bit_vector);
        assert(leading_byte_width_3(c) >= 0x80u8) by (bit_vector);
        assert(leading_byte_width_4(c) >= 0x80u8) by (bit_vector);
    }
}

// ---------------------------------------------------------------------------------------------
// Standard library functions on strings

/// `String::push` appends a character.
pub assume_specification[ String::push ](s: &mut String, ch: char)
    ensures
        final(s)@ == old(s)@.push(ch),
;

/// `String::insert` puts a character in at a byte position, which must be where a character of
/// the string starts, or its end (it panics at any other): the new character then stands before
/// that one.
pub assume_specification[ String::insert ](s: &mut String, idx: usize, ch: char)
    requires
        starts_character_or_end(old(s)@, idx as int),
    ensures
        forall|k: int|
            0 <= k <= old(s)@.len() && #[trigger] byte_pos(old(s)@, k) == idx ==> final(s)@
                == old(s)@.insert(k, ch),
;

/// `String::remove` takes the character out that starts at a byte position, and returns it. It
/// panics where no character starts.
pub assume_specification[ String::remove ](s: &mut String, idx: usize) -> (ch: char)
    requires
        starts_character_or_end(old(s)@, idx as int),
        idx < encode_utf8(old(s)@).len(),
    ensures
        forall|k: int|
            0 <= k < old(s)@.len() && #[trigger] byte_pos(old(s)@, k) == idx ==> ch == old(s)@[k]
                && final(s)@ == old(s)@.remove(k),
;

// ---------------------------------------------------------------------------------------------
// Walking over a string

/// The byte position one character before position `p` of `s`, where `p` is the start of
/// character `k`.
pub(crate) fn previous_boundary(s: &str, p: usize, Ghost(k): Ghost<int>) -> (q: usize)
    requires
        0 < k <= s@.len(),
        p == byte_pos(s@, k),
    ensures
        q == byte_pos(s@, k - 1),
{
    let n: usize = s.as_bytes().len();
    proof {
        lemma_byte_pos_ends(s@);
        lemma_byte_pos_increases(s@, 0, k);
        lemma_cut(s@, k);
        lemma_byte_pos_is_boundary(s@, k - 1);
        lemma_byte_pos_step(s@, k - 1);
        lemma_cut(s@, k - 1);
    }
    let mut q: usize = p - 1;
    while !s.is_char_boundary(q)
        invariant
            byte_pos(s@, k - 1) <= q < byte_pos(s@, k),
            0 < k <= s@.len(),
            is_char_boundary(encode_utf8(s@), byte_pos(s@, k - 1)),
            0 <= byte_pos(s@, k - 1),
        decreases q,
    {
        q = q - 1;
    }
    proof {
        lemma_cut(s@, k);
        let j = lemma_boundary_is_byte_pos(s@, q as int);
        if j < k - 1 {
            lemma_byte_pos_increases(s@, j, k - 1);
        }
        if j > k {
            lemma_byte_pos_increases(s@, k, j);
        }
    }
    q
}

/// The byte position one character after position `p` of `s`, where `p` is the start of
/// character `k`.
pub(crate) fn next_boundary(s: &str, p: usize, Ghost(k): Ghost<int>) -> (q: usize)
    requires
        0 <= k < s@.len(),
        p == byte_pos(s@, k),
    ensures
        q == byte_pos(s@, k + 1),
{
    let n: usize = s.as_bytes().len();
    proof {
        lemma_byte_pos_ends(s@);
        lemma_cut(s@, k);
        lemma_cut(s@, k + 1);
        lemma_byte_pos_step(s@, k);
        lemma_byte_pos_is_boundary(s@, k + 1);
    }
    let mut q: usize = p + 1;
    while !s.is_char_boundary(q)
        invariant
            n == encode_utf8(s@).len(),
            byte_pos(s@, k) < q <= byte_pos(s@, k + 1) <= n,
            0 <= k < s@.len(),
            is_char_boundary(encode_utf8(s@), byte_pos(s@, k + 1)),
        decreases n - q,
    {
        q = q + 1;
    }
    proof {
        let j = lemma_boundary_is_byte_pos(s@, q as int);
        if j < k {
            lemma_byte_pos_increases(s@, j, k);
        }
        if j > k + 1 {
            lemma_byte_pos_increases(s@, k + 1, j);
        }
    }
    q
}

/// The characters of `s`, one by one.
pub fn chars_of(s: &str) -> (r: Vec<char>)
    ensures
        r@ == s@,
{
    let mut out: Vec<char> = Vec::new();
    for c in it: s.chars()
        invariant
            it.seq() == s@,
            out@ == s@.take(it.index() as int),
    {
        out.push(c);
        assert(s@.take(it.index() + 1) =~= s@.take(it.index() as int).push(s@[it.index() as int]));
    }
    assert(s@.take(s@.len() as int) =~= s@);
    out
}

// ---------------------------------------------------------------------------------------------
// White space and comparison

/// The characters with the Unicode property `White_Space`.
pub open spec fn white_space(c: char) -> bool {
    ||| '\u{9}' <= c <= '\u{D}'
    ||| c == ' '
    ||| c == '\u{85}'
    ||| c == '\u{A0}'
    ||| c == '\u{1680}'
    ||| '\u{2000}' <= c <= '\u{200A}'
    ||| c == '\u{2028}'
    ||| c == '\u{2029}'
    ||| c == '\u{202F}'
    ||| c == '\u{205F}'
    ||| c == '\u{3000}'
}

/// `s` without the white space it starts with.
pub open spec fn trimmed_start(s: Seq<char>) -> Seq<char>
    decreases s.len(),
{
    if s.len() > 0 && white_space(s[0]) {
        trimmed_start(s.drop_first())
    } else {
        s
    }
}

/// `s` without the white space it ends with.
pub open spec fn trimmed_end(s: Seq<char>) -> Seq<char>
    decreases s.len(),
{
    if s.len() > 0 && white_space(s.last()) {
        trimmed_end(s.drop_last())
    } else {
        s
    }
}

/// `s` without the white space at its two ends.
pub open spec fn trimmed(s: Seq<char>) -> Seq<char> {
    trimmed_end(trimmed_start(s))
}

pub fn is_white_space(c: char) -> (r: bool)
    ensures
        r == white_space(c),
{
    ('\u{9}' <= c && c <= '\u{D}') || c == ' ' || c == '\u{85}' || c == '\u{A0}' || c == '\u{1680}'
        || ('\u{2000}' <= c && c <= '\u{200A}') || c == '\u{2028}' || c == '\u{2029}' || c
        == '\u{202F}' || c == '\u{205F}' || c == '\u{3000}'
}

/// How many white space characters `chars` starts with.
fn white_run(chars: &Vec<char>) -> (n: usize)
    ensures
        n <= chars@.len(),
        chars@.skip(n as int) == trimmed_start(chars@),
{
    let mut i: usize = 0;
    assert(chars@.skip(0) =~= chars@);
    while i < chars.len() && is_white_space(chars[i])
        invariant
            i <= chars@.len(),
            trimmed_start(chars@.skip(i as int)) == trimmed_start(chars@),
        decreases chars@.len() - i,
    {
        assert(chars@.skip(i as int).drop_first() =~= chars@.skip(i + 1));
        i = i + 1;
    }
    i
}

pub fn trim_start(s: &str) -> (r: &str)
    ensures
        r@ == trimmed_start(s@),
{
    let chars = chars_of(s);
    let from: usize = white_run(&chars);
    let r = s.substring_char(from, chars.len());
    assert(s@.subrange(from as int, s@.len() as int) =~= s@.skip(from as int));
    r
}

pub fn trim(s: &str) -> (r: &str)
    ensures
        r@ == trimmed(s@),
{
    let chars = chars_of(s);
    let from: usize = white_run(&chars);
    let mut to: usize = chars.len();
    let ghost inner = chars@.skip(from as int);
    assert(chars@.subrange(from as int, to as int) =~= inner);
    while to > from && is_white_space(chars[to - 1])
        invariant
            from <= to <= chars@.len(),
            trimmed_end(chars@.subrange(from as int, to as int)) == trimmed_end(inner),
        decreases to,
    {
        assert(chars@.subrange(from as int, to as int).drop_last() =~= chars@.subrange(
            from as int,
            to - 1,
        ));
        to = to - 1;
    }
    s.substring_char(from, to)
}

/// Whether two strings hold the same characters.
pub fn same_text(a: &str, b: &str) -> (r: bool)
    ensures
        r == (a@ == b@),
{
    let x = a.as_bytes();
    let y = b.as_bytes();
    let r = same_bytes(x, y);
    proof {
        if r {
            lemma_encode_injective(a@, b@);
        }
    }
    r
}

/// Whether two slices hold the same bytes.
pub fn same_bytes(x: &[u8], y: &[u8]) -> (r: bool)
    ensures
        r == (x@ == y@),
{
    if x.len() != y.len() {
        return false;
    }
    let mut i: usize = 0;
    while i < x.len()
        invariant
            i <= x@.len(),
            x@.len() == y@.len(),
            forall|j: int| 0 <= j < i ==> x@[j] == y@[j],
        decreases x@.len() - i,
    {
        if x[i] != y[i] {
            return false;
        }
        i = i + 1;
    }
    assert(x@ =~= y@);
    true
}

/// The characters of `a` and then those of `b`.
pub fn joined(a: &str, b: &str) -> (r: String)
    ensures
        r@ == a@ + b@,
{
    let mut r = a.to_owned();
    r.append(b);
    r
}

/// White space around a text that neither starts nor ends with any is what trimming takes away.
pub proof fn lemma_trim_padding(before: Seq<char>, inner: Seq<char>, after: Seq<char>)
    requires
        forall|i: int| 0 <= i < before.len() ==> white_space(#[trigger] before[i]),
        forall|i: int| 0 <= i < after.len() ==> white_space(#[trigger] after[i]),
        inner.len() > 0,
        !white_space(inner[0]),
        !white_space(inner.last()),
    ensures
        trimmed(before + inner + after) == inner,
    decreases before.len() + after.len(),
{
    let s = before + inner + after;
    if before.len() > 0 {
        let rest = before.drop_first();
        assert(s[0] == before[0]);
        assert(s.drop_first() =~= rest + inner + after);
        lemma_trim_padding(rest, inner, after);
    } else {
        assert(s =~= inner + after);
        assert(s[0] == inner[0]);
        assert(trimmed_start(s) == s);
        if after.len() > 0 {
            assert(s.last() == after.last());
            assert(s.drop_last() =~= before + inner + after.drop_last());
            lemma_trim_padding(before, inner, after.drop_last());
            let t = before + inner + after.drop_last();
            assert(t =~= inner + after.drop_last());
            assert(t[0] == inner[0]);
            assert(trimmed_start(t) == t);
        } else {
            assert(s =~= inner);
        }
    }
}

/// What a list of strings holds.
pub open spec fn texts(list: Seq<String>) -> Seq<Seq<char>> {
    list.map_values(|t: String| t@)
}

/// Whether `list` holds a string with the characters of `s`.
pub fn contains_text(list: &Vec<String>, s: &str) -> (r: bool)
    ensures
        r == texts(list@).contains(s@),
{
    let mut i: usize = 0;
    while i < list.len()
        invariant
            i <= list@.len(),
            forall|j: int| 0 <= j < i ==> texts(list@)[j] != s@,
        decreases list@.len() - i,
    {
        if same_text(list[i].as_str(), s) {
            assert(texts(list@)[i as int] == s@);
            return true;
        }
        i = i + 1;
    }
    false
}

/// The same strings once more.
pub fn copied(list: &Vec<String>) -> (r: Vec<String>)
    ensures
        texts(r@) == texts(list@),
{
    let mut r: Vec<String> = Vec::new();
    let mut i: usize = 0;
    while i < list.len()
        invariant
            i <= list@.len(),
            texts(r@) == texts(list@).take(i as int),
        decreases list@.len() - i,
    {
        let ghost before = texts(r@);
        r.push(list[i].clone());
        assert(texts(r@) =~= before.push(list@[i as int]@));
        assert(texts(list@).take(i + 1) =~= texts(list@).take(i as int).push(list@[i as int]@));
        i = i + 1;
    }
    assert(texts(list@).take(list@.len() as int) =~= texts(list@));
    r
}

/// Puts a string at the end of a list.
pub fn push_text(list: &mut Vec<String>, s: &str)
    ensures
        texts(final(list)@) == texts(old(list)@).push(s@),
{
    let ghost before = texts(list@);
    list.push(s.to_owned());
    assert(texts(list@) =~= before.push(s@));
}

/// The same bytes once more.
pub fn copied_bytes(bytes: &Vec<u8>) -> (r: Vec<u8>)
    ensures
        r@ == bytes@,
{
    let r = bytes.clone();
    assert(r@ =~= bytes@);
    r
}

/// The lines of a text, without the line feeds that end them.
pub open spec fn lines(s: Seq<char>) -> Seq<Seq<char>>
    decreases s.len(),
{
    if s.len() == 0 {
        seq![Seq::empty()]
    } else {
        let init = lines(s.drop_last());
        if s.last() == '\n' {
            init.push(Seq::empty())
        } else {
            init.drop_last().push(init.last().push(s.last()))
        }
    }
}

pub proof fn lemma_lines_some(s: Seq<char>)
    ensures
        lines(s).len() > 0,
    decreases s.len(),
{
    if s.len() > 0 {
        lemma_lines_some(s.drop_last());
    }
}

pub proof fn lemma_lines_append(s: Seq<char>, t: Seq<char>)
    requires
        forall|i: int| 0 <= i < t.len() ==> #[trigger] t[i] != '\n',
    ensures
        lines(s + t) == lines(s).drop_last().push(lines(s).last() + t),
    decreases t.len(),
{
    lemma_lines_some(s);
    if t.len() == 0 {
        assert(s + t =~= s);
        assert(lines(s).last() + t =~= lines(s).last());
        assert(lines(s).drop_last().push(lines(s).last()) =~= lines(s));
    } else {
        let u = t.drop_last();
        assert forall|i: int| 0 <= i < u.len() implies #[trigger] u[i] != '\n' by {
            assert(t[i] != '\n');
        }
        lemma_lines_append(s, u);
        assert((s + t).drop_last() =~= s + u);
        assert((s + t).last() == t.last());
        let list = lines(s).drop_last().push(lines(s).last() + u);
        assert(list.drop_last() =~= lines(s).drop_last());
        assert((lines(s).last() + u).push(t.last()) =~= lines(s).last() + t);
    }
}

/// Cuts a text at its line feeds.
pub fn split_lines(s: &str) -> (r: Vec<String>)
    ensures
        texts(r@) == lines(s@),
{
    let chars = chars_of(s);
    let mut r: Vec<String> = Vec::new();
    let mut line = String::new();
    let mut i: usize = 0;
    proof {
        assert(chars@.take(0) =~= Seq::empty());
        assert(texts(r@).push(line@) =~= lines(chars@.take(0)));
    }
    while i < chars.len()
        invariant
            chars@ == s@,
            i <= chars@.len(),
            lines(chars@.take(i as int)) == texts(r@).push(line@),
        decreases chars@.len() - i,
    {
        let c = chars[i];
        let ghost done = texts(r@);
        assert(chars@.take(i + 1).drop_last() =~= chars@.take(i as int));
        assert(chars@.take(i + 1).last() == c);
        assert(done.push(line@).drop_last() =~= done);
        if c == '\n' {
            push_text(&mut r, line.as_str());
            line = String::new();
        } else {
            line.push(c);
        }
        assert(lines(chars@.take(i + 1)) =~= texts(r@).push(line@));
        i = i + 1;
    }
    assert(chars@.take(i as int) =~= s@);
    push_text(&mut r, line.as_str());
    r
}

/// A line that a line feed ends, without the carriage return before it.
pub open spec fn ended_line(line: Seq<char>) -> Seq<char> {
    if line.len() > 0 && line.last() == '\r' {
        line.drop_last()
    } else {
        line
    }
}

/// The lines of a text as they are shown: what follows the last line feed counts only if it is
/// not empty.
pub open spec fn shown_lines(s: Seq<char>) -> Seq<Seq<char>> {
    let parts = lines(s);
    let ended = parts.drop_last().map_values(|l: Seq<char>| ended_line(l));
    if parts.last().len() == 0 {
        ended
    } else {
        ended.push(parts.last())
    }
}

/// Lists the lines of a text as they are shown.
pub fn list_lines(s: &str) -> (r: Vec<String>)
    ensures
        texts(r@) == shown_lines(s@),
{
    let parts = split_lines(s);
    let ghost all = lines(s@);
    proof {
        lemma_lines_some(s@);
        assert(all.len() == parts@.len());
    }
    let last: usize = parts.len() - 1;
    let ghost ended = all.drop_last().map_values(|l: Seq<char>| ended_line(l));
    let mut r: Vec<String> = Vec::new();
    let mut i: usize = 0;
    assert(texts(r@) =~= ended.take(0));
    while i < last
        invariant
            all == texts(parts@),
            last == parts@.len() - 1,
            ended == all.drop_last().map_values(|l: Seq<char>| ended_line(l)),
            i <= last,
            texts(r@) == ended.take(i as int),
        decreases last - i,
    {
        let part = parts[i].as_str();
        assert(part@ == all[i as int]);
        let chars = chars_of(part);
        let n: usize = chars.len();
        let line = if n > 0 && chars[n - 1] == '\r' {
            part.substring_char(0, n - 1)
        } else {
            part
        };
        assert(line@ =~= ended_line(part@));
        push_text(&mut r, line);
        assert(ended.take(i + 1) =~= ended.take(i as int).push(ended[i as int]));
        i = i + 1;
    }
    assert(ended.take(i as int) =~= ended);
    let rest = parts[last].as_str();
    assert(rest@ == all.last());
    if !rest.is_empty() {
        push_text(&mut r, rest);
    }
    r
}

/// A text cut at its white space.
pub open spec fn spaced(s: Seq<char>) -> Seq<Seq<char>>
    decreases s.len(),
{
    if s.len() == 0 {
        seq![Seq::empty()]
    } else {
        let init = spaced(s.drop_last());
        if white_space(s.last()) {
            init.push(Seq::empty())
        } else {
            init.drop_last().push(init.last().push(s.last()))
        }
    }
}

/// The texts of a list that are not empty.
pub open spec fn nonempty(list: Seq<Seq<char>>) -> Seq<Seq<char>>
    decreases list.len(),
{
    if list.len() == 0 {
        Seq::empty()
    } else if list.last().len() == 0 {
        nonempty(list.drop_last())
    } else {
        nonempty(list.drop_last()).push(list.last())
    }
}

/// The words of a text: what stands between its white space.
pub open spec fn words(s: Seq<char>) -> Seq<Seq<char>> {
    nonempty(spaced(s))
}

fn push_word(list: &mut Vec<String>, word: &str)
    ensures
        texts(final(list)@) == (if word@.len() == 0 {
            texts(old(list)@)
        } else {
            texts(old(list)@).push(word@)
        }),
{
    if !word.is_empty() {
        push_text(list, word);
    }
}

/// Lists the words of a text.
pub fn list_words(s: &str) -> (r: Vec<String>)
    ensures
        texts(r@) == words(s@),
{
    let chars = chars_of(s);
    let mut r: Vec<String> = Vec::new();
    let mut word = String::new();
    let mut i: usize = 0;
    let ghost mut done: Seq<Seq<char>> = Seq::empty();
    proof {
        assert(texts(r@) =~= nonempty(done));
        assert(chars@.take(0) =~= Seq::empty());
        assert(done.push(word@) =~= spaced(chars@.take(0)));
    }
    while i < chars.len()
        invariant
            chars@ == s@,
            i <= chars@.len(),
            texts(r@) == nonempty(done),
            spaced(chars@.take(i as int)) == done.push(word@),
        decreases chars@.len() - i,
    {
        let c = chars[i];
        assert(chars@.take(i + 1).drop_last() =~= chars@.take(i as int));
        assert(chars@.take(i + 1).last() == c);
        assert(done.push(word@).drop_last() =~= done);
        if is_white_space(c) {
            push_word(&mut r, word.as_str());
            proof {
                done = done.push(word@);
            }
            word = String::new();
        } else {
            word.push(c);
        }
        assert(spaced(chars@.take(i + 1)) =~= done.push(word@));
        i = i + 1;
    }
    assert(chars@.take(i as int) =~= s@);
    push_word(&mut r, word.as_str());
    assert(done.push(word@).drop_last() =~= done);
    r
}

/// Whether a text begins with another.
pub open spec fn begins_with(s: Seq<char>, prefix: Seq<char>) -> bool {
    prefix.len() <= s.len() && s.take(prefix.len() as int) == prefix
}

/// What follows a prefix; nothing where the text does not begin with it.
pub fn after_prefix<'a>(s: &'a str, prefix: &str) -> (r: Option<&'a str>)
    ensures
        match r {
            Some(rest) => begins_with(s@, prefix@) && rest@ == s@.skip(prefix@.len() as int),
            None => !begins_with(s@, prefix@),
        },
{
    let n: usize = chars_of(prefix).len();
    let total: usize = chars_of(s).len();
    if n > total {
        return None;
    }
    let head = s.substring_char(0, n);
    assert(head@ =~= s@.take(n as int));
    if !same_text(head, prefix) {
        return None;
    }
    let rest = s.substring_char(n, total);
    assert(rest@ =~= s@.skip(n as int));
    Some(rest)
}

// ---------------------------------------------------------------------------------------------
// Laws

pub proof fn lemma_trimmed_start(s: Seq<char>) -> (n: int)
    ensures
        0 <= n <= s.len(),
        trimmed_start(s) == s.skip(n),
        forall|i: int| 0 <= i < n ==> white_space(#[trigger] s[i]),
        n < s.len() ==> !white_space(s[n]),
    decreases s.len(),
{
    if s.len() > 0 && white_space(s[0]) {
        let rest = s.drop_first();
        let n = lemma_trimmed_start(rest);
        assert(rest.skip(n) =~= s.skip(n + 1));
        assert forall|i: int| 0 <= i < n + 1 implies white_space(#[trigger] s[i]) by {
            if i > 0 {
                assert(rest[i - 1] == s[i]);
            }
        }
        n + 1
    } else {
        assert(s.skip(0) =~= s);
        0
    }
}

proof fn lemma_trimmed_end(s: Seq<char>) -> (n: int)
    ensures
        0 <= n <= s.len(),
        trimmed_end(s) == s.take(n),
        forall|i: int| n <= i < s.len() ==> white_space(#[trigger] s[i]),
        n > 0 ==> !white_space(s[n - 1]),
    decreases s.len(),
{
    if s.len() > 0 && white_space(s.last()) {
        let rest = s.drop_last();
        let n = lemma_trimmed_end(rest);
        assert(rest.take(n) =~= s.take(n));
        assert forall|i: int| n <= i < s.len() implies white_space(#[trigger] s[i]) by {
            if i < rest.len() {
                assert(rest[i] == s[i]);
            }
        }
        n
    } else {
        assert(s.take(s.len() as int) =~= s);
        s.len() as int
    }
}

/// What trimming leaves is a stretch of the text with nothing but white space around it, and with
/// none at its own ends.
pub proof fn trimming_takes_only_the_ends(s: Seq<char>) -> (ends: (int, int))
    ensures
        0 <= ends.0 <= ends.1 <= s.len(),
        trimmed(s) == s.subrange(ends.0, ends.1),
        forall|i: int| 0 <= i < ends.0 ==> white_space(#[trigger] s[i]),
        forall|i: int| ends.1 <= i < s.len() ==> white_space(#[trigger] s[i]),
        ends.0 < ends.1 ==> !white_space(s[ends.0]) && !white_space(s[ends.1 - 1]),
{
    let a = lemma_trimmed_start(s);
    let rest = s.skip(a);
    let n = lemma_trimmed_end(rest);
    assert(rest.take(n) =~= s.subrange(a, a + n));
    assert forall|i: int| a + n <= i < s.len() implies white_space(#[trigger] s[i]) by {
        assert(rest[i - a] == s[i]);
    }
    if n > 0 {
        assert(rest[n - 1] == s[a + n - 1]);
    }
    (a, a + n)
}

/// Without the white space at its beginning, a text begins with the first of its characters that
/// is none.
pub proof fn trimming_the_start_finds_the_first(s: Seq<char>, k: int)
    requires
        0 <= k < s.len(),
        forall|i: int| 0 <= i < k ==> white_space(#[trigger] s[i]),
        !white_space(s[k]),
    ensures
        trimmed_start(s) == s.skip(k),
{
    let n = lemma_trimmed_start(s);
    if n < k {
        assert(white_space(s[n]));
    }
}

/// A text of white space alone leaves nothing when it is trimmed.
pub proof fn white_space_trims_to_nothing(s: Seq<char>)
    requires
        forall|i: int| 0 <= i < s.len() ==> white_space(#[trigger] s[i]),
    ensures
        trimmed_start(s).len() == 0,
        trimmed(s).len() == 0,
{
    let n = lemma_trimmed_start(s);
}

/// White space is the tab, the line feed, the vertical tab, the form feed, the carriage return,
/// the space, the next line, and the spaces and separators beyond Latin.
pub proof fn white_space_is_unicode_white_space(c: char)
    ensures
        white_space(c) <==> seq![
            '\t',
            '\n',
            '\u{B}',
            '\u{C}',
            '\r',
            ' ',
            '\u{85}',
            '\u{A0}',
            '\u{1680}',
            '\u{2000}',
            '\u{2001}',
            '\u{2002}',
            '\u{2003}',
            '\u{2004}',
            '\u{2005}',
            '\u{2006}',
            '\u{2007}',
            '\u{2008}',
            '\u{2009}',
            '\u{200A}',
            '\u{2028}',
            '\u{2029}',
            '\u{202F}',
            '\u{205F}',
            '\u{3000}',
        ].contains(c),
{
    let list = seq![
        '\t',
        '\n',
        '\u{B}',
        '\u{C}',
        '\r',
        ' ',
        '\u{85}',
        '\u{A0}',
        '\u{1680}',
        '\u{2000}',
        '\u{2001}',
        '\u{2002}',
        '\u{2003}',
        '\u{2004}',
        '\u{2005}',
        '\u{2006}',
        '\u{2007}',
        '\u{2008}',
        '\u{2009}',
        '\u{200A}',
        '\u{2028}',
        '\u{2029}',
        '\u{202F}',
        '\u{205F}',
        '\u{3000}',
    ];
    if white_space(c) {
        let n = c as u32;
        if 9 <= n <= 13 {
            assert(list[n - 9] == c);
        } else if c == ' ' {
            assert(list[5] == c);
        } else if c == '\u{85}' {
            assert(list[6] == c);
        } else if c == '\u{A0}' {
            assert(list[7] == c);
        } else if c == '\u{1680}' {
            assert(list[8] == c);
        } else if 0x2000 <= n <= 0x200A {
            assert(list[n - 0x2000 + 9] == c);
        } else if c == '\u{2028}' {
            assert(list[20] == c);
        } else if c == '\u{2029}' {
            assert(list[21] == c);
        } else if c == '\u{202F}' {
            assert(list[22] == c);
        } else if c == '\u{205F}' {
            assert(list[23] == c);
        } else {
            assert(list[24] == c);
        }
    }
}

proof fn lemma_lines_feed(s: Seq<char>, t: Seq<char>)
    ensures
        lines(s.push('\n') + t) == lines(s) + lines(t),
    decreases t.len(),
{
    let whole = s.push('\n') + t;
    if t.len() == 0 {
        assert(whole =~= s.push('\n'));
        assert(whole.drop_last() =~= s);
        assert(t =~= Seq::empty());
        assert(lines(whole) =~= lines(s) + lines(t));
    } else {
        lemma_lines_feed(s, t.drop_last());
        lemma_lines_some(t.drop_last());
        assert(whole.drop_last() =~= s.push('\n') + t.drop_last());
        assert(whole.last() == t.last());
        assert(lines(whole) =~= lines(s) + lines(t));
    }
}

/// The lines of two texts with a line feed between them are those of the one and then those of the
/// other; a text without a line feed is one line.
pub proof fn line_feeds_part_lines(s: Seq<char>, t: Seq<char>)
    ensures
        lines(s.push('\n') + t) == lines(s) + lines(t),
        !s.contains('\n') ==> lines(s) == seq![s],
{
    lemma_lines_feed(s, t);
    if !s.contains('\n') {
        let none = Seq::<char>::empty();
        assert forall|i: int| 0 <= i < s.len() implies #[trigger] s[i] != '\n' by {
            assert(s.contains(s[i]));
        }
        lemma_lines_append(none, s);
        assert(none + s =~= s);
        assert(lines(s) =~= seq![s]);
    }
}

/// A line that a line feed ends is shown without that and without one carriage return before it;
/// what follows the last line feed is shown as it stands, unless it is empty.
pub proof fn lines_are_shown_as_they_stand(line: Seq<char>, rest: Seq<char>)
    requires
        !line.contains('\n'),
    ensures
        shown_lines(line) == (if line.len() == 0 {
            Seq::empty()
        } else {
            seq![line]
        }),
        line.len() == 0 || line.last() != '\r' ==> shown_lines(line.push('\n') + rest) == seq![line]
            + shown_lines(rest),
        shown_lines(line + seq!['\r', '\n'] + rest) == seq![line] + shown_lines(rest),
{
    line_feeds_part_lines(line, rest);
    let returned = line.push('\r');
    assert(!returned.contains('\n')) by {
        if returned.contains('\n') {
            let i = choose|i: int| 0 <= i < returned.len() && returned[i] == '\n';
            assert(line[i] == '\n');
            assert(line.contains('\n'));
        }
    }
    line_feeds_part_lines(returned, rest);
    assert(line + seq!['\r', '\n'] + rest =~= returned.push('\n') + rest);
    assert(shown_lines(line) =~= if line.len() == 0 {
        Seq::empty()
    } else {
        seq![line]
    });
    lemma_lines_some(rest);
    let tail = lines(rest);
    let ended = |l: Seq<char>| ended_line(l);
    assert((seq![line] + tail).drop_last() =~= seq![line] + tail.drop_last());
    assert((seq![returned] + tail).drop_last() =~= seq![returned] + tail.drop_last());
    assert(ended_line(returned) =~= line);
    if line.len() == 0 || line.last() != '\r' {
        assert(ended_line(line) == line);
        assert(shown_lines(line.push('\n') + rest) =~= seq![line] + shown_lines(rest));
    }
    assert(shown_lines(line + seq!['\r', '\n'] + rest) =~= seq![line] + shown_lines(rest));
}

proof fn lemma_nonempty_append(a: Seq<Seq<char>>, b: Seq<Seq<char>>)
    ensures
        nonempty(a + b) == nonempty(a) + nonempty(b),
    decreases b.len(),
{
    if b.len() == 0 {
        assert(a + b =~= a);
        assert(nonempty(a) + nonempty(b) =~= nonempty(a));
    } else {
        lemma_nonempty_append(a, b.drop_last());
        assert((a + b).drop_last() =~= a + b.drop_last());
        assert(nonempty(a + b) =~= nonempty(a) + nonempty(b));
    }
}

proof fn lemma_spaced_some(s: Seq<char>)
    ensures
        spaced(s).len() > 0,
    decreases s.len(),
{
    if s.len() > 0 {
        lemma_spaced_some(s.drop_last());
    }
}

proof fn lemma_spaced_append(s: Seq<char>, c: char, t: Seq<char>)
    requires
        white_space(c),
    ensures
        spaced(s.push(c) + t) == spaced(s) + spaced(t),
    decreases t.len(),
{
    let whole = s.push(c) + t;
    if t.len() == 0 {
        assert(whole =~= s.push(c));
        assert(whole.drop_last() =~= s);
        assert(t =~= Seq::empty());
        assert(spaced(whole) =~= spaced(s) + spaced(t));
    } else {
        lemma_spaced_append(s, c, t.drop_last());
        lemma_spaced_some(t.drop_last());
        assert(whole.drop_last() =~= s.push(c) + t.drop_last());
        assert(whole.last() == t.last());
        assert(spaced(whole) =~= spaced(s) + spaced(t));
    }
}

proof fn lemma_spaced_one(s: Seq<char>)
    requires
        forall|i: int| 0 <= i < s.len() ==> !white_space(#[trigger] s[i]),
    ensures
        spaced(s) == seq![s],
    decreases s.len(),
{
    if s.len() > 0 {
        let r = s.drop_last();
        assert forall|i: int| 0 <= i < r.len() implies !white_space(#[trigger] r[i]) by {
            assert(r[i] == s[i]);
        }
        lemma_spaced_one(r);
        assert(s =~= r.push(s.last()));
        assert(spaced(s) =~= seq![s]);
    } else {
        assert(s =~= Seq::empty());
    }
}

/// White space parts words: the words of two texts with white space between them are those of the
/// one and then those of the other; and a text without white space is one word, unless it is
/// empty.
pub proof fn white_space_parts_words(s: Seq<char>, c: char, t: Seq<char>)
    requires
        white_space(c),
    ensures
        words(s.push(c) + t) == words(s) + words(t),
        (forall|i: int| 0 <= i < s.len() ==> !white_space(#[trigger] s[i])) ==> words(s) == (
        if s.len() == 0 {
            Seq::empty()
        } else {
            seq![s]
        }),
{
    lemma_spaced_append(s, c, t);
    lemma_nonempty_append(spaced(s), spaced(t));
    if forall|i: int| 0 <= i < s.len() ==> !white_space(#[trigger] s[i]) {
        lemma_spaced_one(s);
        let none = seq![s].drop_last();
        assert(none.len() == 0);
        assert(nonempty(none) =~= Seq::empty());
        if s.len() > 0 {
            assert(nonempty(seq![s]) =~= seq![s]);
        }
    }
}

/// A text begins with another exactly if something can be put behind that other to make it.
pub proof fn beginnings_can_be_completed(s: Seq<char>, prefix: Seq<char>, rest: Seq<char>)
    ensures
        begins_with(prefix + rest, prefix),
        begins_with(s, prefix) ==> s == prefix + s.skip(prefix.len() as int),
{
    assert((prefix + rest).take(prefix.len() as int) =~= prefix);
    if begins_with(s, prefix) {
        assert(s =~= s.take(prefix.len() as int) + s.skip(prefix.len() as int));
    }
}

} // verus!
