//! Paths as text: parts separated by slashes. Where a platform has other separators, its paths are
//! brought into this form first.

use vstd::prelude::*;
use vstd::string::*;

use crate::numbers;
use crate::text;

verus! {

/// The platforms whose paths and places differ.
#[derive(Debug, Clone, Copy, PartialEq, Eq, Structural)]
pub enum Platform {
    Unix,
    MacOs,
    Windows,
    Other,
}

// ---------------------------------------------------------------------------------------------
// Parts

/// The parts of `s` between its slashes; there is one more than there are slashes.
pub open spec fn parts(s: Seq<char>) -> Seq<Seq<char>>
    decreases s.len(),
{
    if s.len() == 0 {
        seq![Seq::empty()]
    } else {
        let init = parts(s.drop_last());
        if s.last() == '/' {
            init.push(Seq::empty())
        } else {
            init.drop_last().push(init.last().push(s.last()))
        }
    }
}

/// The given parts with slashes between them.
pub open spec fn slashed(names: Seq<Seq<char>>) -> Seq<char>
    decreases names.len(),
{
    if names.len() == 0 {
        Seq::empty()
    } else if names.len() == 1 {
        names[0]
    } else {
        slashed(names.drop_last()) + seq!['/'] + names.last()
    }
}

pub open spec fn has_slash(s: Seq<char>) -> bool {
    exists|i: int| 0 <= i < s.len() && #[trigger] s[i] == '/'
}

proof fn lemma_parts_some(s: Seq<char>)
    ensures
        parts(s).len() > 0,
    decreases s.len(),
{
    if s.len() > 0 {
        lemma_parts_some(s.drop_last());
    }
}

proof fn lemma_parts_plain(s: Seq<char>, i: int)
    requires
        0 <= i < parts(s).len(),
    ensures
        !has_slash(parts(s)[i]),
    decreases s.len(),
{
    if s.len() > 0 {
        let init = parts(s.drop_last());
        lemma_parts_some(s.drop_last());
        if i < init.len() - 1 || s.last() == '/' {
            if i < init.len() {
                lemma_parts_plain(s.drop_last(), i);
            }
        } else {
            lemma_parts_plain(s.drop_last(), i);
            let p = init.last();
            assert(parts(s)[i] == p.push(s.last()));
            assert forall|j: int| 0 <= j < p.push(s.last()).len() implies #[trigger] p.push(
                s.last(),
            )[j] != '/' by {
                if j < p.len() {
                    assert(p[j] != '/');
                }
            }
        }
    }
}

/// The text of a path is its parts with slashes between them.
pub proof fn lemma_slashed_parts(s: Seq<char>)
    ensures
        slashed(parts(s)) == s,
    decreases s.len(),
{
    if s.len() > 0 {
        let init = parts(s.drop_last());
        lemma_parts_some(s.drop_last());
        lemma_slashed_parts(s.drop_last());
        if s.last() == '/' {
            assert(parts(s).drop_last() =~= init);
            assert(slashed(parts(s)) =~= s);
        } else {
            assert(parts(s).drop_last() =~= init.drop_last());
            assert(slashed(parts(s)) =~= slashed(init).push(s.last()));
            assert(s =~= s.drop_last().push(s.last()));
        }
    }
}

proof fn lemma_parts_without_slash(s: Seq<char>)
    requires
        !has_slash(s),
    ensures
        parts(s) == seq![s],
    decreases s.len(),
{
    if s.len() == 0 {
        assert(s =~= Seq::empty());
    } else {
        let r = s.drop_last();
        assert forall|i: int| 0 <= i < r.len() implies #[trigger] r[i] != '/' by {
            assert(s[i] != '/');
        }
        lemma_parts_without_slash(r);
        assert(s.last() != '/');
        assert(parts(r).drop_last() =~= Seq::empty());
        assert(s =~= r.push(s.last()));
        assert(parts(s) =~= seq![s]);
    }
}

proof fn lemma_parts_append(a: Seq<char>, b: Seq<char>)
    requires
        !has_slash(b),
    ensures
        parts(a + seq!['/'] + b) == parts(a).push(b),
    decreases b.len(),
{
    let s = a + seq!['/'] + b;
    if b.len() == 0 {
        assert(s.drop_last() =~= a);
        assert(b =~= Seq::empty());
        assert(s.last() == '/');
    } else {
        let c = b.drop_last();
        assert forall|i: int| 0 <= i < c.len() implies #[trigger] c[i] != '/' by {
            assert(b[i] != '/');
        }
        lemma_parts_append(a, c);
        assert(s.drop_last() =~= a + seq!['/'] + c);
        assert(s.last() == b.last());
        assert(b.last() != '/');
        assert(b =~= c.push(b.last()));
        assert(parts(s.drop_last()).drop_last() =~= parts(a));
        assert(parts(s) =~= parts(a).push(b));
    }
}

/// Parts without slashes come back from the text that they make.
pub proof fn lemma_parts_slashed(names: Seq<Seq<char>>)
    requires
        names.len() > 0,
        forall|i: int| 0 <= i < names.len() ==> !has_slash(#[trigger] names[i]),
    ensures
        parts(slashed(names)) == names,
    decreases names.len(),
{
    if names.len() == 1 {
        lemma_parts_without_slash(names[0]);
        assert(names =~= seq![names[0]]);
    } else {
        let init = names.drop_last();
        assert forall|i: int| 0 <= i < init.len() implies !has_slash(#[trigger] init[i]) by {
            assert(!has_slash(names[i]));
        }
        lemma_parts_slashed(init);
        assert(!has_slash(names[names.len() - 1]));
        lemma_parts_append(slashed(init), names.last());
        assert(names =~= init.push(names.last()));
    }
}

/// Cuts a path at its slashes.
pub fn split_parts(s: &str) -> (r: Vec<String>)
    ensures
        text::texts(r@) == parts(s@),
{
    let chars = text::chars_of(s);
    let mut done: Vec<String> = Vec::new();
    let mut current = String::new();
    let mut i: usize = 0;
    proof {
        assert(chars@.take(0) =~= Seq::empty());
        assert(text::texts(done@).push(current@) =~= parts(chars@.take(0)));
    }
    while i < chars.len()
        invariant
            chars@ == s@,
            i <= chars@.len(),
            text::texts(done@).push(current@) == parts(chars@.take(i as int)),
        decreases chars@.len() - i,
    {
        let ghost before = text::texts(done@);
        let ghost piece = current@;
        proof {
            assert(chars@.take(i + 1).drop_last() =~= chars@.take(i as int));
            assert(before.push(piece).drop_last() =~= before);
        }
        if chars[i] == '/' {
            done.push(current);
            assert(text::texts(done@) =~= before.push(piece));
            current = String::new();
        } else {
            current.push(chars[i]);
        }
        i = i + 1;
    }
    assert(chars@.take(i as int) =~= s@);
    let ghost before = text::texts(done@);
    let ghost piece = current@;
    done.push(current);
    assert(text::texts(done@) =~= before.push(piece));
    done
}

// ---------------------------------------------------------------------------------------------
// Relative paths

pub open spec fn dot() -> Seq<char> {
    seq!['.']
}

pub open spec fn dot_dot() -> Seq<char> {
    seq!['.', '.']
}

/// The parts that name something: neither empty nor `.`.
pub open spec fn named(list: Seq<Seq<char>>) -> Seq<Seq<char>>
    decreases list.len(),
{
    if list.len() == 0 {
        Seq::empty()
    } else {
        let init = named(list.drop_last());
        if list.last().len() == 0 || list.last() == dot() {
            init
        } else {
            init.push(list.last())
        }
    }
}

/// The plain form of a relative path: its names with one slash between two of them. There is none
/// for an empty or absolute path, for one that climbs with `..`, and for one that names nothing.
pub open spec fn normalized(path: Seq<char>) -> Option<Seq<char>> {
    if path.len() == 0 || path[0] == '/' || parts(path).contains(dot_dot()) || named(
        parts(path),
    ).len() == 0 {
        None
    } else {
        Some(slashed(named(parts(path))))
    }
}

/// Brings a relative path into its plain form.
pub fn normalize(path: &str) -> (r: Option<String>)
    ensures
        match r {
            Some(plain) => normalized(path@) == Some(plain@),
            None => normalized(path@) is None,
        },
{
    let chars = text::chars_of(path);
    if chars.len() == 0 || chars[0] == '/' {
        return None;
    }
    let list = split_parts(path);
    let ghost all = parts(path@);
    let mut plain = String::new();
    let mut some: bool = false;
    let mut i: usize = 0;
    proof {
        reveal_strlit(".");
        reveal_strlit("..");
        reveal_strlit("/");
        assert("."@ =~= dot());
        assert(".."@ =~= dot_dot());
        assert("/"@ =~= seq!['/']);
    }
    while i < list.len()
        invariant
            text::texts(list@) == all,
            i <= list@.len(),
            all == parts(path@),
            path@.len() > 0,
            path@[0] != '/',
            forall|j: int| 0 <= j < i ==> all[j] != dot_dot(),
            plain@ == slashed(named(all.take(i as int))),
            some == (named(all.take(i as int)).len() > 0),
            "."@ == dot(),
            ".."@ == dot_dot(),
            "/"@ == seq!['/'],
        decreases list@.len() - i,
    {
        let part = list[i].as_str();
        assert(part@ == all[i as int]);
        if text::same_text(part, "..") {
            assert(all.contains(dot_dot()));
            return None;
        }
        let ghost kept = named(all.take(i as int));
        assert(all.take(i + 1).drop_last() =~= all.take(i as int));
        if !part.is_empty() && !text::same_text(part, ".") {
            assert(kept.push(part@).drop_last() =~= kept);
            if some {
                plain.append("/");
                plain.append(part);
            } else {
                plain.append(part);
                assert(kept.push(part@)[0] == part@);
                assert(Seq::<char>::empty() + part@ =~= part@);
            }
            some = true;
        }
        i = i + 1;
    }
    assert(all.take(i as int) =~= all);
    if some {
        Some(plain)
    } else {
        None
    }
}

/// A text with slashes for backslashes.
pub open spec fn with_slashes(path: Seq<char>) -> Seq<char> {
    path.map_values(
        |c: char|
            if c == '\\' {
                '/'
            } else {
                c
            },
    )
}

/// That a part begins with the letter of a drive.
pub open spec fn names_drive(part: Seq<char>) -> bool {
    part.len() >= 2 && part[1] == ':' && ('a' <= part[0] <= 'z' || 'A' <= part[0] <= 'Z')
}

/// That one of the parts begins with the letter of a drive.
pub open spec fn some_drive(list: Seq<Seq<char>>) -> bool {
    exists|i: int| 0 <= i < list.len() && names_drive(#[trigger] list[i])
}

/// The form of a platform's relative path in which slashes part it. Windows takes backslashes for
/// separators, too, and a path with a drive is none of a directory's there: it becomes empty, which
/// is no path either.
pub open spec fn portable(platform: Platform, path: Seq<char>) -> Seq<char> {
    if platform == Platform::Windows {
        if some_drive(parts(with_slashes(path))) {
            Seq::empty()
        } else {
            with_slashes(path)
        }
    } else {
        path
    }
}

fn write_slashes(path: &str) -> (r: String)
    ensures
        r@ == with_slashes(path@),
{
    let chars = text::chars_of(path);
    let mut r = String::new();
    let mut i: usize = 0;
    assert(r@ =~= with_slashes(path@).take(0));
    while i < chars.len()
        invariant
            chars@ == path@,
            i <= chars@.len(),
            r@ == with_slashes(path@).take(i as int),
        decreases chars@.len() - i,
    {
        let c: char = if chars[i] == '\\' {
            '/'
        } else {
            chars[i]
        };
        let ghost before = r@;
        r.push(c);
        assert(before.push(c) =~= with_slashes(path@).take(i + 1));
        i = i + 1;
    }
    assert(with_slashes(path@).take(i as int) =~= with_slashes(path@));
    r
}

fn has_drive(list: &Vec<String>) -> (r: bool)
    ensures
        r == some_drive(text::texts(list@)),
{
    let mut i: usize = 0;
    while i < list.len()
        invariant
            i <= list@.len(),
            forall|j: int| 0 <= j < i ==> !names_drive(#[trigger] text::texts(list@)[j]),
        decreases list@.len() - i,
    {
        let part = text::chars_of(list[i].as_str());
        assert(part@ == text::texts(list@)[i as int]);
        if part.len() >= 2 && part[1] == ':' && (('a' <= part[0] && part[0] <= 'z') || ('A'
            <= part[0] && part[0] <= 'Z')) {
            assert(names_drive(text::texts(list@)[i as int]));
            return true;
        }
        i = i + 1;
    }
    assert(text::texts(list@).len() == list@.len());
    false
}

/// Brings a platform's relative path into the form in which slashes part it.
pub fn to_portable(platform: Platform, path: &str) -> (r: String)
    ensures
        r@ == portable(platform, path@),
{
    match platform {
        Platform::Windows => {
            let slashes = write_slashes(path);
            if has_drive(&split_parts(slashes.as_str())) {
                String::new()
            } else {
                slashes
            }
        },
        _ => path.to_owned(),
    }
}

proof fn lemma_named_members(list: Seq<Seq<char>>, i: int)
    requires
        0 <= i < named(list).len(),
    ensures
        list.contains(named(list)[i]),
        named(list)[i].len() > 0,
        named(list)[i] != dot(),
    decreases list.len(),
{
    let init = list.drop_last();
    if i < named(init).len() {
        lemma_named_members(init, i);
        let j = choose|j: int| 0 <= j < init.len() && init[j] == named(init)[i];
        assert(list[j] == named(list)[i]);
    } else {
        assert(list[list.len() - 1] == named(list)[i]);
    }
}

proof fn lemma_named_all(list: Seq<Seq<char>>)
    requires
        forall|i: int| 0 <= i < list.len() ==> (#[trigger] list[i]).len() > 0 && list[i] != dot(),
    ensures
        named(list) == list,
    decreases list.len(),
{
    if list.len() > 0 {
        lemma_named_all(list.drop_last());
        assert(list =~= list.drop_last().push(list.last()));
        assert(list[list.len() - 1].len() > 0);
    }
}

/// A plain path stays below the directory that it is taken from: it is relative, and each of its
/// parts names an entry (none is empty, `.` or `..`).
pub proof fn plain_paths_stay_below(path: Seq<char>)
    requires
        normalized(path) is Some,
    ensures
        normalized(path)->0.len() > 0,
        normalized(path)->0[0] != '/',
        forall|i: int|
            0 <= i < parts(normalized(path)->0).len() ==> (#[trigger] parts(
                normalized(path)->0,
            )[i]).len() > 0 && parts(normalized(path)->0)[i] != dot() && parts(
                normalized(path)->0,
            )[i] != dot_dot(),
{
    let names = named(parts(path));
    assert forall|i: int| 0 <= i < names.len() implies !has_slash(#[trigger] names[i])
        && names[i].len() > 0 && names[i] != dot() && names[i] != dot_dot() by {
        lemma_named_members(parts(path), i);
        let j = choose|j: int| 0 <= j < parts(path).len() && parts(path)[j] == names[i];
        lemma_parts_plain(path, j);
        assert(parts(path).contains(names[i]));
    }
    lemma_parts_slashed(names);
    let plain = normalized(path)->0;
    lemma_slashed_first(names);
}

proof fn lemma_slashed_first(names: Seq<Seq<char>>)
    requires
        names.len() > 0,
        names[0].len() > 0,
        !has_slash(names[0]),
    ensures
        slashed(names).len() > 0,
        slashed(names)[0] == names[0][0],
        slashed(names)[0] != '/',
    decreases names.len(),
{
    assert(names[0][0] != '/');
    if names.len() > 1 {
        lemma_slashed_first(names.drop_last());
    }
}

/// Normalising is idempotent.
pub proof fn plain_paths_are_plain(path: Seq<char>)
    requires
        normalized(path) is Some,
    ensures
        normalized(normalized(path)->0) == normalized(path),
{
    let plain = normalized(path)->0;
    plain_paths_stay_below(path);
    lemma_named_all(parts(plain));
    lemma_slashed_parts(plain);
    lemma_parts_some(plain);
    if parts(plain).contains(dot_dot()) {
        let i = choose|i: int| 0 <= i < parts(plain).len() && parts(plain)[i] == dot_dot();
        assert(parts(plain)[i] != dot_dot());
    }
}

/// Where there is a part that names something, it is among the named ones.
proof fn lemma_named_keeps(list: Seq<Seq<char>>, i: int)
    requires
        0 <= i < list.len(),
        list[i].len() > 0,
        list[i] != dot(),
    ensures
        named(list).contains(list[i]),
    decreases list.len(),
{
    let init = named(list.drop_last());
    if i == list.len() - 1 {
        assert(named(list)[init.len() as int] == list[i]);
    } else {
        lemma_named_keeps(list.drop_last(), i);
        let j = choose|j: int| 0 <= j < init.len() && init[j] == list[i];
        assert(named(list)[j] == list[i]);
    }
}

/// Any list of names, however long, makes a path that is plain already: names are not empty, have
/// no slash in them, and are neither `.` nor `..`.
pub proof fn names_make_plain_paths(names: Seq<Seq<char>>)
    requires
        names.len() > 0,
        forall|i: int|
            0 <= i < names.len() ==> (#[trigger] names[i]).len() > 0 && !names[i].contains('/')
                && names[i] != "."@ && names[i] != ".."@,
    ensures
        normalized(slashed(names)) == Some(slashed(names)),
{
    reveal_strlit(".");
    reveal_strlit("..");
    assert("."@ =~= dot());
    assert(".."@ =~= dot_dot());
    assert forall|i: int| 0 <= i < names.len() implies !has_slash(#[trigger] names[i]) by {
        assert forall|k: int| 0 <= k < names[i].len() implies #[trigger] names[i][k] != '/' by {
            assert(!names[i].contains('/'));
        }
    }
    lemma_parts_slashed(names);
    lemma_named_all(names);
    lemma_slashed_first(names);
}

/// A path is refused only if it is empty, begins with a slash, has a part `..`, or has no part but
/// empty ones and `.`; and each of these is refused.
pub proof fn only_unsafe_paths_are_refused(path: Seq<char>)
    ensures
        normalized(path) is None <==> {
            ||| path.len() == 0
            ||| path[0] == '/'
            ||| exists|i: int| 0 <= i < parts(path).len() && #[trigger] parts(path)[i] == ".."@
            ||| forall|i: int|
                0 <= i < parts(path).len() ==> (#[trigger] parts(path)[i]).len() == 0 || parts(
                    path,
                )[i] == "."@
        },
{
    reveal_strlit(".");
    reveal_strlit("..");
    assert("."@ =~= dot());
    assert(".."@ =~= dot_dot());
    let list = parts(path);
    if list.contains(dot_dot()) {
        let i = choose|i: int| 0 <= i < list.len() && list[i] == dot_dot();
        assert(list[i] == ".."@);
    }
    if named(list).len() > 0 {
        lemma_named_members(list, 0);
        let i = choose|i: int| 0 <= i < list.len() && list[i] == named(list)[0];
        assert(list[i].len() > 0 && list[i] != "."@);
    }
    if exists|i: int| 0 <= i < list.len() && (#[trigger] list[i]).len() > 0 && list[i] != dot() {
        let i = choose|i: int| 0 <= i < list.len() && (#[trigger] list[i]).len() > 0 && list[i]
            != dot();
        lemma_named_keeps(list, i);
    }
}

proof fn lemma_named_append(a: Seq<Seq<char>>, b: Seq<Seq<char>>)
    ensures
        named(a + b) == named(a) + named(b),
    decreases b.len(),
{
    if b.len() == 0 {
        assert(a + b =~= a);
        assert(named(a) + named(b) =~= named(a));
    } else {
        lemma_named_append(a, b.drop_last());
        assert((a + b).drop_last() =~= a + b.drop_last());
        assert(named(a + b) =~= named(a) + named(b));
    }
}

/// Empty parts and `.` make no difference: without one of them, a list of parts makes a path with
/// the same plain form.
pub proof fn idle_parts_make_no_difference(names: Seq<Seq<char>>, k: int)
    requires
        names.len() > 1,
        names[0].len() > 0,
        forall|i: int| 0 <= i < names.len() ==> !(#[trigger] names[i]).contains('/'),
        0 < k < names.len(),
        names[k].len() == 0 || names[k] == "."@,
    ensures
        normalized(slashed(names)) == normalized(slashed(names.remove(k))),
{
    reveal_strlit(".");
    assert("."@ =~= dot());
    let fewer = names.remove(k);
    assert forall|i: int| 0 <= i < names.len() implies !has_slash(#[trigger] names[i]) by {
        assert forall|j: int| 0 <= j < names[i].len() implies #[trigger] names[i][j] != '/' by {
            assert(!names[i].contains('/'));
        }
    }
    assert forall|i: int| 0 <= i < fewer.len() implies !has_slash(#[trigger] fewer[i]) by {
        assert(fewer[i] == names[if i < k { i } else { i + 1 }]);
    }
    lemma_parts_slashed(names);
    lemma_parts_slashed(fewer);
    lemma_slashed_first(names);
    lemma_slashed_first(fewer);
    let head = names.take(k);
    let tail = names.skip(k + 1);
    let idle = seq![names[k]];
    assert(names =~= head + idle + tail);
    assert(fewer =~= head + tail);
    lemma_named_append(head + idle, tail);
    lemma_named_append(head, idle);
    lemma_named_append(head, tail);
    assert(named(idle.drop_last()).len() == 0);
    assert(named(idle).len() == 0);
    assert(named(head) + named(idle) =~= named(head));
    if names.contains(dot_dot()) {
        let i = choose|i: int| 0 <= i < names.len() && names[i] == dot_dot();
        assert(dot_dot().len() == 2 && dot().len() == 1);
        assert(fewer[if i < k { i } else { i - 1 }] == dot_dot());
    }
    if fewer.contains(dot_dot()) {
        let i = choose|i: int| 0 <= i < fewer.len() && fewer[i] == dot_dot();
        assert(names[if i < k { i } else { i + 1 }] == dot_dot());
    }
}

pub open spec fn has_backslash(s: Seq<char>) -> bool {
    exists|i: int| 0 <= i < s.len() && #[trigger] s[i] == '\\'
}

proof fn lemma_parts_backslash(s: Seq<char>, k: int)
    requires
        !has_backslash(s),
        0 <= k < parts(s).len(),
    ensures
        !has_backslash(parts(s)[k]),
    decreases s.len(),
{
    if s.len() > 0 {
        let front = s.drop_last();
        let init = parts(front);
        lemma_parts_some(front);
        assert(!has_backslash(front)) by {
            assert forall|i: int| 0 <= i < front.len() implies #[trigger] front[i] != '\\' by {
                assert(s[i] == front[i]);
            }
        }
        assert(s[s.len() - 1] != '\\');
        if k < init.len() {
            lemma_parts_backslash(front, k);
        }
    }
}

/// On Windows, too, a plain path stays below the directory that it is taken from: none of its parts
/// holds a separator of either kind or a drive.
pub proof fn plain_windows_paths_stay_below(path: Seq<char>)
    requires
        normalized(portable(Platform::Windows, path)) is Some,
    ensures
        ({
            let list = parts(normalized(portable(Platform::Windows, path))->0);
            forall|i: int|
                0 <= i < list.len() ==> !has_backslash(#[trigger] list[i]) && !has_slash(list[i])
                    && !names_drive(list[i]) && list[i].len() > 0 && list[i] != dot() && list[i]
                    != dot_dot()
        }),
{
    let s = portable(Platform::Windows, path);
    plain_paths_stay_below(s);
    let names = named(parts(s));
    let list = parts(normalized(s)->0);
    assert(!has_backslash(s)) by {
        assert forall|i: int| 0 <= i < s.len() implies #[trigger] s[i] != '\\' by {
            assert(s[i] == with_slashes(path)[i]);
        }
    }
    assert forall|i: int| 0 <= i < names.len() implies !has_slash(#[trigger] names[i])
        && !has_backslash(names[i]) && !names_drive(names[i]) by {
        lemma_named_members(parts(s), i);
        let j = choose|j: int| 0 <= j < parts(s).len() && parts(s)[j] == names[i];
        lemma_parts_plain(s, j);
        lemma_parts_backslash(s, j);
        assert(!names_drive(parts(s)[j]));
    }
    lemma_parts_slashed(names);
}

/// The paths that lead to `path`, one name longer each, `path` itself last.
pub open spec fn ancestry(path: Seq<char>) -> Seq<Seq<char>> {
    directories(path).push(path)
}

/// The texts before the slashes of `path`: the directories that it goes through.
pub open spec fn directories(path: Seq<char>) -> Seq<Seq<char>>
    decreases path.len(),
{
    if path.len() == 0 {
        Seq::empty()
    } else if path.last() == '/' {
        directories(path.drop_last()).push(path.drop_last())
    } else {
        directories(path.drop_last())
    }
}

/// Lists the paths that lead to `path`.
pub fn list_ancestry(path: &str) -> (r: Vec<String>)
    ensures
        text::texts(r@) == ancestry(path@),
{
    let chars = text::chars_of(path);
    let mut r: Vec<String> = Vec::new();
    let mut current = String::new();
    let mut i: usize = 0;
    assert(text::texts(r@) =~= directories(chars@.take(0)));
    assert(current@ =~= chars@.take(0));
    while i < chars.len()
        invariant
            chars@ == path@,
            i <= chars@.len(),
            current@ == chars@.take(i as int),
            text::texts(r@) == directories(chars@.take(i as int)),
        decreases chars@.len() - i,
    {
        let ghost before = text::texts(r@);
        assert(chars@.take(i + 1).drop_last() =~= chars@.take(i as int));
        if chars[i] == '/' {
            r.push(current.clone());
            assert(text::texts(r@) =~= before.push(current@));
        }
        current.push(chars[i]);
        assert(current@ =~= chars@.take(i + 1));
        i = i + 1;
    }
    assert(chars@.take(i as int) =~= path@);
    let ghost before = text::texts(r@);
    r.push(current);
    assert(text::texts(r@) =~= before.push(path@));
    r
}

// ---------------------------------------------------------------------------------------------
// Joining, parent and name

/// `name` below `base`; an absolute `name` stands for itself.
pub open spec fn below(base: Seq<char>, name: Seq<char>) -> Seq<char> {
    if base.len() == 0 || (name.len() > 0 && name[0] == '/') {
        name
    } else if base.last() == '/' {
        base + name
    } else {
        base + seq!['/'] + name
    }
}

/// Joins a directory and a name.
pub fn join(base: &str, name: &str) -> (r: String)
    ensures
        r@ == below(base@, name@),
{
    let b = text::chars_of(base);
    let n = text::chars_of(name);
    if b.len() == 0 || (n.len() > 0 && n[0] == '/') {
        name.to_owned()
    } else if b[b.len() - 1] == '/' {
        text::joined(base, name)
    } else {
        let mut r = base.to_owned();
        r.push('/');
        r.append(name);
        assert(r@ =~= base@ + seq!['/'] + name@);
        r
    }
}

/// Whether part `i` of a path counts: it is not empty, and it is not a `.` (but for one that a
/// relative path starts with).
pub open spec fn counts(list: Seq<Seq<char>>, i: int) -> bool {
    0 <= i < list.len() && list[i].len() > 0 && (list[i] != dot() || i == 0)
}

/// The last part before position `end` that counts, or -1.
pub open spec fn last_counting(list: Seq<Seq<char>>, end: int) -> int
    decreases end,
{
    if end <= 0 {
        -1
    } else if counts(list, end - 1) {
        end - 1
    } else {
        last_counting(list, end - 1)
    }
}

/// The name that `path` ends with, if it ends with one.
pub open spec fn last_name(path: Seq<char>) -> Option<Seq<char>> {
    let list = parts(path);
    let k = last_counting(list, list.len() as int);
    if k < 0 || list[k] == dot() || list[k] == dot_dot() {
        None
    } else {
        Some(list[k])
    }
}

/// The path without its last part; there is none for an empty path and for a root.
pub open spec fn parent_of(path: Seq<char>) -> Option<Seq<char>> {
    let list = parts(path);
    let k = last_counting(list, list.len() as int);
    if k < 0 {
        None
    } else {
        let j = last_counting(list, k);
        if j >= 0 {
            Some(slashed(list.take(j + 1)))
        } else if path[0] == '/' {
            Some(seq!['/'])
        } else {
            Some(Seq::empty())
        }
    }
}

proof fn lemma_last_counting(list: Seq<Seq<char>>, end: int)
    requires
        0 <= end <= list.len(),
    ensures
        -1 <= last_counting(list, end) < end || end == 0,
        last_counting(list, end) >= -1,
    decreases end,
{
    if end > 0 && !counts(list, end - 1) {
        lemma_last_counting(list, end - 1);
    }
}

/// The last counting part before `end`, and `end` itself where there is none.
fn find_last_counting(list: &Vec<String>, end: usize) -> (r: Option<usize>)
    requires
        end <= list@.len(),
    ensures
        match r {
            Some(k) => k == last_counting(text::texts(list@), end as int) && k < end,
            None => last_counting(text::texts(list@), end as int) == -1,
        },
{
    let mut e: usize = end;
    proof {
        reveal_strlit(".");
        assert("."@ =~= dot());
    }
    while e > 0
        invariant
            e <= end <= list@.len(),
            last_counting(text::texts(list@), e as int) == last_counting(
                text::texts(list@),
                end as int,
            ),
            "."@ == dot(),
        decreases e,
    {
        let part = list[e - 1].as_str();
        assert(part@ == text::texts(list@)[e - 1]);
        if !part.is_empty() && (!text::same_text(part, ".") || e == 1) {
            return Some(e - 1);
        }
        e = e - 1;
    }
    None
}

/// The name that `path` ends with.
pub fn file_name(path: &str) -> (r: Option<String>)
    ensures
        match r {
            Some(name) => last_name(path@) == Some(name@),
            None => last_name(path@) is None,
        },
{
    let list = split_parts(path);
    proof {
        reveal_strlit(".");
        reveal_strlit("..");
        assert("."@ =~= dot());
        assert(".."@ =~= dot_dot());
    }
    match find_last_counting(&list, list.len()) {
        None => None,
        Some(k) => {
            assert(list@[k as int]@ == text::texts(list@)[k as int]);
            if text::same_text(list[k].as_str(), ".") || text::same_text(list[k].as_str(), "..") {
                None
            } else {
                Some(list[k].clone())
            }
        },
    }
}

fn write_slashed(list: &Vec<String>, n: usize) -> (r: String)
    requires
        n <= list@.len(),
    ensures
        r@ == slashed(text::texts(list@).take(n as int)),
{
    let ghost all = text::texts(list@);
    let mut r = String::new();
    let mut i: usize = 0;
    assert(r@ =~= slashed(all.take(0)));
    while i < n
        invariant
            i <= n <= list@.len(),
            all == text::texts(list@),
            r@ == slashed(all.take(i as int)),
        decreases n - i,
    {
        assert(all.take(i + 1).drop_last() =~= all.take(i as int));
        let ghost before = r@;
        if i > 0 {
            r.push('/');
        }
        r.append(list[i].as_str());
        assert(list@[i as int]@ == all[i as int]);
        if i > 0 {
            assert(r@ =~= before + seq!['/'] + all[i as int]);
        } else {
            assert(r@ =~= all[0]);
        }
        i = i + 1;
    }
    r
}

/// The path without its last part.
pub fn parent(path: &str) -> (r: Option<String>)
    ensures
        match r {
            Some(p) => parent_of(path@) == Some(p@),
            None => parent_of(path@) is None,
        },
{
    let list = split_parts(path);
    let chars = text::chars_of(path);
    match find_last_counting(&list, list.len()) {
        None => None,
        Some(k) => {
            match find_last_counting(&list, k) {
                Some(j) => Some(write_slashed(&list, j + 1)),
                None => {
                    proof {
                        if path@.len() == 0 {
                            assert(parts(path@) =~= seq![Seq::empty()]);
                        }
                    }
                    if chars[0] == '/' {
                        let mut r = String::new();
                        r.push('/');
                        assert(r@ =~= seq!['/']);
                        Some(r)
                    } else {
                        Some(String::new())
                    }
                },
            }
        },
    }
}

// ---------------------------------------------------------------------------------------------
// Names beside a file

/// Where a file without a name or a parent has its companions.
pub open spec fn companion(path: Seq<char>, name: spec_fn(Seq<char>) -> Seq<char>) -> Seq<char> {
    below(
        match parent_of(path) {
            Some(p) => p,
            None => dot(),
        },
        name(
            match last_name(path) {
                Some(n) => n,
                None => "matrixcode"@,
            },
        ),
    )
}

/// The name of the backup of a file called `name`.
pub open spec fn backup_name(name: Seq<char>) -> Seq<char> {
    seq!['.'] + name + ".bak"@
}

/// The name of a temporary file for a file called `name`.
pub open spec fn temp_name(name: Seq<char>, pid: u32, counter: u64) -> Seq<char> {
    seq!['.'] + name + ".tmp-"@ + numbers::decimal(pid as nat) + seq!['-'] + numbers::decimal(
        counter as nat,
    )
}

fn parent_and_name(path: &str) -> (r: (String, String))
    ensures
        r.0@ == (match parent_of(path@) {
            Some(p) => p,
            None => dot(),
        }),
        r.1@ == (match last_name(path@) {
            Some(n) => n,
            None => "matrixcode"@,
        }),
{
    proof {
        reveal_strlit(".");
        assert("."@ =~= dot());
    }
    let p = match parent(path) {
        Some(p) => p,
        None => ".".to_owned(),
    };
    let n = match file_name(path) {
        Some(n) => n,
        None => "matrixcode".to_owned(),
    };
    (p, n)
}

// ---------------------------------------------------------------------------------------------
// Names beside a file on a platform

/// The text of a platform's path with slashes for separators; Windows takes backslashes for
/// separators, too.
pub open spec fn parted(platform: Platform, path: Seq<char>) -> Seq<char> {
    if platform == Platform::Windows {
        with_slashes(path)
    } else {
        path
    }
}

/// Writes a platform's path with slashes for separators.
pub fn to_parted(platform: Platform, path: &str) -> (r: String)
    ensures
        r@ == parted(platform, path@),
{
    match platform {
        Platform::Windows => write_slashes(path),
        _ => path.to_owned(),
    }
}

/// How far it is to the first slash at or after `i`, or to the end.
pub open spec fn part_end(s: Seq<char>, i: int) -> int
    decreases s.len() - i,
{
    if i >= s.len() || s[i] == '/' {
        i
    } else {
        part_end(s, i + 1)
    }
}

proof fn lemma_part_end(s: Seq<char>, i: int)
    requires
        0 <= i <= s.len(),
    ensures
        i <= part_end(s, i) <= s.len(),
        part_end(s, i) < s.len() ==> s[part_end(s, i)] == '/',
    decreases s.len() - i,
{
    if i < s.len() && s[i] != '/' {
        lemma_part_end(s, i + 1);
    }
}

fn find_part_end(s: &Vec<char>, i: usize) -> (r: usize)
    requires
        i <= s@.len(),
    ensures
        r == part_end(s@, i as int),
        i <= r <= s@.len(),
{
    let mut k: usize = i;
    while k < s.len() && s[k] != '/'
        invariant
            i <= k <= s@.len(),
            part_end(s@, k as int) == part_end(s@, i as int),
        decreases s@.len() - k,
    {
        k = k + 1;
    }
    k
}

/// The end of the part that follows the one ending at `i`; `i` itself where that one is the last
/// or the next is empty.
pub open spec fn next_end(s: Seq<char>, i: int) -> int {
    if i < s.len() && part_end(s, i + 1) > i + 1 {
        part_end(s, i + 1)
    } else {
        i
    }
}

fn find_next_end(s: &Vec<char>, i: usize) -> (r: usize)
    requires
        i <= s@.len(),
    ensures
        r == next_end(s@, i as int),
        i <= r <= s@.len(),
{
    if i < s.len() {
        let end = find_part_end(s, i + 1);
        if end > i + 1 {
            return end;
        }
    }
    i
}

/// That a text begins with two slashes, the given character and another slash.
pub open spec fn marked(s: Seq<char>, c: char) -> bool {
    s.len() >= 4 && s[0] == '/' && s[1] == '/' && s[2] == c && s[3] == '/'
}

/// That the name `UNC` and a slash follow the mark of a path that is taken word for word.
pub open spec fn marked_share(s: Seq<char>) -> bool {
    s.len() >= 8 && s[4] == 'U' && s[5] == 'N' && s[6] == 'C' && s[7] == '/'
}

/// How much of a Windows path, written with slashes, says where the path is rooted before any
/// directory: a drive (`C:`), a share (`//server/share`), a device (`//./device`), or the like
/// behind the mark of a path that is taken word for word (`//?/C:`, `//?/UNC/server/share`,
/// `//?/name`).
pub open spec fn windows_prefix(s: Seq<char>) -> int {
    if marked(s, '?') {
        if marked_share(s) {
            next_end(s, part_end(s, 8))
        } else if names_drive(s.skip(4)) && (s.len() == 6 || s[6] == '/') {
            6
        } else {
            part_end(s, 4)
        }
    } else if marked(s, '.') {
        part_end(s, 4)
    } else if s.len() >= 2 && s[0] == '/' && s[1] == '/' {
        let server = part_end(s, 2);
        if server > 2 && next_end(s, server) > server {
            next_end(s, server)
        } else {
            0
        }
    } else if names_drive(s) {
        2
    } else {
        0
    }
}

/// How much of a platform's path, written with slashes, says where the path is rooted before any
/// directory.
pub open spec fn prefix(platform: Platform, s: Seq<char>) -> int {
    if platform == Platform::Windows {
        windows_prefix(s)
    } else {
        0
    }
}

proof fn lemma_prefix(platform: Platform, s: Seq<char>)
    ensures
        0 <= prefix(platform, s) <= s.len(),
        prefix(platform, s) > 0 ==> s.len() > 0 && s[0] != '.',
{
    if s.len() >= 2 {
        lemma_part_end(s, 2);
    }
    if s.len() >= 4 {
        lemma_part_end(s, 4);
    }
    if s.len() >= 8 {
        lemma_part_end(s, 8);
    }
    assert forall|i: int| 0 <= i < s.len() implies #[trigger] part_end(s, i + 1) <= s.len() by {
        lemma_part_end(s, i + 1);
    }
}

fn find_prefix(platform: Platform, s: &Vec<char>) -> (r: usize)
    ensures
        r == prefix(platform, s@),
        r <= s@.len(),
{
    proof {
        lemma_prefix(platform, s@);
    }
    match platform {
        Platform::Windows => {
            let n: usize = s.len();
            if n >= 4 && s[0] == '/' && s[1] == '/' && s[3] == '/' && (s[2] == '?' || s[2] == '.') {
                if s[2] == '.' {
                    find_part_end(s, 4)
                } else if n >= 8 && s[4] == 'U' && s[5] == 'N' && s[6] == 'C' && s[7] == '/' {
                    find_next_end(s, find_part_end(s, 8))
                } else if n >= 6 && s[5] == ':' && is_letter(s[4]) && (n == 6 || s[6] == '/') {
                    6
                } else {
                    find_part_end(s, 4)
                }
            } else if n >= 2 && s[0] == '/' && s[1] == '/' {
                let server = find_part_end(s, 2);
                let share = find_next_end(s, server);
                if server > 2 && share > server {
                    share
                } else {
                    0
                }
            } else if n >= 2 && s[1] == ':' && is_letter(s[0]) {
                2
            } else {
                0
            }
        },
        _ => 0,
    }
}

fn is_letter(c: char) -> (r: bool)
    ensures
        r == ('a' <= c <= 'z' || 'A' <= c <= 'Z'),
{
    ('a' <= c && c <= 'z') || ('A' <= c && c <= 'Z')
}

/// A platform's path, written with slashes, without its last part.
pub open spec fn parent_on(platform: Platform, path: Seq<char>) -> Option<Seq<char>> {
    let s = parted(platform, path);
    let n = prefix(platform, s);
    match parent_of(s.skip(n)) {
        Some(p) => Some(s.take(n) + p),
        None => None,
    }
}

/// A file beside the one at a platform's path, written with slashes.
pub open spec fn companion_on(
    platform: Platform,
    path: Seq<char>,
    name: spec_fn(Seq<char>) -> Seq<char>,
) -> Seq<char> {
    let s = parted(platform, path);
    let n = prefix(platform, s);
    let rest = s.skip(n);
    if parent_of(rest) is Some {
        s.take(n) + companion(rest, name)
    } else {
        companion(rest, name)
    }
}

/// Splits a platform's path, written with slashes, behind what says where it is rooted.
fn split_prefix(platform: Platform, path: &str) -> (r: (String, String))
    ensures
        ({
            let s = parted(platform, path@);
            let n = prefix(platform, s);
            r.0@ == s.take(n) && r.1@ == s.skip(n)
        }),
{
    let s = to_parted(platform, path);
    let chars = text::chars_of(s.as_str());
    let n = find_prefix(platform, &chars);
    let mut root = String::new();
    let mut rest = String::new();
    let mut i: usize = 0;
    assert(root@ =~= chars@.take(0));
    while i < n
        invariant
            i <= n <= chars@.len(),
            root@ == chars@.take(i as int),
        decreases n - i,
    {
        root.push(chars[i]);
        assert(chars@.take(i as int).push(chars@[i as int]) =~= chars@.take(i + 1));
        i = i + 1;
    }
    assert(rest@ =~= chars@.subrange(n as int, n as int));
    while i < chars.len()
        invariant
            n <= i <= chars@.len(),
            rest@ == chars@.subrange(n as int, i as int),
        decreases chars@.len() - i,
    {
        rest.push(chars[i]);
        assert(chars@.subrange(n as int, i as int).push(chars@[i as int]) =~= chars@.subrange(
            n as int,
            i + 1,
        ));
        i = i + 1;
    }
    assert(chars@.subrange(n as int, i as int) =~= chars@.skip(n as int));
    (root, rest)
}

/// A platform's path without its last part.
pub fn parent_path(platform: Platform, path: &str) -> (r: Option<String>)
    ensures
        match r {
            Some(p) => parent_on(platform, path@) == Some(p@),
            None => parent_on(platform, path@) is None,
        },
{
    let (root, rest) = split_prefix(platform, path);
    match parent(rest.as_str()) {
        Some(p) => Some(text::joined(root.as_str(), p.as_str())),
        None => None,
    }
}

/// Where the backup of the file at `path` is kept: beside it, under its full name between a dot
/// and `.bak`.
pub fn backup_path(platform: Platform, path: &str) -> (r: String)
    ensures
        r@ == companion_on(platform, path@, |name: Seq<char>| backup_name(name)),
{
    let (root, rest) = split_prefix(platform, path);
    let (p, n) = parent_and_name(rest.as_str());
    let mut name = String::new();
    name.push('.');
    name.append(n.as_str());
    name.append(".bak");
    assert(name@ =~= backup_name(n@));
    let beside = join(p.as_str(), name.as_str());
    if parent(rest.as_str()).is_some() {
        text::joined(root.as_str(), beside.as_str())
    } else {
        beside
    }
}

/// Where the next contents of the file at `path` are prepared: beside it, under a name that the
/// process and a counter make its own.
pub fn temp_path(platform: Platform, path: &str, pid: u32, counter: u64) -> (r: String)
    ensures
        r@ == companion_on(platform, path@, |name: Seq<char>| temp_name(name, pid, counter)),
{
    let (root, rest) = split_prefix(platform, path);
    let (p, n) = parent_and_name(rest.as_str());
    let mut name = String::new();
    name.push('.');
    name.append(n.as_str());
    name.append(".tmp-");
    name.append(numbers::to_decimal(pid as u64).as_str());
    name.push('-');
    name.append(numbers::to_decimal(counter).as_str());
    assert(name@ =~= temp_name(n@, pid, counter));
    let beside = join(p.as_str(), name.as_str());
    if parent(rest.as_str()).is_some() {
        text::joined(root.as_str(), beside.as_str())
    } else {
        beside
    }
}

/// That a path is the same text on the platform as where slashes alone part it: it has no other
/// separator, and is not rooted before its first directory.
pub open spec fn is_plain_on(platform: Platform, path: Seq<char>) -> bool {
    parted(platform, path) == path && prefix(platform, path) == 0
}

/// On every platform the files beside one with a plain path are the same.
pub proof fn plain_paths_have_the_same_companions(
    platform: Platform,
    path: Seq<char>,
    name: spec_fn(Seq<char>) -> Seq<char>,
)
    requires
        is_plain_on(platform, path),
    ensures
        parent_on(platform, path) == parent_of(path),
        companion_on(platform, path, name) == companion(path, name),
{
    assert(path.skip(0) =~= path);
    assert(path.take(0) =~= Seq::empty());
    if parent_of(path) is Some {
        assert(path.take(0) + parent_of(path)->0 =~= parent_of(path)->0);
    }
    assert(path.take(0) + companion(path, name) =~= companion(path, name));
}

/// Files with different names have different backups: the whole name goes into the backup's.
pub proof fn backups_do_not_collide(a: Seq<char>, b: Seq<char>)
    requires
        backup_name(a) == backup_name(b),
    ensures
        a == b,
{
    let x = backup_name(a);
    let y = backup_name(b);
    assert(x.len() == 1 + a.len() + ".bak"@.len());
    assert(y.len() == 1 + b.len() + ".bak"@.len());
    assert(x.subrange(1, (1 + a.len()) as int) =~= a);
    assert(y.subrange(1, (1 + b.len()) as int) =~= b);
}

/// The name of a file in a directory is the name that its path ends with.
pub proof fn lemma_last_name_below(base: Seq<char>, name: Seq<char>)
    requires
        !has_slash(name),
        name.len() > 2,
    ensures
        last_name(below(base, name)) == Some(name),
{
    let path = below(base, name);
    assert(name[0] != '/');
    if base.len() == 0 {
        lemma_parts_without_slash(name);
    } else if base.last() == '/' {
        lemma_parts_append(base.drop_last(), name);
        assert(path =~= base.drop_last() + seq!['/'] + name);
    } else {
        lemma_parts_append(base, name);
    }
    let list = parts(path);
    assert(list.last() == name);
    assert(counts(list, list.len() - 1));
}

/// The name that a path ends with, or the one that stands in for it, has no slash.
proof fn lemma_last_name_plain(path: Seq<char>)
    ensures
        last_name(path) matches Some(n) ==> !has_slash(n),
{
    let list = parts(path);
    lemma_last_counting(list, list.len() as int);
    let k = last_counting(list, list.len() as int);
    if k >= 0 {
        lemma_parts_plain(path, k);
    }
}

/// The name that stands for the file at `path` in the names of its companions.
pub open spec fn own_name(path: Seq<char>) -> Seq<char> {
    match last_name(path) {
        Some(n) => n,
        None => "matrixcode"@,
    }
}

/// The companions of a file have the names that its own makes.
pub proof fn lemma_companion_names(path: Seq<char>, pid: u32, counter: u64)
    ensures
        last_name(companion(path, |name: Seq<char>| backup_name(name))) == Some(
            backup_name(own_name(path)),
        ),
        last_name(companion(path, |name: Seq<char>| temp_name(name, pid, counter))) == Some(
            temp_name(own_name(path), pid, counter),
        ),
{
    reveal_strlit("matrixcode");
    reveal_strlit(".bak");
    reveal_strlit(".tmp-");
    lemma_last_name_plain(path);
    let n = own_name(path);
    let base = match parent_of(path) {
        Some(p) => p,
        None => dot(),
    };
    assert(!has_slash(n)) by {
        if last_name(path) is None {
            assert(n.len() == 10);
            assert(n[0] != '/' && n[1] != '/' && n[2] != '/' && n[3] != '/' && n[4] != '/' && n[5]
                != '/' && n[6] != '/' && n[7] != '/' && n[8] != '/' && n[9] != '/');
        }
    }
    let b = backup_name(n);
    let t = temp_name(n, pid, counter);
    let x = numbers::decimal(pid as nat);
    let y = numbers::decimal(counter as nat);
    assert forall|i: int| 0 <= i < b.len() implies #[trigger] b[i] != '/' by {
        if 1 <= i < 1 + n.len() {
            assert(b[i] == n[i - 1]);
        } else if i >= 1 + n.len() {
            assert(b[i] == ".bak"@[i - 1 - n.len()]);
        }
    }
    assert forall|i: int| 0 <= i < t.len() implies #[trigger] t[i] != '/' by {
        if 1 <= i < 1 + n.len() {
            assert(t[i] == n[i - 1]);
        } else if 1 + n.len() <= i < 6 + n.len() {
            assert(t[i] == ".tmp-"@[i - 1 - n.len()]);
        } else if 6 + n.len() <= i < 6 + n.len() + x.len() {
            numbers::lemma_notation_characters(pid as nat, 10, i - 6 - n.len());
            assert(t[i] == x[i - 6 - n.len()]);
        } else if i > 6 + n.len() + x.len() {
            numbers::lemma_notation_characters(counter as nat, 10, i - 7 - n.len() - x.len());
            assert(t[i] == y[i - 7 - n.len() - x.len()]);
        }
    }
    lemma_last_name_below(base, b);
    lemma_last_name_below(base, t);
}

/// On every platform the backup of a file, its temporary file and the file itself are three
/// different files.
pub proof fn companions_are_other_files(
    platform: Platform,
    path: Seq<char>,
    pid: u32,
    counter: u64,
)
    ensures
        ({
            let s = parted(platform, path);
            let backup = companion_on(platform, path, |name: Seq<char>| backup_name(name));
            let temp = companion_on(
                platform,
                path,
                |name: Seq<char>| temp_name(name, pid, counter),
            );
            backup != s && temp != s && temp != backup
        }),
{
    let s = parted(platform, path);
    let n = prefix(platform, s);
    let root = s.take(n);
    let rest = s.skip(n);
    let b = companion(rest, |name: Seq<char>| backup_name(name));
    let t = companion(rest, |name: Seq<char>| temp_name(name, pid, counter));
    lemma_prefix(platform, s);
    lemma_companions_differ(rest, pid, counter);
    if parent_of(rest) is Some {
        assert((root + b).skip(n) =~= b);
        assert((root + t).skip(n) =~= t);
    } else if n > 0 {
        assert(b[0] == '.' && t[0] == '.');
    } else {
        assert(s.skip(0) =~= s);
    }
}

pub proof fn lemma_companions_differ(path: Seq<char>, pid: u32, counter: u64)
    ensures
        companion(path, |name: Seq<char>| backup_name(name)) != path,
        companion(path, |name: Seq<char>| temp_name(name, pid, counter)) != path,
        companion(path, |name: Seq<char>| temp_name(name, pid, counter)) != companion(
            path,
            |name: Seq<char>| backup_name(name),
        ),
{
    reveal_strlit(".bak");
    reveal_strlit(".tmp-");
    lemma_companion_names(path, pid, counter);
    let n = own_name(path);
    let b = backup_name(n);
    let t = temp_name(n, pid, counter);
    assert(b[2 + n.len() as int] == 'b');
    assert(t[2 + n.len() as int] == 't');
    assert(b != n && t != n) by {
        assert(b.len() > n.len());
        assert(t.len() > n.len());
    }
}

// ---------------------------------------------------------------------------------------------
// Laws on paths made of names

/// That a text names an entry of a directory.
pub open spec fn is_name(s: Seq<char>) -> bool {
    s.len() > 0 && !s.contains('/') && s != "."@ && s != ".."@
}

pub open spec fn are_names(names: Seq<Seq<char>>) -> bool {
    forall|i: int| 0 <= i < names.len() ==> is_name(#[trigger] names[i])
}

proof fn lemma_is_name(s: Seq<char>)
    requires
        is_name(s),
    ensures
        !has_slash(s),
        s.len() > 0,
        s[0] != '/',
        s.last() != '/',
        s != dot(),
        s != dot_dot(),
{
    reveal_strlit(".");
    reveal_strlit("..");
    assert("."@ =~= dot());
    assert(".."@ =~= dot_dot());
    assert forall|k: int| 0 <= k < s.len() implies #[trigger] s[k] != '/' by {
        assert(s.contains(s[k]));
    }
}

proof fn lemma_are_names(names: Seq<Seq<char>>)
    requires
        are_names(names),
    ensures
        forall|i: int|
            0 <= i < names.len() ==> !has_slash(#[trigger] names[i]) && names[i].len() > 0
                && names[i] != dot() && names[i] != dot_dot() && names[i][0] != '/'
                && names[i].last() != '/',
{
    assert forall|i: int| 0 <= i < names.len() implies !has_slash(#[trigger] names[i])
        && names[i].len() > 0 && names[i] != dot() && names[i] != dot_dot() && names[i][0] != '/'
        && names[i].last() != '/' by {
        lemma_is_name(names[i]);
    }
}

proof fn lemma_slashed_last(names: Seq<Seq<char>>)
    requires
        names.len() > 0,
        are_names(names),
    ensures
        slashed(names).len() > 0,
        slashed(names).last() != '/',
        slashed(names)[0] != '/',
{
    lemma_are_names(names);
    lemma_slashed_first(names);
    assert(names[names.len() - 1].last() != '/');
}

/// A slash before the first of some names makes an empty part before them.
proof fn lemma_slashed_absolute(names: Seq<Seq<char>>)
    requires
        names.len() > 0,
    ensures
        seq!['/'] + slashed(names) == slashed(seq![Seq::empty()] + names),
    decreases names.len(),
{
    let list = seq![Seq::empty()] + names;
    assert(list.drop_last() =~= seq![Seq::empty()] + names.drop_last());
    if names.len() == 1 {
        assert(names.drop_last() =~= Seq::empty());
        assert(list.drop_last() =~= seq![Seq::<char>::empty()]);
        assert(slashed(list.drop_last()) =~= Seq::empty());
        assert(list.last() == names[0]);
        assert(seq!['/'] + slashed(names) =~= slashed(list));
    } else {
        lemma_slashed_absolute(names.drop_last());
        assert(seq!['/'] + slashed(names) =~= slashed(list));
    }
}

/// The name and the parent of a relative path are its last name and the path of the others; and of
/// an absolute one likewise, below the root.
pub proof fn paths_end_with_their_last_name(names: Seq<Seq<char>>)
    requires
        names.len() > 0,
        are_names(names),
    ensures
        last_name(slashed(names)) == Some(names.last()),
        parent_of(slashed(names)) == Some(slashed(names.drop_last())),
        last_name(seq!['/'] + slashed(names)) == Some(names.last()),
        parent_of(seq!['/'] + slashed(names)) == Some(seq!['/'] + slashed(names.drop_last())),
{
    lemma_are_names(names);
    let n = names.len() as int;
    assert(!has_slash(names[n - 1]) && names[n - 1].len() > 0 && names[n - 1] != dot());
    lemma_parts_slashed(names);
    lemma_slashed_last(names);
    assert(counts(names, n - 1));
    if n > 1 {
        assert(names[n - 2].len() > 0 && names[n - 2] != dot());
        assert(counts(names, n - 2));
        assert(names.take(n - 1) =~= names.drop_last());
    } else {
        assert(last_counting(names, 0) == -1);
        assert(slashed(names.drop_last()) =~= Seq::empty());
    }
    let list = seq![Seq::<char>::empty()] + names;
    let path = seq!['/'] + slashed(names);
    assert forall|i: int| 0 <= i < list.len() implies !has_slash(#[trigger] list[i]) by {
        if i > 0 {
            assert(list[i] == names[i - 1]);
        }
    }
    lemma_slashed_absolute(names);
    lemma_parts_slashed(list);
    assert(list[n] == names[n - 1]);
    assert(counts(list, n));
    if n > 1 {
        assert(list[n - 1] == names[n - 2]);
        assert(counts(list, n - 1));
        assert(list.take(n) =~= seq![Seq::<char>::empty()] + names.drop_last());
        lemma_slashed_absolute(names.drop_last());
    } else {
        assert(!counts(list, 0));
        assert(last_counting(list, 0) == -1);
        assert(last_counting(list, 1) == -1);
        assert(seq!['/'] + slashed(names.drop_last()) =~= seq!['/']);
    }
}

/// A slash at the end of a path makes no difference to its name and its parent.
pub proof fn slashes_at_the_end_make_no_difference(path: Seq<char>)
    requires
        path.len() > 0,
    ensures
        last_name(path.push('/')) == last_name(path),
        parent_of(path.push('/')) == parent_of(path),
{
    let longer = path.push('/');
    assert(longer.drop_last() =~= path);
    let list = parts(path);
    let more = list.push(Seq::empty());
    assert(parts(longer) == more);
    let n = list.len() as int;
    assert(!counts(more, n));
    lemma_last_counting(list, n);
    lemma_counting_agrees(list, more, n);
    let k = last_counting(list, n);
    if k >= 0 {
        lemma_last_counting(list, k);
        lemma_counting_agrees(list, more, k);
        let j = last_counting(list, k);
        if j >= 0 {
            assert(more.take(j + 1) =~= list.take(j + 1));
        }
    }
}

proof fn lemma_counting_agrees(list: Seq<Seq<char>>, more: Seq<Seq<char>>, end: int)
    requires
        0 <= end <= list.len() <= more.len(),
        forall|i: int| 0 <= i < list.len() ==> list[i] == more[i],
    ensures
        last_counting(list, end) == last_counting(more, end),
    decreases end,
{
    if end > 0 {
        assert(list[end - 1] == more[end - 1]);
        lemma_counting_agrees(list, more, end - 1);
    }
}

/// An empty path and the root have neither a name nor a parent, and a path that ends with `..` has
/// no name.
pub proof fn some_paths_have_no_name(base: Seq<char>)
    ensures
        last_name(Seq::empty()) is None,
        parent_of(Seq::empty()) is None,
        last_name(seq!['/']) is None,
        parent_of(seq!['/']) is None,
        last_name(base + "/.."@) is None,
{
    reveal_strlit("/..");
    let none = Seq::<char>::empty();
    assert(parts(none) == seq![none]);
    assert(!counts(parts(none), 0));
    assert(last_counting(parts(none), 0) == -1);
    assert(last_counting(parts(none), 1) == -1);
    let root = seq!['/'];
    assert(root.drop_last() =~= none);
    assert(parts(root) =~= seq![none, none]);
    assert(!counts(parts(root), 0) && !counts(parts(root), 1));
    assert(last_counting(parts(root), 0) == -1);
    assert(last_counting(parts(root), 1) == -1);
    assert(last_counting(parts(root), 2) == -1);
    let climb = base + "/.."@;
    assert(climb =~= base + seq!['/'] + dot_dot());
    assert(!has_slash(dot_dot()));
    lemma_parts_append(base, dot_dot());
    let list = parts(climb);
    assert(list.last() == dot_dot());
    assert(counts(list, list.len() - 1));
}

/// Joining paths made of names makes the path of all the names; an absolute path stands for
/// itself, and nothing stands before what is joined to nothing.
pub proof fn joined_paths_have_all_names(a: Seq<Seq<char>>, b: Seq<Seq<char>>)
    requires
        a.len() > 0,
        b.len() > 0,
        are_names(a),
        are_names(b),
    ensures
        below(slashed(a), slashed(b)) == slashed(a + b),
        below(seq!['/'] + slashed(a), slashed(b)) == seq!['/'] + slashed(a + b),
        below(seq!['/'], slashed(b)) == seq!['/'] + slashed(b),
        below(slashed(a), seq!['/'] + slashed(b)) == seq!['/'] + slashed(b),
        below(Seq::empty(), slashed(b)) == slashed(b),
    decreases b.len(),
{
    lemma_slashed_last(a);
    lemma_slashed_last(b);
    lemma_slashed_concat(a, b);
    assert((seq!['/'] + slashed(a)).last() == slashed(a).last());
    assert(below(seq!['/'] + slashed(a), slashed(b)) =~= seq!['/'] + slashed(a + b));
}

proof fn lemma_slashed_concat(a: Seq<Seq<char>>, b: Seq<Seq<char>>)
    requires
        a.len() > 0,
        b.len() > 0,
    ensures
        slashed(a + b) == slashed(a) + seq!['/'] + slashed(b),
    decreases b.len(),
{
    if b.len() == 1 {
        assert((a + b).drop_last() =~= a);
        assert((a + b).last() == b[0]);
    } else {
        lemma_slashed_concat(a, b.drop_last());
        assert((a + b).drop_last() =~= a + b.drop_last());
        assert((a + b).last() == b.last());
        assert(slashed(a + b) =~= slashed(a) + seq!['/'] + slashed(b));
    }
}

/// A path leads through the path of its first name, that of its first two, and so on, to itself.
pub proof fn paths_lead_through_their_directories(names: Seq<Seq<char>>)
    requires
        names.len() > 0,
        are_names(names),
    ensures
        ancestry(slashed(names)) == Seq::new(names.len(), |i: int| slashed(names.take(i + 1))),
{
    lemma_directories(names);
    assert(names.take(names.len() as int) =~= names);
    assert(ancestry(slashed(names)) =~= Seq::new(
        names.len(),
        |i: int| slashed(names.take(i + 1)),
    ));
}

proof fn lemma_directories(names: Seq<Seq<char>>)
    requires
        names.len() > 0,
        are_names(names),
    ensures
        directories(slashed(names)) == Seq::new(
            (names.len() - 1) as nat,
            |i: int| slashed(names.take(i + 1)),
        ),
    decreases names.len(),
{
    lemma_are_names(names);
    let last = names.last();
    assert(!has_slash(names[names.len() - 1]));
    let all = Seq::new((names.len() - 1) as nat, |i: int| slashed(names.take(i + 1)));
    if names.len() == 1 {
        lemma_directories_append(Seq::empty(), last);
        assert(Seq::<char>::empty() + last =~= last);
        assert(directories(slashed(names)) =~= all);
    } else {
        let init = names.drop_last();
        assert(are_names(init)) by {
            assert forall|i: int| 0 <= i < init.len() implies is_name(#[trigger] init[i]) by {
                assert(is_name(names[i]));
            }
        }
        lemma_directories(init);
        let head = slashed(init).push('/');
        assert(slashed(names) =~= head + last);
        lemma_directories_append(head, last);
        assert(head.drop_last() =~= slashed(init));
        assert forall|i: int| 0 <= i < init.len() - 1 implies init.take(i + 1) == #[trigger]
            names.take(i + 1) by {
            assert(init.take(i + 1) =~= names.take(i + 1));
        }
        assert(names.take(names.len() - 1) =~= init);
        assert(directories(slashed(names)) =~= all);
    }
}

proof fn lemma_directories_append(s: Seq<char>, t: Seq<char>)
    requires
        !has_slash(t),
    ensures
        directories(s + t) == directories(s),
    decreases t.len(),
{
    if t.len() == 0 {
        assert(s + t =~= s);
    } else {
        let u = t.drop_last();
        assert forall|i: int| 0 <= i < u.len() implies #[trigger] u[i] != '/' by {
            assert(t[i] != '/');
        }
        lemma_directories_append(s, u);
        assert((s + t).drop_last() =~= s + u);
        assert((s + t).last() == t[t.len() - 1]);
    }
}

/// The backup and the temporary file of a file stand beside it, under its full name behind a dot
/// and before `.bak`, or before `.tmp-` and the process and a counter in decimal.
pub proof fn companions_stand_beside(names: Seq<Seq<char>>, pid: u32, counter: u64)
    requires
        names.len() > 0,
        are_names(names),
    ensures
        companion_on(Platform::Unix, slashed(names), |name: Seq<char>| backup_name(name))
            == slashed(names.drop_last().push("."@ + names.last() + ".bak"@)),
        companion_on(
            Platform::Unix,
            slashed(names),
            |name: Seq<char>| temp_name(name, pid, counter),
        ) == slashed(
            names.drop_last().push(
                "."@ + names.last() + ".tmp-"@ + numbers::decimal(pid as nat) + "-"@
                    + numbers::decimal(counter as nat),
            ),
        ),
{
    reveal_strlit(".");
    reveal_strlit("-");
    assert("."@ =~= dot());
    assert("-"@ =~= seq!['-']);
    let path = slashed(names);
    let init = names.drop_last();
    let b = "."@ + names.last() + ".bak"@;
    let t = "."@ + names.last() + ".tmp-"@ + numbers::decimal(pid as nat) + "-"@
        + numbers::decimal(counter as nat);
    paths_end_with_their_last_name(names);
    plain_paths_have_the_same_companions(
        Platform::Unix,
        path,
        |name: Seq<char>| backup_name(name),
    );
    plain_paths_have_the_same_companions(
        Platform::Unix,
        path,
        |name: Seq<char>| temp_name(name, pid, counter),
    );
    assert(backup_name(names.last()) =~= b);
    assert(temp_name(names.last(), pid, counter) =~= t);
    assert(b[0] == '.' && t[0] == '.');
    assert(init.push(b).drop_last() =~= init);
    assert(init.push(t).drop_last() =~= init);
    if init.len() > 0 {
        assert(are_names(init)) by {
            assert forall|i: int| 0 <= i < init.len() implies is_name(#[trigger] init[i]) by {
                assert(is_name(names[i]));
            }
        }
        lemma_slashed_last(init);
    } else {
        assert(slashed(init) =~= Seq::empty());
    }
}

/// Everywhere but on Windows a path is taken as it stands; there slashes and backslashes are the
/// same.
pub proof fn backslashes_part_paths_on_windows_alone(
    platform: Platform,
    path: Seq<char>,
    name: spec_fn(Seq<char>) -> Seq<char>,
)
    ensures
        platform != Platform::Windows ==> portable(platform, path) == path && parent_on(
            platform,
            path,
        ) == parent_of(path) && companion_on(platform, path, name) == companion(path, name),
        parent_on(Platform::Windows, path) == parent_on(Platform::Windows, with_slashes(path)),
        portable(Platform::Windows, path) == portable(Platform::Windows, with_slashes(path)),
        companion_on(Platform::Windows, path, name) == companion_on(
            Platform::Windows,
            with_slashes(path),
            name,
        ),
        with_slashes(path).len() == path.len(),
        forall|i: int|
            0 <= i < path.len() ==> #[trigger] with_slashes(path)[i] == (if path[i] == '\\' {
                '/'
            } else {
                path[i]
            }),
{
    assert(with_slashes(with_slashes(path)) =~= with_slashes(path));
    if platform != Platform::Windows {
        plain_paths_have_the_same_companions(platform, path, name);
    }
}

/// On Windows names with slashes or backslashes between them make a plain path, unless one begins
/// with the letter of a drive: such a path is refused.
pub proof fn names_make_plain_windows_paths(path: Seq<char>, names: Seq<Seq<char>>)
    requires
        with_slashes(path) == slashed(names),
        names.len() > 0,
        are_names(names),
    ensures
        (forall|i: int|
            0 <= i < names.len() ==> !((#[trigger] names[i]).len() >= 2 && names[i][1] == ':' && (
            'a' <= names[i][0] <= 'z' || 'A' <= names[i][0] <= 'Z'))) ==> normalized(
            portable(Platform::Windows, path),
        ) == Some(slashed(names)),
        (exists|i: int|
            0 <= i < names.len() && (#[trigger] names[i]).len() >= 2 && names[i][1] == ':' && ('a'
                <= names[i][0] <= 'z' || 'A' <= names[i][0] <= 'Z')) ==> normalized(
            portable(Platform::Windows, path),
        ) is None,
{
    lemma_are_names(names);
    lemma_parts_slashed(names);
    assert forall|i: int| 0 <= i < names.len() implies (#[trigger] names[i]).len() > 0
        && !names[i].contains('/') && names[i] != "."@ && names[i] != ".."@ by {
        assert(is_name(names[i]));
    }
    names_make_plain_paths(names);
    if exists|i: int|
        0 <= i < names.len() && (#[trigger] names[i]).len() >= 2 && names[i][1] == ':' && ('a'
            <= names[i][0] <= 'z' || 'A' <= names[i][0] <= 'Z') {
        let i = choose|i: int|
            0 <= i < names.len() && (#[trigger] names[i]).len() >= 2 && names[i][1] == ':' && ('a'
                <= names[i][0] <= 'z' || 'A' <= names[i][0] <= 'Z');
        assert(names_drive(parts(with_slashes(path))[i]));
    }
}

proof fn lemma_part_end_at(s: Seq<char>, i: int, k: int)
    requires
        0 <= i <= k <= s.len(),
        forall|j: int| i <= j < k ==> #[trigger] s[j] != '/',
        k == s.len() || s[k] == '/',
    ensures
        part_end(s, i) == k,
    decreases k - i,
{
    if i < k {
        lemma_part_end_at(s, i + 1, k);
    }
}

/// On Windows a path may be rooted at a drive, or at a share of a server: what is before the
/// directories is then the letter and its colon, or the two names behind two slashes.
pub proof fn windows_paths_are_rooted(
    letter: char,
    server: Seq<char>,
    share: Seq<char>,
    rest: Seq<char>,
)
    requires
        'a' <= letter <= 'z' || 'A' <= letter <= 'Z',
        is_name(server),
        is_name(share),
        server != "?"@,
        rest.len() == 0 || rest[0] == '/',
    ensures
        prefix(Platform::Windows, seq![letter, ':'] + rest) == 2,
        prefix(Platform::Windows, seq!['/', '/'] + server + seq!['/'] + share + rest)
            == server.len() + share.len() + 3,
{
    reveal_strlit("?");
    reveal_strlit(".");
    assert("?"@ =~= seq!['?']);
    assert("."@ =~= seq!['.']);
    lemma_is_name(server);
    lemma_is_name(share);
    let drive = seq![letter, ':'] + rest;
    assert(drive[0] == letter && drive[1] == ':');
    let s = seq!['/', '/'] + server + seq!['/'] + share + rest;
    let a = 2 + server.len() as int;
    let b = a + 1 + share.len();
    assert forall|j: int| 2 <= j < a implies #[trigger] s[j] != '/' by {
        assert(s[j] == server[j - 2]);
    }
    assert(s[a] == '/');
    lemma_part_end_at(s, 2, a);
    assert forall|j: int| a + 1 <= j < b implies #[trigger] s[j] != '/' by {
        assert(s[j] == share[j - a - 1]);
    }
    if rest.len() > 0 {
        assert(s[b] == rest[0]);
    }
    lemma_part_end_at(s, a + 1, b);
    assert(s[0] == '/' && s[1] == '/');
    if s[3] == '/' {
        assert(server.len() == 1) by {
            if server.len() > 1 {
                assert(s[3] == server[1]);
                assert(s[3] != '/');
            }
        }
        assert(s[2] == server[0]);
        assert(server =~= seq![server[0]]);
    }
}

/// Behind the root of a Windows path the parent is as everywhere, with the root before it.
pub proof fn rooted_paths_have_rooted_parents(letter: char, names: Seq<Seq<char>>)
    requires
        'a' <= letter <= 'z' || 'A' <= letter <= 'Z',
        names.len() > 0,
        are_names(names),
        forall|i: int| 0 <= i < names.len() ==> !(#[trigger] names[i]).contains('\\'),
    ensures
        parent_on(Platform::Windows, seq![letter, ':', '/'] + slashed(names)) == Some(
            seq![letter, ':', '/'] + slashed(names.drop_last()),
        ),
{
    let path = seq![letter, ':', '/'] + slashed(names);
    let rest = seq!['/'] + slashed(names);
    assert(path =~= seq![letter, ':'] + rest);
    lemma_slashed_backslash(names);
    assert(with_slashes(path) =~= path);
    assert(prefix(Platform::Windows, path) == 2);
    assert(path.skip(2) =~= rest);
    assert(path.take(2) =~= seq![letter, ':']);
    paths_end_with_their_last_name(names);
    assert(seq![letter, ':'] + (seq!['/'] + slashed(names.drop_last())) =~= seq![letter, ':', '/']
        + slashed(names.drop_last()));
}

proof fn lemma_slashed_backslash(names: Seq<Seq<char>>)
    requires
        forall|i: int| 0 <= i < names.len() ==> !(#[trigger] names[i]).contains('\\'),
    ensures
        forall|j: int| 0 <= j < slashed(names).len() ==> #[trigger] slashed(names)[j] != '\\',
    decreases names.len(),
{
    if names.len() > 0 {
        let last = names.last();
        assert(!names[names.len() - 1].contains('\\'));
        assert forall|j: int| 0 <= j < last.len() implies #[trigger] last[j] != '\\' by {
            assert(last.contains(last[j]));
        }
        if names.len() > 1 {
            let init = names.drop_last();
            assert forall|i: int| 0 <= i < init.len() implies !(#[trigger] init[i]).contains(
                '\\',
            ) by {
                assert(!names[i].contains('\\'));
            }
            lemma_slashed_backslash(init);
            let s = slashed(names);
            assert forall|j: int| 0 <= j < s.len() implies #[trigger] s[j] != '\\' by {
                if j < slashed(init).len() {
                    assert(s[j] == slashed(init)[j]);
                } else if j > slashed(init).len() {
                    assert(s[j] == last[j - slashed(init).len() - 1]);
                }
            }
        }
    }
}

/// A `.` at the end of a path makes no difference to its name and its parent; and a `.` alone is
/// a path without a name, below nothing.
pub proof fn dots_at_the_end_make_no_difference(path: Seq<char>)
    requires
        path.len() > 0,
    ensures
        last_name(path + "/."@) == last_name(path),
        parent_of(path + "/."@) == parent_of(path),
        last_name("."@) is None,
        parent_of("."@) == Some(Seq::<char>::empty()),
{
    reveal_strlit("/.");
    reveal_strlit(".");
    let longer = path + "/."@;
    assert("."@ =~= dot());
    assert(longer =~= path + seq!['/'] + dot());
    assert(!has_slash(dot()));
    lemma_parts_append(path, dot());
    lemma_parts_some(path);
    let list = parts(path);
    let more = list.push(dot());
    let n = list.len() as int;
    assert(!counts(more, n));
    lemma_last_counting(list, n);
    lemma_counting_agrees(list, more, n);
    let k = last_counting(list, n);
    if k >= 0 {
        lemma_last_counting(list, k);
        lemma_counting_agrees(list, more, k);
        let j = last_counting(list, k);
        if j >= 0 {
            assert(more.take(j + 1) =~= list.take(j + 1));
        }
    }
    lemma_parts_without_slash(dot());
    assert(counts(seq![dot()], 0));
    assert(last_counting(seq![dot()], 0) == -1);
}

/// A slash at the end of a directory makes no difference to what is below it.
pub proof fn directories_may_end_with_a_slash(base: Seq<char>, name: Seq<char>)
    requires
        base.len() > 0,
        base.last() != '/',
    ensures
        below(base.push('/'), name) == below(base, name),
{
    assert(below(base.push('/'), name) =~= below(base, name));
}

/// A path that has no name, or no parent, has its companions under the name of the program: where
/// its parent is, or in the current directory where it has none.
pub proof fn nameless_paths_have_companions(
    path: Seq<char>,
    name: spec_fn(Seq<char>) -> Seq<char>,
)
    requires
        last_name(path) is None,
    ensures
        parent_of(path) matches Some(p) ==> companion(path, name) == below(p, name("matrixcode"@)),
        parent_of(path) is None ==> companion(path, name) == below("."@, name("matrixcode"@)),
{
    reveal_strlit(".");
    assert("."@ =~= dot());
}

/// A Windows path that is taken word for word is rooted at what follows its mark: a drive, a share
/// or a name; and one that is marked as a device, at the device.
pub proof fn marked_windows_paths_are_rooted(
    letter: char,
    server: Seq<char>,
    share: Seq<char>,
    rest: Seq<char>,
)
    requires
        'a' <= letter <= 'z' || 'A' <= letter <= 'Z',
        is_name(server),
        is_name(share),
        rest.len() == 0 || rest[0] == '/',
    ensures
        prefix(Platform::Windows, seq!['/', '/', '?', '/', letter, ':'] + rest) == 6,
        prefix(
            Platform::Windows,
            seq!['/', '/', '?', '/', 'U', 'N', 'C', '/'] + server + seq!['/'] + share + rest,
        ) == server.len() + share.len() + 9,
        prefix(Platform::Windows, seq!['/', '/', '.', '/'] + server + rest) == server.len() + 4,
        server != "UNC"@ && !names_drive(server) ==> prefix(
            Platform::Windows,
            seq!['/', '/', '?', '/'] + server + rest,
        ) == server.len() + 4,
{
    reveal_strlit("UNC");
    lemma_is_name(server);
    lemma_is_name(share);
    let drive = seq!['/', '/', '?', '/', letter, ':'] + rest;
    assert(marked(drive, '?'));
    assert(drive.skip(4)[0] == letter && drive.skip(4)[1] == ':');
    assert(names_drive(drive.skip(4)));
    if rest.len() > 0 {
        assert(drive[6] == '/');
    }
    assert(drive[5] == ':');
    assert(!marked_share(drive));
    let s = seq!['/', '/', '?', '/', 'U', 'N', 'C', '/'] + server + seq!['/'] + share + rest;
    let a = 8 + server.len() as int;
    let b = a + 1 + share.len();
    assert(marked(s, '?') && marked_share(s));
    assert forall|j: int| 8 <= j < a implies #[trigger] s[j] != '/' by {
        assert(s[j] == server[j - 8]);
    }
    assert(s[a] == '/');
    lemma_part_end_at(s, 8, a);
    assert forall|j: int| a + 1 <= j < b implies #[trigger] s[j] != '/' by {
        assert(s[j] == share[j - a - 1]);
    }
    if rest.len() > 0 {
        assert(s[b] == rest[0]);
    }
    lemma_part_end_at(s, a + 1, b);
    lemma_marked_name('.', server, rest);
    lemma_marked_name('?', server, rest);
    let word = seq!['/', '/', '?', '/'] + server + rest;
    if server != "UNC"@ && !names_drive(server) {
        assert(!marked_share(word)) by {
            if marked_share(word) {
                if server.len() < 3 {
                    if rest.len() > 0 {
                        assert(word[4 + server.len() as int] == '/');
                    }
                } else if server.len() > 3 {
                    assert(word[7] == server[3]);
                    assert(server[3] != '/');
                } else {
                    assert(server =~= "UNC"@) by {
                        assert(word[4] == server[0] && word[5] == server[1] && word[6]
                            == server[2]);
                    }
                }
            }
        }
        assert(!names_drive(word.skip(4))) by {
            assert(word.skip(4) =~= server + rest);
            if server.len() == 1 && rest.len() > 0 {
                assert((server + rest)[1] == '/');
            } else if server.len() >= 2 {
                assert((server + rest)[0] == server[0] && (server + rest)[1] == server[1]);
            }
        }
    }
}

proof fn lemma_marked_name(mark: char, name: Seq<char>, rest: Seq<char>)
    requires
        is_name(name),
        rest.len() == 0 || rest[0] == '/',
    ensures
        ({
            let s = seq!['/', '/', mark, '/'] + name + rest;
            marked(s, mark) && part_end(s, 4) == name.len() + 4
        }),
{
    lemma_is_name(name);
    let s = seq!['/', '/', mark, '/'] + name + rest;
    let a = 4 + name.len() as int;
    assert forall|j: int| 4 <= j < a implies #[trigger] s[j] != '/' by {
        assert(s[j] == name[j - 4]);
    }
    if rest.len() > 0 {
        assert(s[a] == rest[0]);
    }
    lemma_part_end_at(s, 4, a);
}

/// A path that begins neither with two slashes nor with the letter of a drive is not rooted before
/// its first directory; and on other platforms none is.
pub proof fn other_paths_are_not_rooted(platform: Platform, s: Seq<char>)
    ensures
        platform != Platform::Windows ==> prefix(platform, s) == 0,
        !(s.len() >= 2 && s[0] == '/' && s[1] == '/') && !(s.len() >= 2 && s[1] == ':' && ('a'
            <= s[0] <= 'z' || 'A' <= s[0] <= 'Z')) ==> prefix(platform, s) == 0,
{
}

} // verus!
