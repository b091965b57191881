//! Files as wholes: written without a moment at which they are torn, read back through their
//! backups, and compared.

use vstd::prelude::*;

use crate::carrying;
use crate::io;
use crate::io::{IoError, IoErrorKind};
use crate::paths;
use crate::paths::Platform;
use crate::replacement;
use crate::replacement::{Replacement, Rules};
use crate::text;

pub use crate::paths::backup_path;

verus! {

// ---------------------------------------------------------------------------------------------
// Writing

/// Where the previous contents of the file at `path` stand aside.
pub open spec fn backup_of(platform: Platform, path: Seq<char>) -> Seq<char> {
    paths::companion_on(platform, path, |name: Seq<char>| paths::backup_name(name))
}

/// Begins to write a file that is not there yet.
pub fn write_new_file(platform: Platform, path: &str, pid: u32, counter: u64) -> (r: Result<
    Replacement,
    IoError,
>)
    ensures
        replacement::outcome_view(r) == replacement::beginning(
            platform,
            path@,
            backup_of(platform, path@),
            true,
            (Rules { replaces: false, keeps_backup: false, tidies: true }),
            pid,
            counter,
        ),
        replacement::outcome_view(r) matches Ok(it) ==> it.rules == carrying::newly(),
{
    let rules = Rules { replaces: false, keeps_backup: false, tidies: true };
    let backup = paths::backup_path(platform, path);
    Replacement::start(platform, path, backup, true, rules, pid, counter)
}

/// Begins to replace a file; a backup stays behind if it is to be kept.
pub fn atomic_replace(
    platform: Platform,
    path: &str,
    keep_backup: bool,
    pid: u32,
    counter: u64,
) -> (r: Result<Replacement, IoError>)
    ensures
        replacement::outcome_view(r) == replacement::beginning(
            platform,
            path@,
            backup_of(platform, path@),
            true,
            (Rules { replaces: true, keeps_backup: keep_backup, tidies: true }),
            pid,
            counter,
        ),
        replacement::outcome_view(r) matches Ok(it) ==> it.rules == if keep_backup {
            carrying::durably()
        } else {
            carrying::plainly()
        },
{
    let rules = Rules { replaces: true, keeps_backup: keep_backup, tidies: true };
    let backup = paths::backup_path(platform, path);
    Replacement::start(platform, path, backup, true, rules, pid, counter)
}

/// Begins to replace a file by the text of a value; nothing is kept of what it held.
pub fn atomic_write_json(platform: Platform, path: &str, pid: u32, counter: u64) -> (r: Result<
    Replacement,
    IoError,
>)
    ensures
        replacement::outcome_view(r) == replacement::beginning(
            platform,
            path@,
            backup_of(platform, path@),
            true,
            (Rules { replaces: true, keeps_backup: false, tidies: true }),
            pid,
            counter,
        ),
        replacement::outcome_view(r) matches Ok(it) ==> it.rules == carrying::plainly(),
{
    atomic_replace(platform, path, false, pid, counter)
}

/// Begins to replace a file by the text of a value; what it held stays as a backup, and so does
/// a copy of the first value.
pub fn atomic_write_json_durable(
    platform: Platform,
    path: &str,
    pid: u32,
    counter: u64,
) -> (r: Result<Replacement, IoError>)
    ensures
        replacement::outcome_view(r) == replacement::beginning(
            platform,
            path@,
            backup_of(platform, path@),
            true,
            (Rules { replaces: true, keeps_backup: true, tidies: true }),
            pid,
            counter,
        ),
        replacement::outcome_view(r) matches Ok(it) ==> it.rules == carrying::durably(),
{
    atomic_replace(platform, path, true, pid, counter)
}

/// Begins to replace the file at `destination` by a copy of another; nothing is kept of what it
/// held.
pub fn atomic_copy(platform: Platform, destination: &str, pid: u32, counter: u64) -> (r: Result<
    Replacement,
    IoError,
>)
    ensures
        replacement::outcome_view(r) == replacement::beginning(
            platform,
            destination@,
            backup_of(platform, destination@),
            true,
            (Rules { replaces: true, keeps_backup: false, tidies: true }),
            pid,
            counter,
        ),
        replacement::outcome_view(r) matches Ok(it) ==> it.rules == carrying::plainly(),
{
    atomic_replace(platform, destination, false, pid, counter)
}

// ---------------------------------------------------------------------------------------------
// Reading

/// What is read of a file that has a backup: the file itself where it can be read, the backup
/// where only that can, and the error of the file where neither can.
pub open spec fn with_backup<T>(
    primary: Result<T, io::IoErrorView>,
    backup: Result<T, io::IoErrorView>,
) -> Result<T, io::IoErrorView> {
    if primary is Err && backup is Ok {
        backup
    } else {
        primary
    }
}

/// Chooses between a file and its backup.
pub fn read_json_with_backup<T>(
    primary: Result<T, IoError>,
    backup: Result<T, IoError>,
) -> (r: Result<T, IoError>)
    ensures
        io::result_view(r) == with_backup(io::result_view(primary), io::result_view(backup)),
{
    match primary {
        Ok(value) => Ok(value),
        Err(primary_error) => match backup {
            Ok(value) => Ok(value),
            Err(_) => Err(primary_error),
        },
    }
}

// ---------------------------------------------------------------------------------------------
// Comparing

/// How much of a file is read at once.
pub const CHUNK: usize = 65536;

/// What the metadata of a file say.
#[derive(Debug, Clone, Copy, PartialEq, Eq, Structural)]
pub struct Metadata {
    pub is_file: bool,
    pub len: u64,
}

/// What a comparison wants done next.
#[derive(Debug, Clone, Copy, PartialEq, Eq, Structural)]
pub enum CompareRequest {
    /// Look up the metadata of the left file, following links.
    LeftMetadata,
    RightMetadata,
    /// Open both files, the left one first.
    Open,
    /// Read the next bytes of the left file, at most [`CHUNK`].
    ReadLeft,
    ReadRight,
}

/// What came of the request of a comparison.
#[derive(Debug)]
pub enum CompareReply {
    Metadata(Result<Metadata, IoError>),
    Opened(Result<(), IoError>),
    Bytes(Result<Vec<u8>, IoError>),
}

pub enum CompareReplyView {
    Metadata(Result<Metadata, io::IoErrorView>),
    Opened(Result<(), io::IoErrorView>),
    Bytes(Result<Seq<u8>, io::IoErrorView>),
}

impl View for CompareReply {
    type V = CompareReplyView;

    open spec fn view(&self) -> CompareReplyView {
        match *self {
            CompareReply::Metadata(r) => CompareReplyView::Metadata(io::result_view(r)),
            CompareReply::Opened(r) => CompareReplyView::Opened(io::result_view(r)),
            CompareReply::Bytes(r) => CompareReplyView::Bytes(
                match r {
                    Ok(bytes) => Ok(bytes@),
                    Err(e) => Err(e@),
                },
            ),
        }
    }
}

/// Where a comparison stands.
#[derive(Debug)]
pub enum Comparison {
    Left { len: u64 },
    Right { len: u64, left: Metadata },
    Open,
    ReadLeft,
    ReadRight { left: Vec<u8> },
    Done(Result<bool, IoError>),
}

pub enum ComparisonView {
    Left { len: u64 },
    Right { len: u64, left: Metadata },
    Open,
    ReadLeft,
    ReadRight { left: Seq<u8> },
    Done(Result<bool, io::IoErrorView>),
}

impl View for Comparison {
    type V = ComparisonView;

    open spec fn view(&self) -> ComparisonView {
        match *self {
            Comparison::Left { len } => ComparisonView::Left { len },
            Comparison::Right { len, left } => ComparisonView::Right { len, left },
            Comparison::Open => ComparisonView::Open,
            Comparison::ReadLeft => ComparisonView::ReadLeft,
            Comparison::ReadRight { left } => ComparisonView::ReadRight { left: left@ },
            Comparison::Done(r) => ComparisonView::Done(io::result_view(r)),
        }
    }
}

impl ComparisonView {
    pub open spec fn request(self) -> Option<CompareRequest> {
        match self {
            ComparisonView::Left { .. } => Some(CompareRequest::LeftMetadata),
            ComparisonView::Right { .. } => Some(CompareRequest::RightMetadata),
            ComparisonView::Open => Some(CompareRequest::Open),
            ComparisonView::ReadLeft => Some(CompareRequest::ReadLeft),
            ComparisonView::ReadRight { .. } => Some(CompareRequest::ReadRight),
            ComparisonView::Done(_) => None,
        }
    }

    /// The comparison after a reply: a missing left file equals nothing, files of other lengths
    /// are not equal, and then the bytes decide.
    pub open spec fn next(self, reply: CompareReplyView) -> ComparisonView {
        match (self, reply) {
            (ComparisonView::Left { len }, CompareReplyView::Metadata(r)) => match r {
                Ok(left) => ComparisonView::Right { len, left },
                Err(e) => if e.kind == IoErrorKind::NotFound {
                    ComparisonView::Done(Ok(false))
                } else {
                    ComparisonView::Done(Err(e))
                },
            },
            (ComparisonView::Right { len, left }, CompareReplyView::Metadata(r)) => match r {
                Ok(right) => if left.is_file && right.is_file && left.len == len && right.len
                    == len {
                    ComparisonView::Open
                } else {
                    ComparisonView::Done(Ok(false))
                },
                Err(e) => ComparisonView::Done(Err(e)),
            },
            (ComparisonView::Open, CompareReplyView::Opened(r)) => match r {
                Ok(_) => ComparisonView::ReadLeft,
                Err(e) => ComparisonView::Done(Err(e)),
            },
            (ComparisonView::ReadLeft, CompareReplyView::Bytes(r)) => match r {
                Ok(left) => ComparisonView::ReadRight { left },
                Err(e) => ComparisonView::Done(Err(e)),
            },
            (ComparisonView::ReadRight { left }, CompareReplyView::Bytes(r)) => match r {
                Ok(right) => if left != right {
                    ComparisonView::Done(Ok(false))
                } else if left.len() == 0 {
                    ComparisonView::Done(Ok(true))
                } else {
                    ComparisonView::ReadLeft
                },
                Err(e) => ComparisonView::Done(Err(e)),
            },
            (ComparisonView::Done(_), _) => self,
            _ => ComparisonView::Done(Err(replacement::unexpected_reply())),
        }
    }
}

/// Begins to compare two files, which are equal only if both have length `expected_len`.
pub fn files_equal(expected_len: u64) -> (r: Comparison)
    ensures
        r@ == (ComparisonView::Left { len: expected_len }),
{
    Comparison::Left { len: expected_len }
}

impl Comparison {
    /// What the comparison wants done next; nothing once it has come to its end.
    pub fn request(&self) -> (r: Option<CompareRequest>)
        ensures
            r == self@.request(),
    {
        match self {
            Comparison::Left { .. } => Some(CompareRequest::LeftMetadata),
            Comparison::Right { .. } => Some(CompareRequest::RightMetadata),
            Comparison::Open => Some(CompareRequest::Open),
            Comparison::ReadLeft => Some(CompareRequest::ReadLeft),
            Comparison::ReadRight { .. } => Some(CompareRequest::ReadRight),
            Comparison::Done(_) => None,
        }
    }

    /// Goes on with what came of the request.
    pub fn resume(self, reply: CompareReply) -> (r: Comparison)
        ensures
            r@ == self@.next(reply@),
    {
        match (self, reply) {
            (Comparison::Left { len }, CompareReply::Metadata(r)) => match r {
                Ok(left) => Comparison::Right { len, left },
                Err(e) => if e.is_not_found() {
                    Comparison::Done(Ok(false))
                } else {
                    Comparison::Done(Err(e))
                },
            },
            (Comparison::Right { len, left }, CompareReply::Metadata(r)) => match r {
                Ok(right) => if left.is_file && right.is_file && left.len == len && right.len
                    == len {
                    Comparison::Open
                } else {
                    Comparison::Done(Ok(false))
                },
                Err(e) => Comparison::Done(Err(e)),
            },
            (Comparison::Open, CompareReply::Opened(r)) => match r {
                Ok(_) => Comparison::ReadLeft,
                Err(e) => Comparison::Done(Err(e)),
            },
            (Comparison::ReadLeft, CompareReply::Bytes(r)) => match r {
                Ok(left) => Comparison::ReadRight { left },
                Err(e) => Comparison::Done(Err(e)),
            },
            (Comparison::ReadRight { left }, CompareReply::Bytes(r)) => match r {
                Ok(right) => if !text::same_bytes(left.as_slice(), right.as_slice()) {
                    Comparison::Done(Ok(false))
                } else if left.len() == 0 {
                    Comparison::Done(Ok(true))
                } else {
                    Comparison::ReadLeft
                },
                Err(e) => Comparison::Done(Err(e)),
            },
            (Comparison::Done(r), _) => Comparison::Done(r),
            _ => Comparison::Done(
                Err(IoError::new(IoErrorKind::InvalidInput, "unexpected reply")),
            ),
        }
    }
}

/// Two files being compared: their contents, and how far each is read.
pub struct Reading {
    pub left: Seq<u8>,
    pub right: Seq<u8>,
    pub left_at: int,
    pub right_at: int,
}

/// The next bytes of a file from a position on.
pub open spec fn chunk(contents: Seq<u8>, at: int) -> Seq<u8> {
    if at + CHUNK < contents.len() {
        contents.subrange(at, at + CHUNK)
    } else {
        contents.subrange(at, contents.len() as int)
    }
}

impl Reading {
    /// That the request can meet with the reply: metadata and bytes are those of the files, or
    /// there is an error; reads go on where the last one ended.
    pub open spec fn performs(
        self,
        request: CompareRequest,
        reply: CompareReplyView,
        after: Reading,
    ) -> bool {
        match (request, reply) {
            (CompareRequest::LeftMetadata, CompareReplyView::Metadata(r)) => after == self && (
            r matches Ok(m) ==> m.is_file && m.len == self.left.len()) && (r matches Err(e)
                ==> e.kind != IoErrorKind::NotFound),
            (CompareRequest::RightMetadata, CompareReplyView::Metadata(r)) => after == self && (
            r matches Ok(m) ==> m.is_file && m.len == self.right.len()),
            (CompareRequest::Open, CompareReplyView::Opened(_)) => after == (Reading {
                left_at: 0,
                right_at: 0,
                ..self
            }),
            (CompareRequest::ReadLeft, CompareReplyView::Bytes(r)) => match r {
                Ok(bytes) => bytes == chunk(self.left, self.left_at) && after == (Reading {
                    left_at: self.left_at + bytes.len(),
                    ..self
                }),
                Err(_) => after == self,
            },
            (CompareRequest::ReadRight, CompareReplyView::Bytes(r)) => match r {
                Ok(bytes) => bytes == chunk(self.right, self.right_at) && after == (Reading {
                    right_at: self.right_at + bytes.len(),
                    ..self
                }),
                Err(_) => after == self,
            },
            _ => false,
        }
    }

    /// What holds at each stage of a comparison of these files.
    pub open spec fn sound(self, it: ComparisonView, expected_len: u64) -> bool {
        match it {
            ComparisonView::Left { len } => len == expected_len,
            ComparisonView::Right { len, left } => len == expected_len && left.is_file && left.len
                == self.left.len(),
            ComparisonView::Open => self.left.len() == expected_len && self.right.len()
                == expected_len,
            ComparisonView::ReadLeft => {
                &&& self.left.len() == expected_len
                &&& self.right.len() == expected_len
                &&& 0 <= self.left_at == self.right_at <= expected_len
                &&& self.left.take(self.left_at) == self.right.take(self.left_at)
            },
            ComparisonView::ReadRight { left } => {
                &&& self.left.len() == expected_len
                &&& self.right.len() == expected_len
                &&& 0 <= self.right_at <= expected_len
                &&& left == chunk(self.left, self.right_at)
                &&& self.left_at == self.right_at + left.len()
                &&& self.left.take(self.right_at) == self.right.take(self.right_at)
            },
            ComparisonView::Done(r) => r matches Ok(equal) ==> equal == (self.left == self.right
                && self.left.len() == expected_len),
        }
    }
}

proof fn lemma_comparison_step(
    files: Reading,
    it: ComparisonView,
    expected_len: u64,
    reply: CompareReplyView,
    after: Reading,
)
    requires
        files.sound(it, expected_len),
        it.request() is Some,
        files.performs(it.request()->0, reply, after),
    ensures
        after.left == files.left,
        after.right == files.right,
        after.sound(it.next(reply), expected_len),
{
    assert(files.left.take(0) =~= files.right.take(0));
    if let ComparisonView::ReadRight { left } = it {
        if let CompareReplyView::Bytes(Ok(right)) = reply {
            let at = files.right_at;
            let n = left.len() as int;
            let l = files.left;
            let r = files.right;
            if left == right {
                assert(l.take(at + n) =~= l.take(at) + left);
                assert(r.take(at + n) =~= r.take(at) + right);
                if n == 0 {
                    assert(l.take(at) =~= l);
                    assert(r.take(at) =~= r);
                }
            } else {
                assert(l != r) by {
                    if l == r {
                        assert(left =~= right);
                    }
                }
            }
        }
    }
}

/// A comparison under way, and the files below it.
pub struct CompareMoment {
    pub files: Reading,
    pub it: ComparisonView,
}

impl CompareMoment {
    pub open spec fn steps(self, reply: CompareReplyView, after: CompareMoment) -> bool {
        &&& self.it.request() is Some
        &&& self.files.performs(self.it.request()->0, reply, after.files)
        &&& after.it == self.it.next(reply)
    }

    pub open spec fn leads_to(self, after: CompareMoment) -> bool {
        exists|reply: CompareReplyView| #[trigger] self.steps(reply, after)
    }
}

/// That each moment of a comparison leads to the next.
pub open spec fn is_comparison(expected_len: u64, moments: Seq<CompareMoment>) -> bool {
    &&& moments.len() > 0
    &&& moments[0].it == (ComparisonView::Left { len: expected_len })
    &&& forall|i: int|
        0 <= i < moments.len() - 1 ==> (#[trigger] moments[i]).leads_to(moments[i + 1])
}

/// A comparison that does not fail says that two files are equal exactly if they hold the same
/// bytes and have the expected length.
pub proof fn comparisons_are_exact(expected_len: u64, moments: Seq<CompareMoment>, i: int)
    requires
        is_comparison(expected_len, moments),
        0 <= i < moments.len(),
    ensures
        moments[i].it matches ComparisonView::Done(Ok(equal)) ==> equal == (moments[0].files.left
            == moments[0].files.right && moments[0].files.left.len() == expected_len),
{
    lemma_comparison(expected_len, moments, i);
}

proof fn lemma_comparison(expected_len: u64, moments: Seq<CompareMoment>, i: int)
    requires
        is_comparison(expected_len, moments),
        0 <= i < moments.len(),
    ensures
        moments[i].files.left == moments[0].files.left,
        moments[i].files.right == moments[0].files.right,
        moments[i].files.sound(moments[i].it, expected_len),
    decreases i,
{
    if i > 0 {
        let now = moments[i - 1];
        lemma_comparison(expected_len, moments, i - 1);
        assert(moments[i - 1].leads_to(moments[i - 1 + 1]));
        let reply = choose|reply: CompareReplyView| #[trigger] now.steps(reply, moments[i]);
        lemma_comparison_step(now.files, now.it, expected_len, reply, moments[i].files);
    }
}

impl CompareReplyView {
    /// That nothing went wrong.
    pub open spec fn is_fine(self) -> bool {
        match self {
            CompareReplyView::Metadata(r) => r is Ok,
            CompareReplyView::Opened(r) => r is Ok,
            CompareReplyView::Bytes(r) => r is Ok,
        }
    }

    /// The error that came, where one did.
    pub open spec fn failure(self) -> Option<io::IoErrorView> {
        match self {
            CompareReplyView::Metadata(Err(e)) => Some(e),
            CompareReplyView::Opened(Err(e)) => Some(e),
            CompareReplyView::Bytes(Err(e)) => Some(e),
            _ => None,
        }
    }

    /// That the reply is of the kind that the request asks for.
    pub open spec fn answers(self, request: CompareRequest) -> bool {
        match request {
            CompareRequest::LeftMetadata | CompareRequest::RightMetadata => self is Metadata,
            CompareRequest::Open => self is Opened,
            CompareRequest::ReadLeft | CompareRequest::ReadRight => self is Bytes,
        }
    }
}

/// That each moment of a comparison leads to the next by a reply with nothing wrong.
pub open spec fn is_undisturbed(expected_len: u64, moments: Seq<CompareMoment>) -> bool {
    &&& moments.len() > 0
    &&& moments[0].it == (ComparisonView::Left { len: expected_len })
    &&& forall|i: int|
        0 <= i < moments.len() - 1 ==> exists|reply: CompareReplyView|
            reply.is_fine() && #[trigger] (#[trigger] moments[i]).steps(reply, moments[i + 1])
}

proof fn lemma_undisturbed(expected_len: u64, moments: Seq<CompareMoment>, i: int)
    requires
        is_undisturbed(expected_len, moments),
        0 <= i < moments.len(),
    ensures
        is_comparison(expected_len, moments),
        !(moments[i].it matches ComparisonView::Done(Err(_))),
    decreases i,
{
    assert forall|k: int| 0 <= k < moments.len() - 1 implies (#[trigger] moments[k]).leads_to(
        moments[k + 1],
    ) by {
        let reply = choose|reply: CompareReplyView|
            reply.is_fine() && #[trigger] moments[k].steps(reply, moments[k + 1]);
        assert(moments[k].steps(reply, moments[k + 1]));
    }
    if i > 0 {
        lemma_undisturbed(expected_len, moments, i - 1);
        let now = moments[i - 1];
        assert(moments[i - 1 + 1] == moments[i]);
        let reply = choose|reply: CompareReplyView|
            reply.is_fine() && #[trigger] now.steps(reply, moments[i]);
        assert(now.steps(reply, moments[i]));
    }
}

/// A comparison in which nothing goes wrong does not fail: it ends with the answer whether the two
/// files hold the same bytes and have the expected length, whatever their lengths are.
pub proof fn undisturbed_comparisons_answer(
    expected_len: u64,
    moments: Seq<CompareMoment>,
    i: int,
)
    requires
        is_undisturbed(expected_len, moments),
        0 <= i < moments.len(),
    ensures
        moments[i].it matches ComparisonView::Done(r) ==> r == Ok::<bool, io::IoErrorView>(
            moments[0].files.left == moments[0].files.right && moments[0].files.left.len()
                == expected_len,
        ),
{
    lemma_undisturbed(expected_len, moments, i);
    comparisons_are_exact(expected_len, moments, i);
}

/// A comparison fails only with an error that a reply brought; a left file that is missing, and
/// one that cannot be a regular file of the expected length, are no errors but unequal.
pub proof fn failures_of_comparisons_are_those_of_replies(
    it: ComparisonView,
    reply: CompareReplyView,
)
    requires
        it.request() is Some,
        reply.answers(it.request()->0),
    ensures
        it.next(reply) matches ComparisonView::Done(Err(e)) ==> reply.failure() == Some(e),
        reply.failure() matches Some(e) ==> it.next(reply) == ComparisonView::Done(
            if it is Left && e.kind == IoErrorKind::NotFound {
                Ok(false)
            } else {
                Err(e)
            },
        ),
        it matches ComparisonView::Right { len, left } ==> (reply
            matches CompareReplyView::Metadata(Ok(right)) ==> {
            ||| left.is_file && right.is_file && left.len == len && right.len == len
            ||| it.next(reply) == ComparisonView::Done(Ok::<bool, io::IoErrorView>(false))
        }),
{
}

/// A comparison comes to an end: after as many steps as there are bytes to read, and a few more,
/// nothing is left to ask for.
pub proof fn comparisons_end(expected_len: u64, moments: Seq<CompareMoment>, i: int)
    requires
        is_comparison(expected_len, moments),
        0 <= i < moments.len(),
    ensures
        moments[i].it.request() is Some ==> i <= 2 * expected_len + 4,
{
    lemma_steps_taken(expected_len, moments, i);
    lemma_comparison(expected_len, moments, i);
}

proof fn lemma_steps_taken(expected_len: u64, moments: Seq<CompareMoment>, i: int)
    requires
        is_comparison(expected_len, moments),
        0 <= i < moments.len(),
    ensures
        match moments[i].it {
            ComparisonView::Left { .. } => i == 0,
            ComparisonView::Right { .. } => i == 1,
            ComparisonView::Open => i == 2,
            ComparisonView::ReadLeft => i <= 3 + 2 * moments[i].files.left_at,
            ComparisonView::ReadRight { .. } => i <= 4 + 2 * moments[i].files.right_at,
            ComparisonView::Done(_) => true,
        },
    decreases i,
{
    if i > 0 {
        let now = moments[i - 1];
        lemma_steps_taken(expected_len, moments, i - 1);
        lemma_comparison(expected_len, moments, i - 1);
        lemma_comparison(expected_len, moments, i);
        assert(moments[i - 1].leads_to(moments[i - 1 + 1]));
        let reply = choose|reply: CompareReplyView| #[trigger] now.steps(reply, moments[i]);
        assert(now.steps(reply, moments[i]));
    }
}

/// The file itself counts where it can be read, its backup only where it alone can, and where
/// neither can, the error is that of the file.
pub proof fn backups_stand_in<T>(
    primary: Result<T, io::IoErrorView>,
    backup: Result<T, io::IoErrorView>,
)
    ensures
        with_backup(primary, backup) is Ok <==> primary is Ok || backup is Ok,
        primary is Ok || backup is Err ==> with_backup(primary, backup) == primary,
        primary is Err && backup is Ok ==> with_backup(primary, backup) == backup,
{
}

} // verus!
