//! Errors: what the kernel is told, and what a front-end is told.

use crate::text::concat2;
use vstd::prelude::*;

verus! {

/// An error number as the kernel is told it.
#[derive(Clone, Copy, Debug, PartialEq, Eq, Structural)]
pub enum Errno {
    Noent,
    Acces,
    Perm,
    Io,
    Inval,
    Nospc,
    Exist,
    Notempty,
    Isdir,
    Notdir,
    Again,
    Nametoolong,
    Ilseq,
    Notconn,
    /// Any other error number.
    Other(i32),
}

/// What a failed request was about.
#[derive(Clone, Copy, Debug, PartialEq, Eq, Structural)]
pub enum ErrorKind {
    NotFound,
    Denied,
    Offline,
    Invalid,
    Quota,
    Conflict,
    Internal,
}

/// A failed request: its kind, and a line for the user.
#[derive(Debug, PartialEq, Eq)]
pub struct CoreError {
    pub kind: ErrorKind,
    pub message: String,
}

impl CoreError {
    /// Whether this error is of `kind` and reads `message`.
    pub open spec fn reads(self, kind: ErrorKind, message: Seq<char>) -> bool {
        self.kind == kind && self.message@ == message
    }

    pub fn new(kind: ErrorKind, message: String) -> (r: Self)
        ensures
            r.reads(kind, message@),
    {
        CoreError { kind, message }
    }

    pub fn not_found(message: String) -> (r: Self)
        ensures
            r.reads(ErrorKind::NotFound, message@),
    {
        CoreError { kind: ErrorKind::NotFound, message }
    }

    pub fn denied(message: String) -> (r: Self)
        ensures
            r.reads(ErrorKind::Denied, message@),
    {
        CoreError { kind: ErrorKind::Denied, message }
    }

    pub fn invalid(message: String) -> (r: Self)
        ensures
            r.reads(ErrorKind::Invalid, message@),
    {
        CoreError { kind: ErrorKind::Invalid, message }
    }

    pub fn conflict(message: String) -> (r: Self)
        ensures
            r.reads(ErrorKind::Conflict, message@),
    {
        CoreError { kind: ErrorKind::Conflict, message }
    }

    pub fn internal(message: String) -> (r: Self)
        ensures
            r.reads(ErrorKind::Internal, message@),
    {
        CoreError { kind: ErrorKind::Internal, message }
    }

    pub fn offline() -> (r: Self)
        ensures
            r.reads(ErrorKind::Offline, "offline"@),
    {
        CoreError { kind: ErrorKind::Offline, message: "offline".to_owned() }
    }
}

/// The kind and the line that a front-end is given for `e`, met while doing
/// `what`. `shown` is the error number as it is printed.
pub open spec fn errno_reading(
    e: Errno,
    what: Seq<char>,
    online: bool,
    shown: Seq<char>,
) -> (ErrorKind, Seq<char>) {
    match e {
        Errno::Noent => (ErrorKind::NotFound, what + ": no such file or folder"@),
        Errno::Acces => (ErrorKind::Denied, what + ": not allowed"@),
        Errno::Perm => (ErrorKind::Denied, what + ": not allowed"@),
        Errno::Io => if online {
            (ErrorKind::Internal, what + ": "@ + shown)
        } else {
            (ErrorKind::Offline, "offline"@)
        },
        Errno::Inval => (ErrorKind::Invalid, what + ": not a usable path"@),
        Errno::Nospc => (ErrorKind::Quota, what + ": out of space"@),
        Errno::Exist => (ErrorKind::Conflict, what + ": already exists"@),
        Errno::Notempty => (ErrorKind::Conflict, what + ": folder is not empty"@),
        _ => (ErrorKind::Internal, what + ": "@ + shown),
    }
}

/// Turn an error number into an error that a front-end can show. An I/O error
/// met while offline is reported as being offline rather than as a broken file.
pub fn errno_error(e: Errno, what: &str, online: bool, shown: &str) -> (r: CoreError)
    ensures
        r.reads(
            errno_reading(e, what@, online, shown@).0,
            errno_reading(e, what@, online, shown@).1,
        ),
{
    match e {
        Errno::Noent => CoreError::not_found(concat2(what, ": no such file or folder")),
        Errno::Acces => CoreError::denied(concat2(what, ": not allowed")),
        Errno::Perm => CoreError::denied(concat2(what, ": not allowed")),
        Errno::Io => if online {
            CoreError::internal(concat2(concat2(what, ": ").as_str(), shown))
        } else {
            CoreError::offline()
        },
        Errno::Inval => CoreError::invalid(concat2(what, ": not a usable path")),
        Errno::Nospc => CoreError::new(ErrorKind::Quota, concat2(what, ": out of space")),
        Errno::Exist => CoreError::conflict(concat2(what, ": already exists")),
        Errno::Notempty => CoreError::conflict(concat2(what, ": folder is not empty")),
        _ => CoreError::internal(concat2(concat2(what, ": ").as_str(), shown)),
    }
}

/// Whether a `rename` may replace an existing destination.
///
/// A file never replaces a folder, a folder never replaces a file, and a folder
/// that still holds something is never replaced: it would go to the trash with
/// all it holds. `dst_empty` only matters when the destination is a folder.
pub fn check_replaceable(src_dir: bool, dst_dir: bool, dst_empty: bool) -> (r: Result<(), Errno>)
    ensures
        r == (if !src_dir && dst_dir {
            Err::<(), Errno>(Errno::Isdir)
        } else if src_dir && !dst_dir {
            Err(Errno::Notdir)
        } else if src_dir && dst_dir && !dst_empty {
            Err(Errno::Notempty)
        } else {
            Ok(())
        }),
{
    if !src_dir && dst_dir {
        Err(Errno::Isdir)
    } else if src_dir && !dst_dir {
        Err(Errno::Notdir)
    } else if src_dir && dst_dir && !dst_empty {
        Err(Errno::Notempty)
    } else {
        Ok(())
    }
}

/// What the remote said of a node: it is there, it is not, or it could not be
/// asked.
pub enum Fetched<T> {
    Found(T),
    Gone,
    Failed,
}

/// Collapse a fetch of one node into what the kernel is told.
pub fn fetch_node<T>(fetched: Fetched<T>) -> (r: Result<T, Errno>)
    ensures
        r == (match fetched {
            Fetched::Found(node) => Ok::<T, Errno>(node),
            Fetched::Gone => Err(Errno::Noent),
            Fetched::Failed => Err(Errno::Io),
        }),
{
    match fetched {
        Fetched::Found(node) => Ok(node),
        Fetched::Gone => Err(Errno::Noent),
        Fetched::Failed => Err(Errno::Io),
    }
}

/// The API's answer to a call, as far as the daemon tells answers apart.
#[derive(Clone, Copy, Debug, PartialEq, Eq, Structural)]
pub enum ApiCode {
    AlreadyExists,
    DoesNotExist,
    /// Any other answer of the API.
    Other(i64),
}

/// Whether a call failed because the name it asked for is already in use.
/// `None` is a failure that never reached the API.
pub fn is_already_exists(code: Option<ApiCode>) -> (r: bool)
    ensures
        r == (code == Some(ApiCode::AlreadyExists)),
{
    match code {
        Some(ApiCode::AlreadyExists) => true,
        _ => false,
    }
}

/// Whether a call failed because the node it addressed is not there.
pub fn is_gone(code: Option<ApiCode>) -> (r: bool)
    ensures
        r == (code == Some(ApiCode::DoesNotExist)),
{
    match code {
        Some(ApiCode::DoesNotExist) => true,
        _ => false,
    }
}

/// Read a batch fetch of one node: an unknown uid comes back either as an empty
/// answer or as an outright refusal, and both mean that it is gone.
pub fn fetch_node_remote<T>(answer: Result<Option<T>, Option<ApiCode>>) -> (r: Result<
    Option<T>,
    Option<ApiCode>,
>)
    ensures
        r == (match answer {
            Ok(found) => Ok::<Option<T>, Option<ApiCode>>(found),
            Err(code) => if code == Some(ApiCode::DoesNotExist) {
                Ok(None)
            } else {
                Err(code)
            },
        }),
{
    match answer {
        Ok(found) => Ok(found),
        Err(code) => if is_gone(code) {
            Ok(None)
        } else {
            Err(code)
        },
    }
}

/// An error is told as what it is, of what it is about: whether something is missing, is not
/// allowed, is full or is in the way; only a fault while the remote is away is told as being
/// offline.
pub proof fn law_errors_are_told_as_what_they_are(
    e: Errno,
    what: Seq<char>,
    online: bool,
    shown: Seq<char>,
)
    ensures
        ({
            let (kind, text) = errno_reading(e, what, online, shown);
            &&& kind is NotFound <==> e is Noent
            &&& kind is Denied <==> e is Acces || e is Perm
            &&& kind is Quota <==> e is Nospc
            &&& kind is Conflict <==> e is Exist || e is Notempty
            &&& kind is Invalid <==> e is Inval
            &&& kind is Offline <==> e is Io && !online
            &&& kind is Offline || what.is_prefix_of(text)
            &&& kind is Internal ==> shown.is_suffix_of(text)
        }),
{
}

/// An error reads as its own kind and message, and as no other.
pub proof fn law_errors_read_as_themselves(
    e: CoreError,
    kind: ErrorKind,
    message: Seq<char>,
    other: Seq<char>,
)
    ensures
        e.reads(e.kind, e.message@),
        e.reads(kind, message) ==> e.kind == kind && e.message@ == message,
        e.reads(kind, message) && e.reads(kind, other) ==> message == other,
{
}

} // verus!
