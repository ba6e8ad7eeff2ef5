//! Errors of the resctrl filesystem.

use vstd::prelude::*;

use crate::text::concat;

verus! {

/// Operation not permitted.
pub const EPERM: i32 = 1;

/// No such file or directory.
pub const ENOENT: i32 = 2;

/// No such process.
pub const ESRCH: i32 = 3;

/// Permission denied.
pub const EACCES: i32 = 13;

/// File exists.
pub const EEXIST: i32 = 17;

/// No such device.
pub const ENODEV: i32 = 19;

/// Invalid argument.
pub const EINVAL: i32 = 22;

/// No space left on device.
pub const ENOSPC: i32 = 28;

/// Function not implemented.
pub const ENOSYS: i32 = 38;

/// Operation not supported.
pub const ENOTSUP: i32 = 95;

/// The kinds of input and output errors, under the names that the standard library gives them.
#[derive(Clone, Copy, Debug, PartialEq, Eq, Structural)]
pub enum ErrorKind {
    NotFound,
    PermissionDenied,
    ConnectionRefused,
    ConnectionReset,
    HostUnreachable,
    NetworkUnreachable,
    ConnectionAborted,
    NotConnected,
    AddrInUse,
    AddrNotAvailable,
    NetworkDown,
    BrokenPipe,
    AlreadyExists,
    WouldBlock,
    NotADirectory,
    IsADirectory,
    DirectoryNotEmpty,
    ReadOnlyFilesystem,
    FilesystemLoop,
    StaleNetworkFileHandle,
    InvalidInput,
    TimedOut,
    StorageFull,
    NotSeekable,
    QuotaExceeded,
    FileTooLarge,
    ResourceBusy,
    ExecutableFileBusy,
    Deadlock,
    CrossesDevices,
    TooManyLinks,
    InvalidFilename,
    ArgumentListTooLong,
    Interrupted,
    Unsupported,
    OutOfMemory,
    InProgress,
    InvalidData,
    /// Any other error that did not come from the operating system.
    Other,
    /// An error of the operating system that has no kind of its own.
    Uncategorized,
}

/// The kind of the error that Linux reports with a code.
pub open spec fn kind_of(code: i32) -> ErrorKind {
    match code {
        2 => ErrorKind::NotFound,
        1 | 13 => ErrorKind::PermissionDenied,
        111 => ErrorKind::ConnectionRefused,
        104 => ErrorKind::ConnectionReset,
        113 => ErrorKind::HostUnreachable,
        101 => ErrorKind::NetworkUnreachable,
        103 => ErrorKind::ConnectionAborted,
        107 => ErrorKind::NotConnected,
        98 => ErrorKind::AddrInUse,
        99 => ErrorKind::AddrNotAvailable,
        100 => ErrorKind::NetworkDown,
        32 => ErrorKind::BrokenPipe,
        17 => ErrorKind::AlreadyExists,
        11 => ErrorKind::WouldBlock,
        20 => ErrorKind::NotADirectory,
        21 => ErrorKind::IsADirectory,
        39 => ErrorKind::DirectoryNotEmpty,
        30 => ErrorKind::ReadOnlyFilesystem,
        40 => ErrorKind::FilesystemLoop,
        116 => ErrorKind::StaleNetworkFileHandle,
        22 => ErrorKind::InvalidInput,
        110 => ErrorKind::TimedOut,
        28 => ErrorKind::StorageFull,
        29 => ErrorKind::NotSeekable,
        122 => ErrorKind::QuotaExceeded,
        27 => ErrorKind::FileTooLarge,
        16 => ErrorKind::ResourceBusy,
        26 => ErrorKind::ExecutableFileBusy,
        35 => ErrorKind::Deadlock,
        18 => ErrorKind::CrossesDevices,
        31 => ErrorKind::TooManyLinks,
        36 => ErrorKind::InvalidFilename,
        7 => ErrorKind::ArgumentListTooLong,
        4 => ErrorKind::Interrupted,
        38 | 95 => ErrorKind::Unsupported,
        12 => ErrorKind::OutOfMemory,
        115 => ErrorKind::InProgress,
        _ => ErrorKind::Uncategorized,
    }
}

/// The kind of the error that Linux reports with a code.
fn kind_with(code: i32) -> (kind: ErrorKind)
    ensures
        kind == kind_of(code),
{
    match code {
        2 => ErrorKind::NotFound,
        1 | 13 => ErrorKind::PermissionDenied,
        111 => ErrorKind::ConnectionRefused,
        104 => ErrorKind::ConnectionReset,
        113 => ErrorKind::HostUnreachable,
        101 => ErrorKind::NetworkUnreachable,
        103 => ErrorKind::ConnectionAborted,
        107 => ErrorKind::NotConnected,
        98 => ErrorKind::AddrInUse,
        99 => ErrorKind::AddrNotAvailable,
        100 => ErrorKind::NetworkDown,
        32 => ErrorKind::BrokenPipe,
        17 => ErrorKind::AlreadyExists,
        11 => ErrorKind::WouldBlock,
        20 => ErrorKind::NotADirectory,
        21 => ErrorKind::IsADirectory,
        39 => ErrorKind::DirectoryNotEmpty,
        30 => ErrorKind::ReadOnlyFilesystem,
        40 => ErrorKind::FilesystemLoop,
        116 => ErrorKind::StaleNetworkFileHandle,
        22 => ErrorKind::InvalidInput,
        110 => ErrorKind::TimedOut,
        28 => ErrorKind::StorageFull,
        29 => ErrorKind::NotSeekable,
        122 => ErrorKind::QuotaExceeded,
        27 => ErrorKind::FileTooLarge,
        16 => ErrorKind::ResourceBusy,
        26 => ErrorKind::ExecutableFileBusy,
        35 => ErrorKind::Deadlock,
        18 => ErrorKind::CrossesDevices,
        31 => ErrorKind::TooManyLinks,
        36 => ErrorKind::InvalidFilename,
        7 => ErrorKind::ArgumentListTooLong,
        4 => ErrorKind::Interrupted,
        38 | 95 => ErrorKind::Unsupported,
        12 => ErrorKind::OutOfMemory,
        115 => ErrorKind::InProgress,
        _ => ErrorKind::Uncategorized,
    }
}

/// An input or output error: the operating system's code where it has one, its kind, and a
/// message for an error that did not come from the operating system.
#[derive(Clone, Debug)]
pub struct IoError {
    code: Option<i32>,
    kind: ErrorKind,
    message: String,
}

/// What an [`IoError`] says.
pub struct IoErrorView {
    pub code: Option<i32>,
    pub kind: ErrorKind,
    pub message: Seq<char>,
}

/// The error that the operating system reports with `code`.
pub open spec fn raw_error(code: i32) -> IoErrorView {
    IoErrorView { code: Some(code), kind: kind_of(code), message: Seq::empty() }
}

/// An error with a message and without a code.
pub open spec fn text_error(kind: ErrorKind, message: Seq<char>) -> IoErrorView {
    IoErrorView { code: None, kind, message }
}

impl View for IoError {
    type V = IoErrorView;

    closed spec fn view(&self) -> IoErrorView {
        IoErrorView { code: self.code, kind: self.kind, message: self.message@ }
    }
}

impl IoError {
    /// The error that the operating system reports with `code`.
    pub fn from_raw_os_error(code: i32) -> (e: IoError)
        ensures
            e@ == raw_error(code),
    {
        let kind = kind_with(code);
        IoError { code: Some(code), kind, message: String::new() }
    }

    /// An error of the given kind with a message.
    pub fn new(kind: ErrorKind, message: String) -> (e: IoError)
        ensures
            e@ == text_error(kind, message@),
    {
        IoError { code: None, kind, message }
    }

    /// The operating system's code, where the error has one.
    pub fn raw_os_error(&self) -> (code: Option<i32>)
        ensures
            code == self@.code,
    {
        self.code
    }

    /// The kind of the error.
    pub fn kind(&self) -> (kind: ErrorKind)
        ensures
            kind == self@.kind,
    {
        self.kind
    }

    /// The message of the error.
    pub fn message(&self) -> (s: String)
        ensures
            s@ == self@.message,
    {
        self.message.clone()
    }
}

/// Why an operation on the resctrl filesystem failed.
#[derive(Debug)]
pub enum Error {
    /// The resctrl root is missing.
    NotMounted { root: String },
    /// Permission was denied for a path.
    NoPermission { path: String, source: IoError },
    /// The kernel has no more groups to give.
    Capacity { source: IoError },
    /// The kernel does not support resctrl.
    Unsupported { source: IoError },
    /// Any other input or output error, with the path it came up at.
    Io { path: String, source: IoError },
}

/// What an [`Error`] says.
pub enum ErrorView {
    NotMounted { root: Seq<char> },
    NoPermission { path: Seq<char>, source: IoErrorView },
    Capacity { source: IoErrorView },
    Unsupported { source: IoErrorView },
    Io { path: Seq<char>, source: IoErrorView },
}

impl View for Error {
    type V = ErrorView;

    open spec fn view(&self) -> ErrorView {
        match self {
            Error::NotMounted { root } => ErrorView::NotMounted { root: root@ },
            Error::NoPermission { path, source } => ErrorView::NoPermission {
                path: path@,
                source: source@,
            },
            Error::Capacity { source } => ErrorView::Capacity { source: source@ },
            Error::Unsupported { source } => ErrorView::Unsupported { source: source@ },
            Error::Io { path, source } => ErrorView::Io { path: path@, source: source@ },
        }
    }
}

/// The text of an error, given that of the input or output error behind it.
pub open spec fn error_text(e: ErrorView, cause: Seq<char>) -> Seq<char> {
    match e {
        ErrorView::NotMounted { root } => "resctrl not mounted at "@ + root,
        ErrorView::NoPermission { path, .. } => "permission denied for "@ + path + ": "@ + cause,
        ErrorView::Capacity { .. } => "resctrl capacity exhausted: "@ + cause,
        ErrorView::Unsupported { .. } => "resctrl not supported: "@ + cause,
        ErrorView::Io { path, .. } => "io error at "@ + path + ": "@ + cause,
    }
}

/// A text, a path, a colon and a cause.
fn at_path(what: &str, path: &str, cause: &str) -> (r: String)
    ensures
        r@ == what@ + path@ + ": "@ + cause@,
{
    let start = concat(what, path);
    let middle = concat(start.as_str(), ": ");
    concat(middle.as_str(), cause)
}

impl Error {
    /// The text of the error, given that of the input or output error behind it.
    pub fn message(&self, cause: &str) -> (r: String)
        ensures
            r@ == error_text(self@, cause@),
    {
        match self {
            Error::NotMounted { root } => concat("resctrl not mounted at ", root.as_str()),
            Error::NoPermission { path, .. } => {
                at_path("permission denied for ", path.as_str(), cause)
            },
            Error::Capacity { .. } => concat("resctrl capacity exhausted: ", cause),
            Error::Unsupported { .. } => concat("resctrl not supported: ", cause),
            Error::Io { path, .. } => at_path("io error at ", path.as_str(), cause),
        }
    }
}

/// The error of a failed directory, read or listing operation at `path`.
pub open spec fn basic_error(path: Seq<char>, e: IoErrorView) -> ErrorView {
    match e.code {
        Some(code) => if code == EACCES || code == EPERM {
            ErrorView::NoPermission { path, source: raw_error(code) }
        } else if code == ENOSPC {
            ErrorView::Capacity { source: raw_error(code) }
        } else {
            ErrorView::Io { path, source: raw_error(code) }
        },
        None => ErrorView::Io { path, source: text_error(e.kind, e.message) },
    }
}

/// The error of a failed directory, read or listing operation at `path`.
pub fn map_basic_fs_error(path: &str, e: &IoError) -> (r: Error)
    ensures
        r@ == basic_error(path@, e@),
{
    match e.raw_os_error() {
        Some(code) => if code == EACCES || code == EPERM {
            Error::NoPermission {
                path: path.to_owned(),
                source: IoError::from_raw_os_error(code),
            }
        } else if code == ENOSPC {
            Error::Capacity { source: IoError::from_raw_os_error(code) }
        } else {
            Error::Io { path: path.to_owned(), source: IoError::from_raw_os_error(code) }
        },
        None => Error::Io { path: path.to_owned(), source: IoError::new(e.kind(), e.message()) },
    }
}

}
