use vstd::prelude::*;

verus! {

/// Operation not permitted.
pub const EPERM: i32 = 1;
/// No such file or directory.
pub const ENOENT: i32 = 2;
/// Input/output error.
pub const EIO: i32 = 5;
/// Out of memory.
pub const ENOMEM: i32 = 12;
/// Invalid argument.
pub const EINVAL: i32 = 22;
/// Not a terminal.
pub const ENOTTY: i32 = 25;
/// Illegal seek.
pub const ESPIPE: i32 = 29;

/// The closed set of failures this layer can report.
#[derive(Clone, Copy, Debug, PartialEq, Eq, Structural)]
pub enum ErrorKind {
    NotPermitted,
    NoEntity,
    Io,
    OutOfMemory,
    InvalidArgument,
    NotATty,
    IllegalSeek,
}

/// The POSIX number of each error kind.
pub open spec fn code_of(k: ErrorKind) -> i32 {
    match k {
        ErrorKind::NotPermitted => EPERM,
        ErrorKind::NoEntity => ENOENT,
        ErrorKind::Io => EIO,
        ErrorKind::OutOfMemory => ENOMEM,
        ErrorKind::InvalidArgument => EINVAL,
        ErrorKind::NotATty => ENOTTY,
        ErrorKind::IllegalSeek => ESPIPE,
    }
}

impl ErrorKind {
    /// The number that the C runtime expects for this error.
    pub fn code(&self) -> (r: i32)
        ensures
            r == code_of(*self),
    {
        match self {
            ErrorKind::NotPermitted => EPERM,
            ErrorKind::NoEntity => ENOENT,
            ErrorKind::Io => EIO,
            ErrorKind::OutOfMemory => ENOMEM,
            ErrorKind::InvalidArgument => EINVAL,
            ErrorKind::NotATty => ENOTTY,
            ErrorKind::IllegalSeek => ESPIPE,
        }
    }
}

/// The per-call error context of the reentrant calling convention: the
/// runtime owns it, the shims only write a code into it on failure.
pub struct Reent {
    pub errno: i32,
}

impl Reent {
    /// A context with no error recorded.
    pub fn new() -> (r: Reent)
        ensures
            r.errno == 0,
    {
        Reent { errno: 0 }
    }

    /// Records `kind` as the error of the current call.
    pub fn set_error(&mut self, kind: ErrorKind)
        ensures
            final(self).errno == code_of(kind),
    {
        self.errno = kind.code();
    }
}

} // verus!
