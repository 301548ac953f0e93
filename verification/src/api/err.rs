//! errors crossing the core boundary

use crate::text::{concat, dec_signed, i32_to_dec};
use vstd::prelude::*;

verus! {

/// the single error type returned by every fallible operation in the public
/// api. variants carry a human-readable message; the variant itself is the
/// stable tag a policy layer matches on to decide between retry, fallback,
/// or abort
#[derive(Debug, Clone)]
pub enum Error {
    /// a failed syscall: the op that failed and its errno
    Sys { op: String, errno: i32 },
    /// the named layer was not found in the loaded descriptors
    UnknownLayer(String),
    /// every candidate is unhealthy; no layer can be selected for boot
    NoHealthyLayer,
    /// a store object failed its integrity check
    Corrupt { hash: String },
    /// parse error, invalid value, or unknown token in state files
    Config(String),
    /// filesystem operation (mkdir, open, write) that is not a syscall
    Io(String),
    /// boot-path error: handoff, early mounts, reaper, exec
    Init(String),
    /// libc loader not found or wrong libc for a layer
    Libc(String),
}

pub type Result<T> = std::result::Result<T, Error>;

/// the mathematical content of an [`Error`]
pub enum ErrorView {
    Sys { op: Seq<char>, errno: int },
    UnknownLayer(Seq<char>),
    NoHealthyLayer,
    Corrupt { hash: Seq<char> },
    Config(Seq<char>),
    Io(Seq<char>),
    Init(Seq<char>),
    Libc(Seq<char>),
}

impl View for Error {
    type V = ErrorView;

    open spec fn view(&self) -> ErrorView {
        match self {
            Error::Sys { op, errno } => ErrorView::Sys { op: op@, errno: *errno as int },
            Error::UnknownLayer(m) => ErrorView::UnknownLayer(m@),
            Error::NoHealthyLayer => ErrorView::NoHealthyLayer,
            Error::Corrupt { hash } => ErrorView::Corrupt { hash: hash@ },
            Error::Config(m) => ErrorView::Config(m@),
            Error::Io(m) => ErrorView::Io(m@),
            Error::Init(m) => ErrorView::Init(m@),
            Error::Libc(m) => ErrorView::Libc(m@),
        }
    }
}

/// a result seen through the views of its value and of its error
pub open spec fn result_view<T: View>(r: Result<T>) -> std::result::Result<T::V, ErrorView> {
    match r {
        Ok(v) => Ok(v@),
        Err(e) => Err(e@),
    }
}

impl ErrorView {
    /// the human-readable rendering of an error
    pub open spec fn message(self) -> Seq<char> {
        match self {
            ErrorView::Sys { op, errno } => op + " failed: errno "@ + dec_signed(errno),
            ErrorView::UnknownLayer(n) => "unknown layer: "@ + n,
            ErrorView::NoHealthyLayer => "no healthy layer to select"@,
            ErrorView::Corrupt { hash } => "corrupt object: "@ + hash,
            ErrorView::Config(m) => "config: "@ + m,
            ErrorView::Io(m) => "io: "@ + m,
            ErrorView::Init(m) => "init: "@ + m,
            ErrorView::Libc(m) => "libc: "@ + m,
        }
    }
}

impl Error {
    /// tag a failed syscall with the op that failed
    pub fn sys(op: &str, errno: i32) -> (e: Error)
        ensures
            e@ == (ErrorView::Sys { op: op@, errno: errno as int }),
    {
        Error::Sys { op: String::from_str(op), errno }
    }

    /// the rendered message, as `Display` would write it
    pub fn message(&self) -> (s: String)
        ensures
            s@ == self@.message(),
    {
        match self {
            Error::Sys { op, errno } => {
                let mut s = concat(op.as_str(), " failed: errno ");
                let n = i32_to_dec(*errno);
                s.append(n.as_str());
                s
            },
            Error::UnknownLayer(n) => concat("unknown layer: ", n.as_str()),
            Error::NoHealthyLayer => String::from_str("no healthy layer to select"),
            Error::Corrupt { hash } => concat("corrupt object: ", hash.as_str()),
            Error::Config(m) => concat("config: ", m.as_str()),
            Error::Io(m) => concat("io: ", m.as_str()),
            Error::Init(m) => concat("init: ", m.as_str()),
            Error::Libc(m) => concat("libc: ", m.as_str()),
        }
    }

    /// whether the error carries an underlying os error as its cause: only a
    /// failed syscall does; string variants carry no structured cause
    pub fn has_source(&self) -> (b: bool)
        ensures
            b == (self is Sys),
    {
        match self {
            Error::Sys { .. } => true,
            _ => false,
        }
    }
}

} // verus!
