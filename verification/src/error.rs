//! The two error kinds the facade reports. Every failure is carried as a
//! human-readable message and collapses to that plain string at the boundary
//! to the host shell.
use vstd::prelude::*;

verus! {

/// An operation's failure: an `Io` failure of the underlying filesystem
/// call, or a `Config` failure when the environment cannot supply a
/// required default (the documents directory).
pub enum FsError {
    Io(String),
    Config(String),
}

impl FsError {
    /// The message the error carries.
    pub open spec fn text(self) -> Seq<char> {
        match self {
            FsError::Io(m) => m@,
            FsError::Config(m) => m@,
        }
    }

    /// The plain string handed to the host shell.
    pub fn message(&self) -> (m: String)
        ensures
            m@ == self.text(),
    {
        match self {
            FsError::Io(m) => m.clone(),
            FsError::Config(m) => m.clone(),
        }
    }
}

} // verus!
