//! The failures that a list operation reports.

use vstd::prelude::*;

verus! {

/// Why an operation on a list did not go through.
#[derive(Debug, Clone, Copy, PartialEq, Eq, Structural)]
pub enum Error {
    /// The candidate is not an entry that the list takes. Nothing was read or
    /// written.
    InvalidDomain,
    /// The entry to add is in the list already. The file is as it was.
    AlreadyExists,
    /// The entry to remove is not in the list. The file is as it was.
    NotFound,
    /// The backing file could not be read or written, for another reason than
    /// that it does not exist.
    StoreFailure,
    /// The file was changed, but the resolver did not acknowledge the command
    /// that tells it so: what it filters by is older than the file.
    NotifyFailure,
}

impl Error {
    /// A short name of the failure, for a reply or a log line.
    pub fn as_str(&self) -> (name: &'static str)
        ensures
            name@ == self.name(),
    {
        match self {
            Error::InvalidDomain => "invalid_domain",
            Error::AlreadyExists => "already_exists",
            Error::NotFound => "not_found",
            Error::StoreFailure => "store_failure",
            Error::NotifyFailure => "notify_failure",
        }
    }

    /// What [`Error::as_str`] returns.
    pub open spec fn name(&self) -> Seq<char> {
        match self {
            Error::InvalidDomain => "invalid_domain"@,
            Error::AlreadyExists => "already_exists"@,
            Error::NotFound => "not_found"@,
            Error::StoreFailure => "store_failure"@,
            Error::NotifyFailure => "notify_failure"@,
        }
    }
}

/// What an operation tells its caller: nothing more where it went through, and
/// else why it did not.
pub type Reply = Result<(), Error>;

/// What [`status`] returns.
pub open spec fn spec_status(reply: Reply) -> Seq<char> {
    match reply {
        Ok(_) => "success"@,
        Err(e) => e.name(),
    }
}

/// The word for the outcome of an operation: `success`, or the name of the
/// failure.
pub fn status(reply: &Reply) -> (word: &'static str)
    ensures
        word@ == spec_status(*reply),
{
    match reply {
        Ok(_) => "success",
        Err(e) => e.as_str(),
    }
}

} // verus!
