//! What the resolver is told after a list has changed, and how its answer is
//! read.
//!
//! The resolver filters by what it has in memory. After a list file has
//! changed it is sent a command, and only when it has acknowledged the command
//! does it filter by the new file. Sending and receiving are the caller's; here
//! is which command to send and what counts as an acknowledgment.

use vstd::prelude::*;
use crate::util::Error;

verus! {

/// The byte with which the resolver ends a message.
pub const EOM: u8 = 0xc1;

/// A command to the resolver.
#[derive(Debug, Clone, Copy, PartialEq, Eq, Structural)]
pub enum Command {
    /// Load the lists of domains anew from their files.
    ReloadLists,
    /// Compile the list of patterns anew from its file.
    RecompileRegex,
}

impl Command {
    /// The command as the resolver knows it.
    pub open spec fn spec_name(&self) -> Seq<char> {
        match self {
            Command::ReloadLists => "reload-lists"@,
            Command::RecompileRegex => "recompile-regex"@,
        }
    }

    /// The command as the resolver knows it.
    pub fn name(&self) -> (name: &'static str)
        ensures
            name@ == self.spec_name(),
    {
        match self {
            Command::ReloadLists => "reload-lists",
            Command::RecompileRegex => "recompile-regex",
        }
    }
}

/// What came back after a command was sent.
#[derive(Debug)]
pub enum Answer {
    /// Nothing: the resolver could not be reached, the connection broke, or
    /// the time allowed ran out.
    Failed,
    /// These bytes.
    Data(Vec<u8>),
}

impl Answer {
    /// Whether the answer acknowledges the command. The commands here are
    /// answered with no data, so the end of the message comes first.
    pub open spec fn acknowledges(&self) -> bool {
        match self {
            Answer::Failed => false,
            Answer::Data(bytes) => bytes@.len() > 0 && bytes@[0] == EOM,
        }
    }

    /// Reads the answer to a command: it either ends the message, or the
    /// resolver has not taken the change.
    pub fn expect_eom(&self) -> (r: Result<(), Error>)
        ensures
            self.acknowledges() ==> r == Ok::<(), Error>(()),
            !self.acknowledges() ==> r == Err::<(), Error>(Error::NotifyFailure),
    {
        match self {
            Answer::Failed => Err(Error::NotifyFailure),
            Answer::Data(bytes) => {
                if bytes.len() > 0 && bytes[0] == EOM {
                    Ok(())
                } else {
                    Err(Error::NotifyFailure)
                }
            },
        }
    }
}

} // verus!
