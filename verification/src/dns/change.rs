//! A change of a list, from the request to the resolver's answer.
//!
//! A change decides three times, and between two decisions the caller does
//! what was decided: it reads the list's file, it writes to the file, it sends
//! the resolver its command. Each stage is a value that the next step uses up,
//! so that the steps are taken in this order and each once: no file is read
//! for a candidate that the list does not take, nothing is written when there
//! is nothing to change, and the resolver is told of a change once, and only
//! when the file holds it.

use vstd::pervasive::unreached;
use vstd::prelude::*;
use vstd::utf8::encode_utf8;
use crate::dns::list::{added, removed, List};
use crate::ftl::{Answer, Command};
use crate::lines::{line_of, push_line};
use crate::store::{FileState, FileView, PiholeFile, Store};
use crate::util::Error;

verus! {

/// What is done to a list.
#[derive(Debug, Clone, Copy, PartialEq, Eq, Structural)]
pub enum Change {
    /// An entry is added.
    Add,
    /// An entry is removed.
    Remove,
}

/// What the change makes of a list's `file`, for an entry that the list
/// accepts: the text that the file holds afterwards, or why nothing changes.
pub open spec fn changed(change: Change, file: FileView, entry: Seq<u8>) -> Result<
    Seq<u8>,
    Error,
> {
    match change {
        Change::Add => added(true, file, entry),
        Change::Remove => removed(true, file, entry),
    }
}

/// The bytes that are written for a change that leaves `text` in the file: to
/// add an entry, its line; to remove one, the whole text.
pub open spec fn written_for(change: Change, entry: Seq<u8>, text: Seq<u8>) -> Seq<u8> {
    match change {
        Change::Add => line_of(entry),
        Change::Remove => text,
    }
}

/// A change that waits for the list's file to be read.
#[derive(Debug)]
pub struct Reading {
    list: List,
    change: Change,
    domain: String,
}

/// A change that waits for the file to be written.
#[derive(Debug)]
pub struct Writing {
    list: List,
    append: bool,
    bytes: Vec<u8>,
}

/// A change that waits for the resolver to acknowledge its command. The file
/// is written by now, whatever the resolver answers.
#[derive(Debug)]
pub struct Notifying {
    list: List,
}

/// Takes up a change of `list`, if the list accepts `domain`.
pub fn start(list: List, change: Change, domain: String) -> (r: Result<Reading, Error>)
    ensures
        list.spec_accepts(domain@) ==> (r matches Ok(reading) && reading.list() == list
            && reading.change() == change && reading.domain() == domain@),
        !list.spec_accepts(domain@) ==> (r matches Err(e) && e == Error::InvalidDomain),
{
    // Check if it's a valid domain before doing anything
    if !list.accepts(domain.as_str()) {
        return Err(Error::InvalidDomain);
    }
    Ok(Reading { list, change, domain })
}

impl Reading {
    /// The list that is changed.
    pub closed spec fn list(self) -> List {
        self.list
    }

    /// What is done to the list.
    pub closed spec fn change(self) -> Change {
        self.change
    }

    /// The entry that is added or removed.
    pub closed spec fn domain(self) -> Seq<char> {
        self.domain@
    }

    /// The file to read.
    pub fn file(&self) -> (file: PiholeFile)
        ensures
            file == self.list().file(),
    {
        self.list.file()
    }

    /// Takes what was read, and decides what to write: to add an entry, a line
    /// for the end of the file; to remove one, the whole text without it. Where
    /// nothing changes, or the file could not be read, the change ends here.
    pub fn read(self, file: FileState) -> (r: Result<Writing, Error>)
        ensures
            match changed(self.change(), file@, encode_utf8(self.domain())) {
                Ok(text) => r matches Ok(writing) && writing.list() == self.list()
                    && writing.appends() == (self.change() == Change::Add)
                    && writing.data() == written_for(
                    self.change(),
                    encode_utf8(self.domain()),
                    text,
                ) && writing.text_after(file@.text()) == text,
                Err(e) => r matches Err(failure) && failure == e,
            },
    {
        let mut store = Store::new();
        store.put(self.list.file(), file);
        match self.change {
            Change::Add => {
                // Check if the domain is already in the list
                if self.list.contains(self.domain.as_str(), &store)? {
                    return Err(Error::AlreadyExists);
                }
                let mut line: Vec<u8> = Vec::new();
                push_line(&mut line, self.domain.as_str());
                Ok(Writing { list: self.list, append: true, bytes: line })
            },
            Change::Remove => {
                self.list.remove_given(true, self.domain.as_str(), &mut store)?;
                match store.put(self.list.file(), FileState::Missing) {
                    FileState::Present(text) => Ok(
                        Writing { list: self.list, append: false, bytes: text },
                    ),
                    _ => unreached(),
                }
            },
        }
    }
}

impl Writing {
    /// The list that is changed.
    pub closed spec fn list(self) -> List {
        self.list
    }

    /// Whether the bytes go to the end of the file, rather than in the place
    /// of what it holds.
    pub closed spec fn appends(self) -> bool {
        self.append
    }

    /// The bytes to write.
    pub closed spec fn data(self) -> Seq<u8> {
        self.bytes@
    }

    /// What the file holds once the bytes are written, where it held `before`.
    pub open spec fn text_after(self, before: Seq<u8>) -> Seq<u8> {
        if self.appends() {
            before + self.data()
        } else {
            self.data()
        }
    }

    /// The file to write.
    pub fn file(&self) -> (file: PiholeFile)
        ensures
            file == self.list().file(),
    {
        self.list.file()
    }

    /// Whether to write at the end of the file, which is made if it does not
    /// exist. Otherwise the bytes come in the place of what the file holds,
    /// whole or not at all.
    pub fn append(&self) -> (append: bool)
        ensures
            append == self.appends(),
    {
        self.append
    }

    /// The bytes to write.
    pub fn bytes(&self) -> (bytes: &[u8])
        ensures
            bytes@ == self.data(),
    {
        self.bytes.as_slice()
    }

    /// Takes whether the bytes were written. Where they were not, the change
    /// ends here and the resolver is left alone.
    pub fn written(self, ok: bool) -> (r: Result<Notifying, Error>)
        ensures
            ok ==> (r matches Ok(notifying) && notifying.list() == self.list()),
            !ok ==> (r matches Err(e) && e == Error::StoreFailure),
    {
        if ok {
            Ok(Notifying { list: self.list })
        } else {
            Err(Error::StoreFailure)
        }
    }
}

impl Notifying {
    /// The list that was changed.
    pub closed spec fn list(self) -> List {
        self.list
    }

    /// The command to send.
    pub fn command(&self) -> (command: Command)
        ensures
            command == self.list().command(),
    {
        self.list.command()
    }

    /// Takes the resolver's answer. Where it does not acknowledge the command,
    /// the file has changed and the resolver does not know.
    pub fn answered(self, answer: &Answer) -> (r: Result<(), Error>)
        ensures
            answer.acknowledges() ==> r == Ok::<(), Error>(()),
            !answer.acknowledges() ==> r == Err::<(), Error>(Error::NotifyFailure),
    {
        answer.expect_eom()
    }
}

} // verus!
