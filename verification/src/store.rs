//! The list files as the operations see them: for each list what is in its
//! file, held in memory.
//!
//! The caller reads a file into the store before an operation and writes it
//! out afterwards. A file that could not be read is in the store as such, and
//! the operations fail on it. Reading takes a file as it is; appending and
//! rewriting say what it holds afterwards.

use vstd::prelude::*;
use vstd::utf8::encode_utf8;
use crate::lines::{bytes_of, entries_of, line_of, push_line, read_entries, text_of, write_entries};
use crate::util::Error;

verus! {

/// The file behind a list.
#[derive(Debug, Clone, Copy, PartialEq, Eq, Structural)]
pub enum PiholeFile {
    /// The domains that are let through.
    Whitelist,
    /// The domains that are blocked.
    Blacklist,
    /// The patterns of domains that are blocked.
    Regexlist,
}

/// What is known of one file.
#[derive(Debug)]
pub enum FileState {
    /// There is no such file: it was never written.
    Missing,
    /// The file exists and holds these bytes.
    Present(Vec<u8>),
    /// The file could not be read, for another reason than that it does not
    /// exist.
    Unreadable,
}

/// A [`FileState`] as the contracts speak of it.
pub enum FileView {
    /// There is no such file.
    Missing,
    /// The file holds these bytes.
    Present(Seq<u8>),
    /// The file could not be read.
    Unreadable,
}

impl View for FileState {
    type V = FileView;

    open spec fn view(&self) -> FileView {
        match self {
            FileState::Missing => FileView::Missing,
            FileState::Present(text) => FileView::Present(text@),
            FileState::Unreadable => FileView::Unreadable,
        }
    }
}

impl FileView {
    /// The bytes of the file, none where there is no file.
    pub open spec fn text(self) -> Seq<u8> {
        match self {
            FileView::Present(text) => text,
            _ => Seq::empty(),
        }
    }

    /// The entries that the file holds, none where there is no file.
    pub open spec fn entries(self) -> Seq<Seq<u8>> {
        match self {
            FileView::Present(text) => entries_of(text),
            _ => Seq::empty(),
        }
    }
}

/// The three list files.
#[derive(Debug)]
pub struct Store {
    pub whitelist: FileState,
    pub blacklist: FileState,
    pub regexlist: FileState,
}

impl View for Store {
    type V = Map<PiholeFile, FileView>;

    open spec fn view(&self) -> Map<PiholeFile, FileView> {
        Map::total(
            |file: PiholeFile|
                match file {
                    PiholeFile::Whitelist => self.whitelist@,
                    PiholeFile::Blacklist => self.blacklist@,
                    PiholeFile::Regexlist => self.regexlist@,
                },
        )
    }
}

impl Store {
    /// A store in which no file exists yet.
    pub fn new() -> (store: Store)
        ensures
            store@ == Map::total(|file: PiholeFile| FileView::Missing),
    {
        Store {
            whitelist: FileState::Missing,
            blacklist: FileState::Missing,
            regexlist: FileState::Missing,
        }
    }

    /// What is known of `file`.
    pub fn file(&self, file: PiholeFile) -> (state: &FileState)
        ensures
            state@ == self@[file],
    {
        match file {
            PiholeFile::Whitelist => &self.whitelist,
            PiholeFile::Blacklist => &self.blacklist,
            PiholeFile::Regexlist => &self.regexlist,
        }
    }

    /// Replaces what is known of `file`, and hands out what was known before.
    pub fn put(&mut self, file: PiholeFile, state: FileState) -> (before: FileState)
        ensures
            final(self)@ == old(self)@.insert(file, state@),
            before@ == old(self)@[file],
    {
        let mut state = state;
        match file {
            PiholeFile::Whitelist => std::mem::swap(&mut self.whitelist, &mut state),
            PiholeFile::Blacklist => std::mem::swap(&mut self.blacklist, &mut state),
            PiholeFile::Regexlist => std::mem::swap(&mut self.regexlist, &mut state),
        }
        state
    }

    /// Reads the entries of `file`. A file that does not exist holds none.
    pub fn read(&self, file: PiholeFile) -> (r: Result<Vec<String>, Error>)
        ensures
            match self@[file] {
                FileView::Unreadable => r matches Err(e) && e == Error::StoreFailure,
                held => r matches Ok(entries) && bytes_of(entries@) == held.entries()
                    && entries@.len() == held.entries().len(),
            },
    {
        match self.file(file) {
            FileState::Missing => Ok(Vec::new()),
            FileState::Present(text) => Ok(read_entries(text.as_slice())),
            FileState::Unreadable => Err(Error::StoreFailure),
        }
    }

    /// Puts a line with `entry` at the end of `file`, which then exists. Whether
    /// the entry is in the file already is not looked at.
    pub fn append(&mut self, file: PiholeFile, entry: &str) -> (r: Result<(), Error>)
        ensures
            match old(self)@[file] {
                FileView::Unreadable => r == Err::<(), Error>(Error::StoreFailure) && final(self)@
                    == old(self)@,
                before => r == Ok::<(), Error>(()) && final(self)@ == old(self)@.insert(
                    file,
                    FileView::Present(before.text() + line_of(encode_utf8(entry@))),
                ),
            },
    {
        match self.put(file, FileState::Missing) {
            FileState::Missing => {
                let mut text: Vec<u8> = Vec::new();
                push_line(&mut text, entry);
                self.put(file, FileState::Present(text));
                Ok(())
            },
            FileState::Present(text) => {
                let mut text = text;
                push_line(&mut text, entry);
                self.put(file, FileState::Present(text));
                Ok(())
            },
            FileState::Unreadable => {
                self.put(file, FileState::Unreadable);
                Err(Error::StoreFailure)
            },
        }
    }

    /// Replaces what `file` holds by `entries`, one on each line, in their
    /// order. The file then exists.
    pub fn rewrite(&mut self, file: PiholeFile, entries: &Vec<String>) -> (r: Result<(), Error>)
        ensures
            match old(self)@[file] {
                FileView::Unreadable => r == Err::<(), Error>(Error::StoreFailure) && final(self)@
                    == old(self)@,
                _ => r == Ok::<(), Error>(()) && final(self)@ == old(self)@.insert(
                    file,
                    FileView::Present(text_of(bytes_of(entries@))),
                ),
            },
    {
        match self.file(file) {
            FileState::Unreadable => Err(Error::StoreFailure),
            _ => {
                self.put(file, FileState::Present(write_entries(entries)));
                Ok(())
            },
        }
    }
}

} // verus!
