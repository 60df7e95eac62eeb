//! List structure and operations for DNS endpoints
//!
//! An entry is in a list when one of the file's entries is the same text,
//! byte for byte: no letter is folded and no dot dropped before two entries
//! are compared.

use vstd::prelude::*;
use vstd::utf8::encode_utf8;
use crate::dns::common::{
    is_valid_domain, is_valid_regex, lemma_domain_reads_back, regex_compiles, valid_domain,
};
use crate::ftl::Command;
use crate::lines::rules::{
    ends_lines, lemma_entries_among, lemma_entries_are_lines, lemma_entries_of_text,
    lemma_entries_with_line, lemma_one_line, lemma_without, lemma_written_then_read, one_line,
    reads_back,
};
use crate::lines::{
    bytes_of, chomped, contains_entry, entries_of, line_of, remove_entry, text_of, without, CR, LF,
};
use crate::store::{FileView, PiholeFile, Store};
use crate::utf8::lemma_ascii_push;
use crate::util::Error;

verus! {

/// The three lists.
#[derive(Debug, Clone, Copy, PartialEq, Eq, Structural)]
pub enum List {
    /// Domains that are let through.
    White,
    /// Domains that are blocked.
    Black,
    /// Patterns of domains that are blocked.
    Regex,
}

/// What adding `entry` makes of a list's `file`, given whether the list
/// accepts the entry: the text that the file holds afterwards, which is the
/// old one and a line with the entry behind it; or why nothing is added.
pub open spec fn added(accepted: bool, file: FileView, entry: Seq<u8>) -> Result<Seq<u8>, Error> {
    if !accepted {
        Err(Error::InvalidDomain)
    } else if file is Unreadable {
        Err(Error::StoreFailure)
    } else if file.entries().contains(entry) {
        Err(Error::AlreadyExists)
    } else {
        Ok(file.text() + line_of(entry))
    }
}

/// What removing `entry` makes of a list's `file`, given whether the list
/// accepts the entry: the text that the file holds afterwards, which is the
/// entries that it held, in their order, but for those that are `entry`; or
/// why nothing is removed.
pub open spec fn removed(accepted: bool, file: FileView, entry: Seq<u8>) -> Result<
    Seq<u8>,
    Error,
> {
    if !accepted {
        Err(Error::InvalidDomain)
    } else if file is Unreadable {
        Err(Error::StoreFailure)
    } else if !file.entries().contains(entry) {
        Err(Error::NotFound)
    } else {
        Ok(text_of(without(file.entries(), entry)))
    }
}

/// What `try_remove` makes of a list's `file`: the file afterwards, or why the
/// call fails. Where the entry is not in the list the file stays as it is.
pub open spec fn try_removed(accepted: bool, file: FileView, entry: Seq<u8>) -> Result<
    FileView,
    Error,
> {
    match removed(accepted, file, entry) {
        Ok(text) => Ok(FileView::Present(text)),
        Err(Error::NotFound) => Ok(file),
        Err(e) => Err(e),
    }
}

impl List {
    /// The file behind the list.
    pub open spec fn spec_file(&self) -> PiholeFile {
        match self {
            List::White => PiholeFile::Whitelist,
            List::Black => PiholeFile::Blacklist,
            List::Regex => PiholeFile::Regexlist,
        }
    }

    /// Get the associated `PiholeFile`
    #[verifier::when_used_as_spec(spec_file)]
    pub fn file(&self) -> (file: PiholeFile)
        ensures
            file == self.spec_file(),
    {
        match *self {
            List::White => PiholeFile::Whitelist,
            List::Black => PiholeFile::Blacklist,
            List::Regex => PiholeFile::Regexlist,
        }
    }

    /// The command that makes the resolver take up a change of the list.
    pub open spec fn spec_command(&self) -> Command {
        match self {
            List::Regex => Command::RecompileRegex,
            _ => Command::ReloadLists,
        }
    }

    /// The command that makes the resolver take up a change of the list: the
    /// patterns are compiled anew by themselves, the lists of domains are
    /// loaded anew together.
    #[verifier::when_used_as_spec(spec_command)]
    pub fn command(&self) -> (command: Command)
        ensures
            command == self.spec_command(),
    {
        match *self {
            List::Regex => Command::RecompileRegex,
            _ => Command::ReloadLists,
        }
    }

    /// Whether the list takes `domain` as an entry: the list of patterns takes
    /// what compiles as one, the other two take domain names.
    pub open spec fn spec_accepts(&self, domain: Seq<char>) -> bool {
        match self {
            List::Regex => regex_compiles(domain),
            _ => valid_domain(encode_utf8(domain)),
        }
    }

    /// Check if the list accepts the domain as valid
    pub fn accepts(&self, domain: &str) -> (ok: bool)
        ensures
            ok == self.spec_accepts(domain@),
    {
        match *self {
            List::Regex => is_valid_regex(domain),
            _ => is_valid_domain(domain),
        }
    }

    /// Read in the domains from the list
    pub fn get(&self, store: &Store) -> (r: Result<Vec<String>, Error>)
        ensures
            match store@[self.file()] {
                FileView::Unreadable => r matches Err(e) && e == Error::StoreFailure,
                held => r matches Ok(domains) && bytes_of(domains@) == held.entries()
                    && domains@.len() == held.entries().len(),
            },
    {
        store.read(self.file())
    }

    /// Whether a domain is in the list
    pub fn contains(&self, domain: &str, store: &Store) -> (r: Result<bool, Error>)
        ensures
            match store@[self.file()] {
                FileView::Unreadable => r matches Err(e) && e == Error::StoreFailure,
                held => r matches Ok(found) && found == held.entries().contains(
                    encode_utf8(domain@),
                ),
            },
    {
        Ok(contains_entry(&self.get(store)?, domain))
    }

    /// Add a domain to the list
    pub fn add(&self, domain: &str, store: &mut Store) -> (r: Result<(), Error>)
        ensures
            match added(
                self.spec_accepts(domain@),
                old(store)@[self.file()],
                encode_utf8(domain@),
            ) {
                Ok(text) => r == Ok::<(), Error>(()) && final(store)@ == old(store)@.insert(
                    self.file(),
                    FileView::Present(text),
                ),
                Err(e) => r == Err::<(), Error>(e) && final(store)@ == old(store)@,
            },
    {
        // Check if it's a valid domain before doing anything
        self.add_given(self.accepts(domain), domain, store)
    }

    /// Add a domain to the list, given whether the list accepts it
    pub fn add_given(&self, accepted: bool, domain: &str, store: &mut Store) -> (r: Result<
        (),
        Error,
    >)
        ensures
            match added(accepted, old(store)@[self.file()], encode_utf8(domain@)) {
                Ok(text) => r == Ok::<(), Error>(()) && final(store)@ == old(store)@.insert(
                    self.file(),
                    FileView::Present(text),
                ),
                Err(e) => r == Err::<(), Error>(e) && final(store)@ == old(store)@,
            },
    {
        if !accepted {
            return Err(Error::InvalidDomain);
        }
        // Check if the domain is already in the list
        if self.contains(domain, store)? {
            return Err(Error::AlreadyExists);
        }
        // Add the domain to the end of the list's file (which then exists)
        store.append(self.file(), domain)
    }

    /// Try to remove a domain from the list, but it is not an error if the domain does not exist
    pub fn try_remove(&self, domain: &str, store: &mut Store) -> (r: Result<(), Error>)
        ensures
            match try_removed(
                self.spec_accepts(domain@),
                old(store)@[self.file()],
                encode_utf8(domain@),
            ) {
                Ok(file) => r == Ok::<(), Error>(()) && final(store)@ == old(store)@.insert(
                    self.file(),
                    file,
                ),
                Err(e) => r == Err::<(), Error>(e) && final(store)@ == old(store)@,
            },
    {
        self.try_remove_given(self.accepts(domain), domain, store)
    }

    /// Try to remove a domain from the list, given whether the list accepts it
    pub fn try_remove_given(&self, accepted: bool, domain: &str, store: &mut Store) -> (r: Result<
        (),
        Error,
    >)
        ensures
            match try_removed(accepted, old(store)@[self.file()], encode_utf8(domain@)) {
                Ok(file) => r == Ok::<(), Error>(()) && final(store)@ == old(store)@.insert(
                    self.file(),
                    file,
                ),
                Err(e) => r == Err::<(), Error>(e) && final(store)@ == old(store)@,
            },
    {
        match self.remove_given(accepted, domain, store) {
            // Pass through successful results
            Ok(ok) => Ok(ok),
            Err(e) => {
                // Ignore NotFound errors
                if e == Error::NotFound {
                    Ok(())
                } else {
                    Err(e)
                }
            },
        }
    }

    /// Remove a domain from the list
    pub fn remove(&self, domain: &str, store: &mut Store) -> (r: Result<(), Error>)
        ensures
            match removed(
                self.spec_accepts(domain@),
                old(store)@[self.file()],
                encode_utf8(domain@),
            ) {
                Ok(text) => r == Ok::<(), Error>(()) && final(store)@ == old(store)@.insert(
                    self.file(),
                    FileView::Present(text),
                ),
                Err(e) => r == Err::<(), Error>(e) && final(store)@ == old(store)@,
            },
    {
        // Check if it's a valid domain before doing anything
        self.remove_given(self.accepts(domain), domain, store)
    }

    /// Remove a domain from the list, given whether the list accepts it
    pub fn remove_given(&self, accepted: bool, domain: &str, store: &mut Store) -> (r: Result<
        (),
        Error,
    >)
        ensures
            match removed(accepted, old(store)@[self.file()], encode_utf8(domain@)) {
                Ok(text) => r == Ok::<(), Error>(()) && final(store)@ == old(store)@.insert(
                    self.file(),
                    FileView::Present(text),
                ),
                Err(e) => r == Err::<(), Error>(e) && final(store)@ == old(store)@,
            },
    {
        if !accepted {
            return Err(Error::InvalidDomain);
        }
        // Check if the domain is not in the list
        let domains = self.get(store)?;
        if !contains_entry(&domains, domain) {
            return Err(Error::NotFound);
        }
        // Write the file anew with all the domains except the one we're
        // deleting
        store.rewrite(self.file(), &remove_entry(domains, domain))
    }
}

impl List {
    /// No two lists share a file.
    pub proof fn lemma_files_apart(&self, other: List)
        ensures
            self.file() == other.file() <==> *self == other,
    {
    }

    /// `try_remove` fails only where the list does not take the candidate or
    /// the file cannot be read; and where it has not failed, it does not fail
    /// when it is called again on the file that it has left, whether the entry
    /// had been in the list or not.
    pub proof fn lemma_try_remove_twice(&self, file: FileView, domain: Seq<char>)
        ensures
            try_removed(self.spec_accepts(domain), file, encode_utf8(domain)) is Ok
                <==> self.spec_accepts(domain) && !(file is Unreadable),
            try_removed(self.spec_accepts(domain), file, encode_utf8(domain)) matches Ok(after)
                ==> try_removed(self.spec_accepts(domain), after, encode_utf8(domain)) is Ok,
    {
    }

    /// After an entry was added, the list holds what it held and the entry
    /// behind it, so that the entry is there once; adding it again fails with
    /// `AlreadyExists`; and a list in which no entry occurred twice is still
    /// such a list.
    ///
    /// This is so where each line of the file had its line feed, and where the
    /// entry is read back from its line as it is: that holds of every domain
    /// name, and of a pattern that is not empty, holds no line feed and does
    /// not end in a carriage return.
    pub proof fn lemma_add_then_get(&self, file: FileView, domain: Seq<char>)
        requires
            self.spec_accepts(domain),
            added(true, file, encode_utf8(domain)) is Ok,
            ends_lines(file.text()),
            *self == List::Regex ==> one_line(domain),
        ensures
            added(true, file, encode_utf8(domain)) matches Ok(text) && {
                &&& entries_of(text) == file.entries().push(encode_utf8(domain))
                &&& entries_of(text).to_multiset().count(encode_utf8(domain)) == 1
                &&& added(true, FileView::Present(text), encode_utf8(domain)) == Err::<
                    Seq<u8>,
                    Error,
                >(Error::AlreadyExists)
                &&& file.entries().no_duplicates() ==> entries_of(text).no_duplicates()
            },
    {
        let entry = encode_utf8(domain);
        if *self == List::Regex {
            lemma_one_line(domain);
        } else {
            lemma_domain_reads_back(domain);
        }
        lemma_entries_with_line(file.text(), entry);
        if !(file is Present) {
            lemma_entries_of_text(Seq::empty());
            assert(text_of(Seq::empty()) == Seq::<u8>::empty());
        }
        let after = entries_of(file.text() + line_of(entry));
        assert(after == file.entries().push(entry));
        file.entries().to_multiset_ensures();
        assert(after.last() == entry);
    }

    /// After an entry was removed, the list does not hold it.
    ///
    /// This is so unless the list held the entry with a carriage return behind
    /// it as well: that one stays, and is read back from its line without the
    /// carriage return.
    pub proof fn lemma_remove_then_get(&self, file: FileView, domain: Seq<char>)
        requires
            removed(true, file, encode_utf8(domain)) is Ok,
            !file.entries().contains(encode_utf8(domain.push('\r'))),
        ensures
            removed(true, file, encode_utf8(domain)) matches Ok(text) && !entries_of(
                text,
            ).contains(encode_utf8(domain)),
    {
        let entry = encode_utf8(domain);
        let held = file.entries();
        let kept = without(held, entry);
        let after = entries_of(text_of(kept));
        lemma_ascii_push(domain, CR);
        assert(CR as char == '\r');
        lemma_entries_are_lines(file.text());
        lemma_without(held, entry);
        assert forall|i: int| 0 <= i < kept.len() implies !(#[trigger] kept[i]).contains(LF) by {
            let k = choose|k: int| 0 <= k < held.len() && held[k] == kept[i];
        }
        lemma_entries_of_text(kept);
        lemma_entries_among(chomped(kept));
        if after.contains(entry) {
            let i = choose|i: int| 0 <= i < after.len() && after[i] == entry;
            let j = choose|j: int| 0 <= j < kept.len() && chomped(kept)[j] == after[i];
            assert(kept[j] == entry.push(CR));
        }
    }

    /// After an entry was removed from a list none of whose entries ends in a
    /// carriage return, the list holds what it held but for that entry, in
    /// the same order.
    pub proof fn lemma_remove_keeps_the_rest(&self, file: FileView, domain: Seq<char>)
        requires
            removed(true, file, encode_utf8(domain)) is Ok,
            forall|i: int|
                0 <= i < file.entries().len() ==> (#[trigger] file.entries()[i]).last() != CR,
        ensures
            removed(true, file, encode_utf8(domain)) matches Ok(text) && entries_of(text)
                == without(file.entries(), encode_utf8(domain)),
    {
        let held = file.entries();
        let kept = without(held, encode_utf8(domain));
        lemma_entries_are_lines(file.text());
        lemma_without(held, encode_utf8(domain));
        assert forall|i: int| 0 <= i < kept.len() implies reads_back(#[trigger] kept[i]) by {
            let k = choose|k: int| 0 <= k < held.len() && held[k] == kept[i];
        }
        lemma_written_then_read(kept);
    }
}

} // verus!
