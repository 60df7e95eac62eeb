//! The text of a list file: one entry per line.
//!
//! A file is read as bytes. A line feed ends a line, and a carriage return
//! just before it goes with it. What is left of a line is an entry when it is
//! not empty and is valid UTF-8; other lines are passed over. Nothing is
//! trimmed and nothing dropped for being there twice. Writing puts each entry
//! down followed by a line feed.

use vstd::prelude::*;
use vstd::slice::{slice_subrange, slice_to_vec};
use vstd::utf8::{encode_utf8, valid_utf8};
use crate::split::{lemma_split_next, split};
use crate::utf8::lemma_same_bytes;
use std::string::FromUtf8Error;

pub mod rules;

verus! {

/// The error type of [`String::from_utf8`]. Nothing is read from it.
#[verifier::external_type_specification]
#[verifier::external_body]
pub struct ExFromUtf8Error(FromUtf8Error);

/// `String::from_utf8` takes the bytes as a string exactly when they are valid
/// UTF-8, and the string then holds those bytes and no others.
pub assume_specification[ String::from_utf8 ](vec: Vec<u8>) -> (text: Result<String, FromUtf8Error>)
    ensures
        text is Ok <==> valid_utf8(vec@),
        text matches Ok(s) ==> encode_utf8(s@) == vec@,
;

/// The byte that ends a line.
pub const LF: u8 = 0x0a;

/// The byte that, just before a line feed, goes with the line's end.
pub const CR: u8 = 0x0d;

/// `line` without the carriage return at its end, if it has one.
pub open spec fn chomp(line: Seq<u8>) -> Seq<u8> {
    if line.len() > 0 && line.last() == CR {
        line.drop_last()
    } else {
        line
    }
}

/// Each of `pieces` without the carriage return at its end.
pub open spec fn chomped(pieces: Seq<Seq<u8>>) -> Seq<Seq<u8>> {
    pieces.map_values(|piece: Seq<u8>| chomp(piece))
}

/// The lines of `text`. What follows the last line feed is a line too, taken
/// as it is, since no line feed ends it.
pub open spec fn lines_of(text: Seq<u8>) -> Seq<Seq<u8>> {
    let pieces = split(text, LF);
    chomped(pieces.drop_last()).push(pieces.last())
}

/// Whether a line holds an entry.
pub open spec fn is_entry(line: Seq<u8>) -> bool {
    line.len() > 0 && valid_utf8(line)
}

/// Those of `lines` that hold an entry, in their order.
pub open spec fn entries_among(lines: Seq<Seq<u8>>) -> Seq<Seq<u8>> {
    lines.filter(|line: Seq<u8>| is_entry(line))
}

/// The entries that a file with this text holds, in their order, each as its
/// bytes.
pub open spec fn entries_of(text: Seq<u8>) -> Seq<Seq<u8>> {
    entries_among(lines_of(text))
}

/// The bytes of each string.
pub open spec fn bytes_of(strings: Seq<String>) -> Seq<Seq<u8>> {
    strings.map_values(|s: String| encode_utf8(s@))
}

/// The line that holds `entry`.
pub open spec fn line_of(entry: Seq<u8>) -> Seq<u8> {
    entry.push(LF)
}

/// The text that holds `entries`, one on each line.
pub open spec fn text_of(entries: Seq<Seq<u8>>) -> Seq<u8>
    decreases entries.len(),
{
    if entries.len() == 0 {
        Seq::empty()
    } else {
        text_of(entries.drop_last()) + line_of(entries.last())
    }
}

/// The test that an entry is another than `entry`.
pub open spec fn other_than(entry: Seq<u8>) -> spec_fn(Seq<u8>) -> bool {
    |e: Seq<u8>| e != entry
}

/// `entries` without those that are `entry`, the others in their order.
pub open spec fn without(entries: Seq<Seq<u8>>, entry: Seq<u8>) -> Seq<Seq<u8>> {
    entries.filter(other_than(entry))
}

/// One more line is one more entry, or none.
pub proof fn lemma_entries_among_push(lines: Seq<Seq<u8>>, line: Seq<u8>)
    ensures
        entries_among(lines.push(line)) == if is_entry(line) {
            entries_among(lines).push(line)
        } else {
            entries_among(lines)
        },
{
    reveal(Seq::filter);
    assert(lines.push(line).drop_last() == lines);
}

/// Reads the entries of a list file from its bytes.
pub fn read_entries(text: &[u8]) -> (entries: Vec<String>)
    ensures
        bytes_of(entries@) == entries_of(text@),
        entries@.len() == entries_of(text@).len(),
{
    let mut entries: Vec<String> = Vec::new();
    // Where the line begins that `i` is in
    let mut start: usize = 0;
    let mut i: usize = 0;
    proof {
        assert(text@.take(0) == Seq::<u8>::empty());
        assert(text@.subrange(0, 0) == Seq::<u8>::empty());
        assert(split(text@.take(0), LF).drop_last() == Seq::<Seq<u8>>::empty());
        assert(chomped(Seq::<Seq<u8>>::empty()) == Seq::<Seq<u8>>::empty());
        reveal(Seq::filter);
        assert(bytes_of(entries@) == Seq::<Seq<u8>>::empty());
    }
    while i < text.len()
        invariant
            start <= i <= text.len(),
            split(text@.take(i as int), LF).len() >= 1,
            split(text@.take(i as int), LF).last() == text@.subrange(start as int, i as int),
            bytes_of(entries@) == entries_among(
                chomped(split(text@.take(i as int), LF).drop_last()),
            ),
        decreases text.len() - i,
    {
        let ghost pieces = split(text@.take(i as int), LF);
        let ghost piece = text@.subrange(start as int, i as int);
        proof {
            lemma_split_next(text@, LF, i as int);
        }
        if text[i] == LF {
            let end = if start < i && text[i - 1] == CR {
                i - 1
            } else {
                i
            };
            assert(text@.subrange(start as int, end as int) == chomp(piece));
            let ghost before = entries@;
            if start < end {
                let line = slice_to_vec(slice_subrange(text, start, end));
                match String::from_utf8(line) {
                    Ok(entry) => {
                        entries.push(entry);
                        assert(bytes_of(entries@) == bytes_of(before).push(chomp(piece)));
                    },
                    Err(_) => {},
                }
            }
            proof {
                let closed = pieces.push(Seq::empty());
                assert(closed.drop_last() == pieces);
                assert(pieces == pieces.drop_last().push(piece));
                assert(chomped(pieces) == chomped(pieces.drop_last()).push(chomp(piece)));
                lemma_entries_among_push(chomped(pieces.drop_last()), chomp(piece));
                assert(text@.subrange(i + 1, i + 1) == Seq::<u8>::empty());
            }
            start = i + 1;
        } else {
            proof {
                let longer = pieces.drop_last().push(piece.push(text@[i as int]));
                assert(longer.drop_last() == pieces.drop_last());
                assert(piece.push(text@[i as int]) == text@.subrange(start as int, i + 1));
            }
        }
        i += 1;
    }
    // What follows the last line feed
    assert(text@.take(i as int) == text@);
    let ghost pieces = split(text@, LF);
    let ghost before = entries@;
    if start < i {
        let line = slice_to_vec(slice_subrange(text, start, i));
        match String::from_utf8(line) {
            Ok(entry) => {
                entries.push(entry);
                assert(bytes_of(entries@) == bytes_of(before).push(pieces.last()));
            },
            Err(_) => {},
        }
    }
    proof {
        lemma_entries_among_push(chomped(pieces.drop_last()), pieces.last());
    }
    entries
}

/// Puts a line with `entry` at the end of `text`.
pub fn push_line(text: &mut Vec<u8>, entry: &str)
    ensures
        final(text)@ == old(text)@ + line_of(encode_utf8(entry@)),
{
    text.extend_from_slice(entry.as_bytes());
    text.push(LF);
}

/// Writes the text of a list file that holds `entries`.
pub fn write_entries(entries: &Vec<String>) -> (text: Vec<u8>)
    ensures
        text@ == text_of(bytes_of(entries@)),
{
    let mut text: Vec<u8> = Vec::new();
    let mut i: usize = 0;
    while i < entries.len()
        invariant
            i <= entries.len(),
            text@ == text_of(bytes_of(entries@).take(i as int)),
        decreases entries.len() - i,
    {
        proof {
            let done = bytes_of(entries@).take(i + 1);
            assert(done.drop_last() == bytes_of(entries@).take(i as int));
        }
        push_line(&mut text, entries[i].as_str());
        i += 1;
    }
    assert(bytes_of(entries@).take(i as int) == bytes_of(entries@));
    text
}

/// Whether `entry` is among `entries`, compared byte for byte.
pub fn contains_entry(entries: &Vec<String>, entry: &str) -> (found: bool)
    ensures
        found == bytes_of(entries@).contains(encode_utf8(entry@)),
{
    let wanted = entry.to_owned();
    let mut i: usize = 0;
    while i < entries.len()
        invariant
            i <= entries.len(),
            wanted@ == entry@,
            forall|j: int| 0 <= j < i ==> bytes_of(entries@)[j] != encode_utf8(entry@),
        decreases entries.len() - i,
    {
        proof {
            lemma_same_bytes(entries@[i as int]@, entry@);
        }
        if entries[i] == wanted {
            assert(bytes_of(entries@)[i as int] == encode_utf8(entry@));
            return true;
        }
        i += 1;
    }
    false
}

/// Takes every occurrence of `entry` out of `entries`.
pub fn remove_entry(entries: Vec<String>, entry: &str) -> (kept: Vec<String>)
    ensures
        bytes_of(kept@) == without(bytes_of(entries@), encode_utf8(entry@)),
{
    let unwanted = entry.to_owned();
    let mut kept: Vec<String> = Vec::new();
    let ghost all = bytes_of(entries@);
    proof {
        reveal(Seq::filter);
        assert(all.take(0) == Seq::<Seq<u8>>::empty());
        assert(bytes_of(kept@) == Seq::<Seq<u8>>::empty());
    }
    for item in it: entries
        invariant
            unwanted@ == entry@,
            all == bytes_of(it.seq()),
            bytes_of(kept@) == without(all.take(it.index() as int), encode_utf8(entry@)),
    {
        proof {
            reveal(Seq::filter);
            lemma_same_bytes(item@, entry@);
            assert(all.take(it.index() + 1).drop_last() == all.take(it.index() as int));
        }
        let ghost before = kept@;
        if item != unwanted {
            kept.push(item);
            assert(bytes_of(kept@) == bytes_of(before).push(all[it.index() as int]));
        }
    }
    assert(all.take(all.len() as int) == all);
    kept
}

} // verus!
