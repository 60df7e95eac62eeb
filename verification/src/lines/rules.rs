//! What is read back from a text that was written.
//!
//! Writing and reading are not each other's inverse on every text. A line
//! that is written behind a line without a line feed lengthens that line; a
//! carriage return at the end of an entry is taken for a part of the line's
//! end when it is read again. Here is what holds, and on which texts.

use vstd::prelude::*;
use vstd::utf8::{encode_utf8, encode_utf8_valid_utf8};
use crate::lines::{
    chomp, chomped, entries_among, entries_of, is_entry, lemma_entries_among_push, line_of,
    lines_of, other_than, text_of, without, CR, LF,
};
use crate::split::{
    lemma_split_extend, lemma_split_last_empty, lemma_split_len, lemma_split_pieces, split,
};
use crate::utf8::lemma_ascii_byte;

verus! {

/// Whether every line of `text` has its line feed: the text is empty or ends
/// in one.
pub open spec fn ends_lines(text: Seq<u8>) -> bool {
    text.len() == 0 || text.last() == LF
}

/// Whether `entry`, written on a line, is read back as it is: it is an entry,
/// holds no line feed, and does not end in a carriage return.
pub open spec fn reads_back(entry: Seq<u8>) -> bool {
    is_entry(entry) && !entry.contains(LF) && entry.last() != CR
}

/// Whether `text` is read back from a line as it is: it is not empty, holds no
/// line feed, and does not end in a carriage return.
pub open spec fn one_line(text: Seq<char>) -> bool {
    text.len() > 0 && !text.contains('\n') && text.last() != '\r'
}

/// A text is read back from a line as it is exactly when its bytes are.
pub proof fn lemma_one_line(text: Seq<char>)
    ensures
        one_line(text) <==> reads_back(encode_utf8(text)),
{
    encode_utf8_valid_utf8(text);
    lemma_ascii_byte(text, LF);
    lemma_ascii_byte(text, CR);
    assert(LF as char == '\n');
    assert(CR as char == '\r');
}

/// What [`entries_among`] keeps: lines that hold an entry.
pub proof fn lemma_entries_among(lines: Seq<Seq<u8>>)
    ensures
        forall|i: int|
            0 <= i < entries_among(lines).len() ==> is_entry(#[trigger] entries_among(lines)[i])
                && lines.contains(entries_among(lines)[i]),
{
    let kept = entries_among(lines);
    let keep = |line: Seq<u8>| is_entry(line);
    assert forall|i: int| 0 <= i < kept.len() implies is_entry(#[trigger] kept[i])
        && lines.contains(kept[i]) by {
        lines.lemma_filter_pred(keep, i);
        assert(kept.contains(kept[i]));
        lines.lemma_filter_contains_rev(keep, kept[i]);
    }
}

/// What [`without`] keeps: entries of the list, none of which is `entry`.
pub proof fn lemma_without(entries: Seq<Seq<u8>>, entry: Seq<u8>)
    ensures
        forall|i: int|
            0 <= i < without(entries, entry).len() ==> (#[trigger] without(entries, entry)[i])
                != entry && entries.contains(without(entries, entry)[i]),
{
    let kept = without(entries, entry);
    let differs = other_than(entry);
    assert forall|i: int| 0 <= i < kept.len() implies (#[trigger] kept[i]) != entry
        && entries.contains(kept[i]) by {
        entries.lemma_filter_pred(differs, i);
        assert(kept.contains(kept[i]));
        entries.lemma_filter_contains_rev(differs, kept[i]);
    }
}

/// Every entry of a text is an entry and holds no line feed.
pub proof fn lemma_entries_are_lines(text: Seq<u8>)
    ensures
        forall|i: int|
            0 <= i < entries_of(text).len() ==> is_entry(#[trigger] entries_of(text)[i])
                && !entries_of(text)[i].contains(LF),
{
    let pieces = split(text, LF);
    let lines = lines_of(text);
    let entries = entries_of(text);
    lemma_split_len(text, LF);
    lemma_split_pieces(text, LF);
    lemma_entries_among(lines);
    assert forall|i: int| 0 <= i < entries.len() implies is_entry(#[trigger] entries[i])
        && !entries[i].contains(LF) by {
        let j = choose|j: int| 0 <= j < lines.len() && lines[j] == entries[i];
        if j < pieces.len() - 1 {
            assert(lines[j] == chomp(pieces[j]));
            assert(!pieces[j].contains(LF));
            if chomp(pieces[j]).contains(LF) {
                let k = choose|k: int| 0 <= k < chomp(pieces[j]).len() && chomp(pieces[j])[k] == LF;
                assert(pieces[j][k] == LF);
            }
        } else {
            assert(lines[j] == pieces[pieces.len() - 1]);
        }
    }
}

/// A line written behind a text whose lines are all ended adds what is read
/// back from it, and nothing else changes.
pub proof fn lemma_entries_with_line(text: Seq<u8>, entry: Seq<u8>)
    requires
        ends_lines(text),
        !entry.contains(LF),
    ensures
        ends_lines(text + line_of(entry)),
        entries_of(text + line_of(entry)) == if is_entry(chomp(entry)) {
            entries_of(text).push(chomp(entry))
        } else {
            entries_of(text)
        },
{
    let pieces = split(text, LF);
    let longer = text + line_of(entry);
    lemma_split_last_empty(text, LF);
    lemma_split_extend(text, entry, LF);
    assert(longer.drop_last() == text + entry);
    assert(pieces.last() + entry == entry);
    let closed = pieces.drop_last().push(entry);
    assert(split(longer, LF) == closed.push(Seq::empty()));
    assert(closed.push(Seq::<u8>::empty()).drop_last() == closed);
    assert(chomped(closed) == chomped(pieces.drop_last()).push(chomp(entry)));
    lemma_entries_among_push(chomped(closed), Seq::empty());
    lemma_entries_among_push(chomped(pieces.drop_last()), chomp(entry));
    lemma_entries_among_push(chomped(pieces.drop_last()), Seq::empty());
}

/// What is read from the text that was written for `entries`: each of them as
/// it is read back from its line.
pub proof fn lemma_entries_of_text(entries: Seq<Seq<u8>>)
    requires
        forall|i: int| 0 <= i < entries.len() ==> !(#[trigger] entries[i]).contains(LF),
    ensures
        ends_lines(text_of(entries)),
        entries_of(text_of(entries)) == entries_among(chomped(entries)),
    decreases entries.len(),
{
    if entries.len() == 0 {
        reveal(Seq::filter);
        assert(split(Seq::<u8>::empty(), LF) == seq![Seq::<u8>::empty()]);
        assert(lines_of(Seq::<u8>::empty()) == seq![Seq::<u8>::empty()]);
        assert(seq![Seq::<u8>::empty()].drop_last() == Seq::<Seq<u8>>::empty());
        assert(chomped(entries) == Seq::<Seq<u8>>::empty());
        lemma_entries_among_push(Seq::empty(), Seq::empty());
        assert(Seq::<Seq<u8>>::empty().push(Seq::<u8>::empty()) == seq![Seq::<u8>::empty()]);
    } else {
        let front = entries.drop_last();
        lemma_entries_of_text(front);
        lemma_entries_with_line(text_of(front), entries.last());
        assert(chomped(entries) == chomped(front).push(chomp(entries.last())));
        lemma_entries_among_push(chomped(front), chomp(entries.last()));
    }
}

/// Entries that are each read back as they are, are read back as they were
/// written, all of them and in their order.
pub proof fn lemma_written_then_read(entries: Seq<Seq<u8>>)
    requires
        forall|i: int| 0 <= i < entries.len() ==> reads_back(#[trigger] entries[i]),
    ensures
        entries_of(text_of(entries)) == entries,
    decreases entries.len(),
{
    lemma_entries_of_text(entries);
    assert(chomped(entries) == entries);
    if entries.len() == 0 {
        reveal(Seq::filter);
    } else {
        let front = entries.drop_last();
        lemma_written_then_read(front);
        lemma_entries_of_text(front);
        assert(chomped(front) == front);
        assert(entries == front.push(entries.last()));
        lemma_entries_among_push(front, entries.last());
    }
}

} // verus!
