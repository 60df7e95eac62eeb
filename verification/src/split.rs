//! Cutting a text at a separator: a file into lines, a domain name into
//! labels.

use vstd::prelude::*;

verus! {

/// The pieces of `text` that lie between the occurrences of `sep`, empty ones
/// included: one more than there are separators.
///
/// Read from the left: the empty text is one empty piece; a separator closes
/// the last piece and opens an empty one; any other byte goes to the end of the
/// last piece.
pub open spec fn split(text: Seq<u8>, sep: u8) -> Seq<Seq<u8>>
    decreases text.len(),
{
    if text.len() == 0 {
        seq![Seq::empty()]
    } else {
        let before = split(text.drop_last(), sep);
        if text.last() == sep {
            before.push(Seq::empty())
        } else {
            before.drop_last().push(before.last().push(text.last()))
        }
    }
}

/// A text always splits into at least one piece.
pub proof fn lemma_split_len(text: Seq<u8>, sep: u8)
    ensures
        split(text, sep).len() >= 1,
    decreases text.len(),
{
    if text.len() > 0 {
        lemma_split_len(text.drop_last(), sep);
    }
}

/// How the pieces of the first `i + 1` bytes come from those of the first `i`.
pub proof fn lemma_split_next(text: Seq<u8>, sep: u8, i: int)
    requires
        0 <= i < text.len(),
    ensures
        split(text.take(i), sep).len() >= 1,
        split(text.take(i + 1), sep) == if text[i] == sep {
            split(text.take(i), sep).push(Seq::empty())
        } else {
            split(text.take(i), sep).drop_last().push(
                split(text.take(i), sep).last().push(text[i]),
            )
        },
{
    lemma_split_len(text.take(i), sep);
    assert(text.take(i + 1).drop_last() == text.take(i));
}

/// After the last separator of a text that ends in one, and in an empty text,
/// comes an empty piece.
pub proof fn lemma_split_last_empty(text: Seq<u8>, sep: u8)
    requires
        text.len() == 0 || text.last() == sep,
    ensures
        split(text, sep).len() >= 1,
        split(text, sep).last() == Seq::<u8>::empty(),
{
    lemma_split_len(text, sep);
}

/// Bytes without a separator, put behind a text, lengthen its last piece.
pub proof fn lemma_split_extend(text: Seq<u8>, tail: Seq<u8>, sep: u8)
    requires
        !tail.contains(sep),
    ensures
        split(text, sep).len() >= 1,
        split(text + tail, sep) == split(text, sep).drop_last().push(
            split(text, sep).last() + tail,
        ),
    decreases tail.len(),
{
    let pieces = split(text, sep);
    lemma_split_len(text, sep);
    if tail.len() == 0 {
        assert(text + tail == text);
        assert(pieces.last() + tail == pieces.last());
        assert(pieces.drop_last().push(pieces.last()) == pieces);
    } else {
        let shorter = tail.drop_last();
        assert(!shorter.contains(sep)) by {
            if shorter.contains(sep) {
                let i = choose|i: int| 0 <= i < shorter.len() && shorter[i] == sep;
                assert(tail[i] == sep);
            }
        }
        assert(tail.last() != sep) by {
            assert(tail[tail.len() - 1] == tail.last());
        }
        lemma_split_extend(text, shorter, sep);
        assert((text + tail).drop_last() == text + shorter);
        assert((pieces.last() + shorter).push(tail.last()) == pieces.last() + tail);
        let before = pieces.drop_last().push(pieces.last() + shorter);
        assert(before.drop_last() == pieces.drop_last());
    }
}

/// No piece holds a separator.
pub proof fn lemma_split_pieces(text: Seq<u8>, sep: u8)
    ensures
        forall|k: int|
            0 <= k < split(text, sep).len() ==> !(#[trigger] split(text, sep)[k]).contains(sep),
    decreases text.len(),
{
    if text.len() > 0 {
        let before = split(text.drop_last(), sep);
        lemma_split_pieces(text.drop_last(), sep);
        lemma_split_len(text.drop_last(), sep);
        if text.last() != sep {
            let longer = before.last().push(text.last());
            assert(!longer.contains(sep)) by {
                if longer.contains(sep) {
                    let i = choose|i: int| 0 <= i < longer.len() && longer[i] == sep;
                    assert(before.last()[i] == sep);
                }
            }
        }
    }
}

/// Every byte of a text that is no separator stands in one of its pieces.
pub proof fn lemma_split_covers(text: Seq<u8>, sep: u8, i: int)
    requires
        0 <= i < text.len(),
        text[i] != sep,
    ensures
        exists|k: int, j: int|
            0 <= k < split(text, sep).len() && 0 <= j < split(text, sep)[k].len() && (
            #[trigger] split(text, sep)[k][j]) == text[i],
    decreases text.len(),
{
    let pieces = split(text, sep);
    let before = split(text.drop_last(), sep);
    lemma_split_len(text.drop_last(), sep);
    if i == text.len() - 1 {
        let k = pieces.len() - 1;
        let j = before.last().len() as int;
        assert(pieces[k][j] == text[i]);
    } else {
        lemma_split_covers(text.drop_last(), sep, i);
        let (k, j) = choose|k: int, j: int|
            0 <= k < before.len() && 0 <= j < before[k].len() && (#[trigger] before[k][j])
                == text.drop_last()[i];
        assert(pieces[k][j] == text[i]);
    }
}

} // verus!
