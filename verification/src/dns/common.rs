//! What a list takes as an entry: a domain name, or a pattern.

use vstd::prelude::*;
use vstd::utf8::{encode_utf8, encode_utf8_valid_utf8};
use crate::lines::rules::reads_back;
use crate::split::{lemma_split_covers, lemma_split_len, split};

verus! {

/// The byte between the labels of a domain name, `.`.
pub const DOT: u8 = 0x2e;

/// The byte `-`.
pub const HYPHEN: u8 = 0x2d;

/// The byte `_`.
pub const UNDERSCORE: u8 = 0x5f;

/// The longest domain name, in bytes.
pub const MAX_NAME_LEN: usize = 253;

/// The longest label, in bytes.
pub const MAX_LABEL_LEN: usize = 63;

/// A lower-case letter, `a` to `z`, or a digit, `0` to `9`.
pub open spec fn is_alnum(b: u8) -> bool {
    (0x61 <= b <= 0x7a) || (0x30 <= b <= 0x39)
}

/// A byte that may stand in a label: a lower-case letter, a digit, a hyphen or
/// an underscore.
pub open spec fn is_label_byte(b: u8) -> bool {
    is_alnum(b) || b == HYPHEN || b == UNDERSCORE
}

/// Whether a letter or a digit is among the bytes.
pub open spec fn has_alnum(label: Seq<u8>) -> bool {
    exists|i: int| 0 <= i < label.len() && is_alnum(#[trigger] label[i])
}

/// A label: one to 63 bytes that may stand in one, a letter or a digit among
/// them.
pub open spec fn valid_label(label: Seq<u8>) -> bool {
    &&& 1 <= label.len() <= MAX_LABEL_LEN
    &&& forall|i: int| 0 <= i < label.len() ==> is_label_byte(#[trigger] label[i])
    &&& has_alnum(label)
}

/// A domain name: one to 253 bytes that are labels with a dot between each
/// two.
///
/// The name is taken as it is written. Letters are lower case: an upper-case
/// letter is not folded but refused, so that a name has one spelling in a list.
/// A dot at the end leaves an empty label behind it and is refused too.
pub open spec fn valid_domain(name: Seq<u8>) -> bool {
    &&& 1 <= name.len() <= MAX_NAME_LEN
    &&& forall|k: int|
        0 <= k < split(name, DOT).len() ==> valid_label(#[trigger] split(name, DOT)[k])
}

/// What holds of a label while bytes may still follow: it is not too long and
/// holds only bytes that may stand in one.
spec fn open_label(label: Seq<u8>) -> bool {
    &&& label.len() <= MAX_LABEL_LEN
    &&& forall|i: int| 0 <= i < label.len() ==> is_label_byte(#[trigger] label[i])
}

/// Whether the pieces before the last one are labels.
spec fn closed_labels(pieces: Seq<Seq<u8>>) -> bool {
    forall|k: int| 0 <= k < pieces.len() - 1 ==> valid_label(#[trigger] pieces[k])
}

/// A dot closes the last piece, which has to be a label by then.
proof fn lemma_label_closed(pieces: Seq<Seq<u8>>)
    requires
        pieces.len() >= 1,
    ensures
        closed_labels(pieces.push(Seq::empty())) <==> closed_labels(pieces) && valid_label(
            pieces.last(),
        ),
{
    let next = pieces.push(Seq::empty());
    if closed_labels(pieces) && valid_label(pieces.last()) {
        assert forall|k: int| 0 <= k < next.len() - 1 implies valid_label(#[trigger] next[k]) by {
            assert(next[k] == pieces[k]);
        }
    }
    if closed_labels(next) {
        assert(next[pieces.len() - 1] == pieces.last());
        assert forall|k: int| 0 <= k < pieces.len() - 1 implies valid_label(
            #[trigger] pieces[k],
        ) by {
            assert(next[k] == pieces[k]);
        }
    }
}

/// Another byte lengthens the last piece and leaves the others as they are.
proof fn lemma_label_longer(pieces: Seq<Seq<u8>>, b: u8)
    requires
        pieces.len() >= 1,
    ensures
        closed_labels(pieces.drop_last().push(pieces.last().push(b))) <==> closed_labels(pieces),
        open_label(pieces.last().push(b)) <==> open_label(pieces.last()) && is_label_byte(b)
            && pieces.last().len() < MAX_LABEL_LEN,
        has_alnum(pieces.last().push(b)) <==> has_alnum(pieces.last()) || is_alnum(b),
{
    let label = pieces.last();
    let longer = label.push(b);
    let next = pieces.drop_last().push(longer);
    if closed_labels(pieces) {
        assert forall|k: int| 0 <= k < next.len() - 1 implies valid_label(#[trigger] next[k]) by {
            assert(next[k] == pieces[k]);
        }
    }
    if closed_labels(next) {
        assert forall|k: int| 0 <= k < pieces.len() - 1 implies valid_label(
            #[trigger] pieces[k],
        ) by {
            assert(next[k] == pieces[k]);
        }
    }
    if open_label(longer) {
        assert(longer[label.len() as int] == b);
        assert forall|j: int| 0 <= j < label.len() implies is_label_byte(#[trigger] label[j]) by {
            assert(longer[j] == label[j]);
        }
    }
    if has_alnum(label) {
        let j = choose|j: int| 0 <= j < label.len() && is_alnum(#[trigger] label[j]);
        assert(longer[j] == label[j]);
    }
    if is_alnum(b) {
        assert(longer[label.len() as int] == b);
    }
    if has_alnum(longer) {
        let j = choose|j: int| 0 <= j < longer.len() && is_alnum(#[trigger] longer[j]);
        if j < label.len() {
            assert(longer[j] == label[j]);
        }
    }
}

/// Check if a domain is valid
pub fn is_valid_domain(domain: &str) -> (ok: bool)
    ensures
        ok == valid_domain(encode_utf8(domain@)),
{
    let name = domain.as_bytes();
    if name.len() == 0 || name.len() > MAX_NAME_LEN {
        return false;
    }
    // Whether all is well so far, and of the label that is open how long it
    // is and whether a letter or a digit has been seen in it
    let mut ok = true;
    let mut len: usize = 0;
    let mut alnum = false;
    let mut i: usize = 0;
    assert(name@.take(0) == Seq::<u8>::empty());
    while i < name.len()
        invariant
            i <= name.len(),
            len <= i,
            split(name@.take(i as int), DOT).len() >= 1,
            len == split(name@.take(i as int), DOT).last().len(),
            alnum == has_alnum(split(name@.take(i as int), DOT).last()),
            ok == (closed_labels(split(name@.take(i as int), DOT)) && open_label(
                split(name@.take(i as int), DOT).last(),
            )),
        decreases name.len() - i,
    {
        let ghost pieces = split(name@.take(i as int), DOT);
        let b = name[i];
        proof {
            assert(name@.take(i + 1).drop_last() == name@.take(i as int));
            lemma_split_len(name@.take(i + 1), DOT);
            lemma_label_closed(pieces);
            lemma_label_longer(pieces, b);
        }
        if b == DOT {
            ok = ok && len >= 1 && alnum;
            len = 0;
            alnum = false;
        } else {
            let letter_or_digit = (0x61 <= b && b <= 0x7a) || (0x30 <= b && b <= 0x39);
            ok = ok && (letter_or_digit || b == HYPHEN || b == UNDERSCORE) && len < MAX_LABEL_LEN;
            alnum = alnum || letter_or_digit;
            len = len + 1;
        }
        i += 1;
    }
    proof {
        assert(name@.take(i as int) == name@);
        let pieces = split(name@, DOT);
        if ok && len >= 1 && alnum {
            assert forall|k: int| 0 <= k < pieces.len() implies valid_label(
                #[trigger] pieces[k],
            ) by {
                if k == pieces.len() - 1 {
                    assert(pieces[k] == pieces.last());
                }
            }
        }
        if valid_domain(name@) {
            assert(valid_label(pieces[pieces.len() - 1]));
        }
    }
    ok && len >= 1 && alnum
}

/// A domain name holds nothing but dots and bytes that may stand in a label.
pub proof fn lemma_domain_bytes(name: Seq<u8>)
    requires
        valid_domain(name),
    ensures
        forall|i: int| 0 <= i < name.len() ==> is_label_byte(#[trigger] name[i]) || name[i] == DOT,
{
    assert forall|i: int| 0 <= i < name.len() implies is_label_byte(#[trigger] name[i]) || name[i]
        == DOT by {
        if name[i] != DOT {
            lemma_split_covers(name, DOT, i);
        }
    }
}

/// A domain name, written on a line of a list file, is read back as it is.
pub proof fn lemma_domain_reads_back(domain: Seq<char>)
    requires
        valid_domain(encode_utf8(domain)),
    ensures
        reads_back(encode_utf8(domain)),
{
    let name = encode_utf8(domain);
    encode_utf8_valid_utf8(domain);
    lemma_domain_bytes(name);
    assert(is_label_byte(name[name.len() - 1]) || name[name.len() - 1] == DOT);
}

/// Whether the `regex` crate compiles the pattern, with the limits that it
/// sets itself.
pub uninterp spec fn regex_compiles(pattern: Seq<char>) -> bool;

/// `regex::Regex::new` on the pattern: whether it returned a compiled
/// expression rather than an error. It returns an error for a pattern that it
/// cannot parse and for one whose compiled form would pass its size limit; it
/// does not panic.
#[verifier::external_body]
fn compiles(pattern: &str) -> (ok: bool)
    ensures
        ok == regex_compiles(pattern@),
{
    regex::Regex::new(pattern).is_ok()
}

/// Check if a regex is valid
pub fn is_valid_regex(regex_str: &str) -> (ok: bool)
    ensures
        ok == regex_compiles(regex_str@),
{
    compiles(regex_str)
}

} // verus!
