//! How the characters of a text show in its bytes.
//!
//! A list file is bytes, a candidate is text. A character below `0x80` is one
//! byte, its own number, and the bytes of every other character are `0x80` or
//! above: so a line feed among the bytes is a line feed in the text.

use vstd::prelude::*;
use vstd::utf8::{
    char_is_scalar, char_u32_cast, encode_scalar, encode_utf8, encode_utf8_decode_utf8, is_scalar,
};

verus! {

/// Two texts are the same exactly when their bytes are.
pub proof fn lemma_same_bytes(a: Seq<char>, b: Seq<char>)
    ensures
        a == b <==> encode_utf8(a) == encode_utf8(b),
{
    encode_utf8_decode_utf8(a);
    encode_utf8_decode_utf8(b);
}

/// The bytes of one character: its number where that is below `0x80`, and
/// else two to four bytes that are all `0x80` or above.
proof fn lemma_scalar_bytes(c: u32)
    requires
        is_scalar(c),
    ensures
        encode_scalar(c).len() > 0,
        c < 0x80 ==> encode_scalar(c) == seq![c as u8],
        c >= 0x80 ==> forall|i: int|
            0 <= i < encode_scalar(c).len() ==> (#[trigger] encode_scalar(c)[i]) >= 0x80,
{
    assert(c <= 0x7f ==> (c & 0x7f) as u8 == c as u8) by (bit_vector);
    assert(0xc0u8 | ((c >> 6) & 0x1f) as u8 >= 0x80) by (bit_vector);
    assert(0xe0u8 | ((c >> 12) & 0x0f) as u8 >= 0x80) by (bit_vector);
    assert(0xf0u8 | ((c >> 18) & 0x7) as u8 >= 0x80) by (bit_vector);
    assert(0x80u8 | (c & 0x3f) as u8 >= 0x80) by (bit_vector);
    assert(0x80u8 | ((c >> 6) & 0x3f) as u8 >= 0x80) by (bit_vector);
    assert(0x80u8 | ((c >> 12) & 0x3f) as u8 >= 0x80) by (bit_vector);
}

/// The bytes of a text with one more character at its end.
proof fn lemma_bytes_push(text: Seq<char>, c: char)
    ensures
        encode_utf8(text.push(c)) == encode_utf8(text) + encode_scalar(c as u32),
    decreases text.len(),
{
    if text.len() == 0 {
        assert(text.push(c).drop_first() == Seq::<char>::empty());
        assert(encode_utf8(Seq::<char>::empty()) == Seq::<u8>::empty());
    } else {
        assert(text.push(c).drop_first() == text.drop_first().push(c));
        lemma_bytes_push(text.drop_first(), c);
    }
}

/// A character below `0x80` at the end of a text is its own number at the end
/// of the bytes.
pub proof fn lemma_ascii_push(text: Seq<char>, b: u8)
    requires
        b < 0x80,
    ensures
        encode_utf8(text.push(b as char)) == encode_utf8(text).push(b),
{
    let c = b as char;
    assert(c as u32 == b);
    char_is_scalar(c);
    lemma_scalar_bytes(c as u32);
    lemma_bytes_push(text, c);
}

/// Where a byte below `0x80` stands among the bytes of a text, the character
/// of that number stands in the text, and the other way round; the same holds
/// of the last byte and the last character.
pub proof fn lemma_ascii_byte(text: Seq<char>, b: u8)
    requires
        b < 0x80,
    ensures
        encode_utf8(text).len() > 0 <==> text.len() > 0,
        encode_utf8(text).contains(b) <==> text.contains(b as char),
        text.len() > 0 ==> (encode_utf8(text).last() == b <==> text.last() == b as char),
    decreases text.len(),
{
    if text.len() > 0 {
        let c = text[0] as u32;
        let head = encode_scalar(c);
        let rest = text.drop_first();
        let tail = encode_utf8(rest);
        char_is_scalar(text[0]);
        lemma_scalar_bytes(c);
        lemma_ascii_byte(rest, b);
        assert(encode_utf8(text) == head + tail);
        assert(text[0] == b as char <==> c == b) by {
            assert((b as char) as u32 == b);
            char_u32_cast(text[0], c);
        }
        let first_is = head.contains(b);
        assert(first_is <==> c == b) by {
            if c == b {
                assert(head[0] == b);
            }
            if first_is {
                let i = choose|i: int| 0 <= i < head.len() && head[i] == b;
                assert(head[i] == b);
            }
        }
        assert((head + tail).contains(b) <==> first_is || tail.contains(b)) by {
            if first_is {
                let i = choose|i: int| 0 <= i < head.len() && head[i] == b;
                assert((head + tail)[i] == b);
            }
            if tail.contains(b) {
                let i = choose|i: int| 0 <= i < tail.len() && tail[i] == b;
                assert((head + tail)[head.len() + i] == b);
            }
            if (head + tail).contains(b) {
                let i = choose|i: int| 0 <= i < (head + tail).len() && (head + tail)[i] == b;
                if i < head.len() {
                    assert(head[i] == b);
                } else {
                    assert(tail[i - head.len()] == b);
                }
            }
        }
        assert(text.contains(b as char) <==> text[0] == b as char || rest.contains(b as char)) by {
            if rest.contains(b as char) {
                let i = choose|i: int| 0 <= i < rest.len() && rest[i] == b as char;
                assert(text[i + 1] == b as char);
            }
            if text.contains(b as char) {
                let i = choose|i: int| 0 <= i < text.len() && text[i] == b as char;
                if i > 0 {
                    assert(rest[i - 1] == b as char);
                }
            }
        }
        if rest.len() == 0 {
            assert(tail.len() == 0);
            assert(head + tail == head);
            assert(head.last() == b <==> c == b);
        } else {
            assert((head + tail).last() == tail.last());
            assert(text.last() == rest.last());
        }
    }
}

} // verus!
