//! Splitting `&str` at ASCII delimiters, proved against the UTF-8 encoding.
//!
//! A `&str` is its characters (`s@`) and, at run time, their UTF-8 bytes.
//! The functions here search the bytes and cut the string there; the proofs
//! show what that means for the characters.

use vstd::prelude::*;
use vstd::string::StringSliceAdditionalSpecFns;
use vstd::utf8::*;

verus! {

/// The UTF-8 encoding of a concatenation is the concatenation of the encodings.
pub proof fn lemma_encode_concat(x: Seq<char>, y: Seq<char>)
    ensures
        encode_utf8(x + y) == encode_utf8(x) + encode_utf8(y),
    decreases x.len(),
{
    if x.len() == 0 {
        assert(x + y == y);
    } else {
        assert((x + y).drop_first() == x.drop_first() + y);
        lemma_encode_concat(x.drop_first(), y);
    }
}

/// Two texts with the same UTF-8 encoding are the same text.
pub proof fn lemma_encode_injective(x: Seq<char>, y: Seq<char>)
    requires
        encode_utf8(x) == encode_utf8(y),
    ensures
        x == y,
{
    encode_utf8_decode_utf8(x);
    encode_utf8_decode_utf8(y);
}

/// The first byte of an encoding is below 0x80 exactly when the first
/// character is ASCII, and is then that character alone.
pub proof fn lemma_first_byte(text: Seq<char>)
    requires
        text.len() > 0,
    ensures
        encode_utf8(text).len() > 0,
        encode_utf8(text)[0] < 0x80 <==> (text[0] as u32) < 0x80,
        (text[0] as u32) < 0x80 ==> encode_utf8(text)[0] == text[0] as u32 && encode_utf8(text).skip(
            1,
        ) == encode_utf8(text.drop_first()),
{
    let u = text[0] as u32;
    let head = encode_scalar(u);
    let tail = encode_utf8(text.drop_first());
    assert(encode_utf8(text) == head + tail);
    char_is_scalar(text[0]);
    if has_width_1_encoding(u) {
        assert((u & 0x7F) as u8 == u) by (bit_vector)
            requires
                u <= 0x7F,
        ;
        assert((head + tail).skip(1) == tail);
    } else if has_width_2_encoding(u) {
        assert(0xC0u8 | ((u >> 6) & 0x1F) as u8 >= 0x80) by (bit_vector);
    } else if has_width_3_encoding(u) {
        assert(0xE0u8 | ((u >> 12) & 0x0F) as u8 >= 0x80) by (bit_vector);
    } else {
        assert(0xF0u8 | ((u >> 18) & 0x7) as u8 >= 0x80) by (bit_vector);
    }
}

/// An ASCII character of a text shows as its own byte in the encoding.
pub proof fn lemma_ascii_char_in_bytes(text: Seq<char>, c: char)
    requires
        (c as u32) < 0x80,
        text.contains(c),
    ensures
        encode_utf8(text).contains(c as u8),
    decreases text.len(),
{
    let bytes = encode_utf8(text);
    let tail = encode_utf8(text.drop_first());
    let i = choose|i: int| 0 <= i < text.len() && text[i] == c;
    if i == 0 {
        lemma_first_byte(text);
        assert(bytes[0] == c as u8);
    } else {
        assert(text.drop_first()[i - 1] == c);
        lemma_ascii_char_in_bytes(text.drop_first(), c);
        let j = choose|j: int| 0 <= j < tail.len() && tail[j] == c as u8;
        let head = encode_scalar(text[0] as u32);
        assert(bytes == head + tail);
        assert(bytes[head.len() + j] == c as u8);
    }
}

/// Cuts `s` where its first character ends, if that character is the ASCII
/// character with code `delim`.
pub(crate) fn split_first<'a>(s: &'a str, delim: u8) -> (r: Option<(&'a str, &'a str)>)
    requires
        delim < 0x80,
    ensures
        match r {
            Some((head, rest)) => head@ == seq![delim as char] && s@ == head@ + rest@,
            None => s@.len() == 0 || s@[0] != delim as char,
        },
{
    let bytes = s.as_bytes();
    proof {
        encode_utf8_valid_utf8(s@);
        if s@.len() > 0 {
            lemma_first_byte(s@);
        }
    }
    if bytes.len() == 0 || bytes[0] != delim {
        return None;
    }
    proof {
        reveal_with_fuel(is_char_boundary, 2);
    }
    let (head, rest) = s.split_at(1);
    proof {
        let first = seq![delim as char];
        char_u32_cast(s@[0], delim as u32);
        assert(s@[0] == delim as char);
        assert(s@ == first + s@.drop_first());
        lemma_first_byte(first);
        assert(encode_utf8(first) == seq![delim]);
        assert(head.spec_bytes() == encode_utf8(first));
        lemma_encode_injective(head@, first);
        assert(rest.spec_bytes() == encode_utf8(s@.drop_first()));
        lemma_encode_injective(rest@, s@.drop_first());
    }
    Some((head, rest))
}

/// Cuts `s` in front of the first occurrence of the ASCII character with
/// code `delim`: what stands before it, and the rest, which begins with it.
pub(crate) fn split_before<'a>(s: &'a str, delim: u8) -> (r: Option<(&'a str, &'a str)>)
    requires
        delim < 0x80,
    ensures
        match r {
            Some((before, rest)) => s@ == before@ + rest@ && rest@.len() > 0 && rest@[0]
                == delim as char && !before@.contains(delim as char),
            None => !s@.contains(delim as char),
        },
{
    let bytes = s.as_bytes();
    let n: usize = bytes.len();
    let mut i: usize = 0;
    while i < n && bytes[i] != delim
        invariant
            n == bytes@.len(),
            i <= n,
            forall|k: int| 0 <= k < i ==> bytes@[k] != delim,
        decreases n - i,
    {
        i += 1;
    }
    proof {
        encode_utf8_valid_utf8(s@);
    }
    if i == n {
        proof {
            if s@.contains(delim as char) {
                lemma_ascii_char_in_bytes(s@, delim as char);
            }
        }
        return None;
    }
    proof {
        is_char_boundary_iff_is_leading_byte(bytes@, i as int);
    }
    let (before, rest) = s.split_at(i);
    proof {
        lemma_encode_concat(before@, rest@);
        assert(bytes@ == bytes@.subrange(0, i as int) + bytes@.subrange(i as int, n as int));
        lemma_encode_injective(s@, before@ + rest@);
        if before@.contains(delim as char) {
            lemma_ascii_char_in_bytes(before@, delim as char);
        }
        assert(rest.spec_bytes()[0] == delim);
        lemma_first_byte(rest@);
        char_u32_cast(rest@[0], delim as u32);
    }
    Some((before, rest))
}

/// Cuts `s` round the first occurrence of the ASCII character with code
/// `delim`: what stands before it, and what stands after it.
pub(crate) fn split_once<'a>(s: &'a str, delim: u8) -> (r: Option<(&'a str, &'a str)>)
    requires
        delim < 0x80,
    ensures
        match r {
            Some((before, after)) => s@ == before@ + seq![delim as char] + after@
                && !before@.contains(delim as char),
            None => !s@.contains(delim as char),
        },
{
    match split_before(s, delim) {
        Some((before, rest)) => match split_first(rest, delim) {
            Some((head, after)) => {
                assert(before@ + (head@ + after@) == before@ + head@ + after@);
                Some((before, after))
            },
            None => None,
        },
        None => None,
    }
}

} // verus!
