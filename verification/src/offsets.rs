//! Byte offsets of character positions. The scanner reports where each
//! declaration begins as a byte index into the UTF-8 text; these lemmas
//! relate that index to the character position the scanner works with,
//! through vstd's model of UTF-8 encoding.

use vstd::prelude::*;

verus! {

use vstd::utf8::{encode_utf8, encode_scalar, char_is_scalar};

/// Number of bytes the UTF-8 encoding of `c` takes.
pub open spec fn char_bytes(c: char) -> int {
    encode_scalar(c as u32).len() as int
}

/// Byte offset of character position `p` in `s`: the length of the UTF-8
/// encoding of the first `p` characters.
pub open spec fn byte_offset(s: Seq<char>, p: int) -> int {
    encode_utf8(s.take(p)).len() as int
}

pub proof fn lemma_encode_utf8_concat(a: Seq<char>, b: Seq<char>)
    ensures
        encode_utf8(a + b) =~= encode_utf8(a) + encode_utf8(b),
    decreases a.len(),
{
    if a.len() == 0 {
        assert(a + b =~= b);
        assert(encode_utf8(a) =~= Seq::<u8>::empty());
    } else {
        assert((a + b).len() > 0);
        assert((a + b)[0] == a[0]);
        assert((a + b).drop_first() =~= a.drop_first() + b);
        lemma_encode_utf8_concat(a.drop_first(), b);
    }
}

pub proof fn lemma_char_bytes_bounds(c: char)
    ensures
        1 <= char_bytes(c) <= 4,
{
    broadcast use char_is_scalar;

}

/// Advancing one character advances the byte offset by that character's
/// encoded width.
pub proof fn lemma_byte_offset_step(s: Seq<char>, p: int)
    requires
        0 <= p < s.len(),
    ensures
        byte_offset(s, p + 1) == byte_offset(s, p) + char_bytes(s[p]),
{
    assert(s.take(p + 1) =~= s.take(p) + seq![s[p]]);
    lemma_encode_utf8_concat(s.take(p), seq![s[p]]);
    let single: Seq<char> = seq![s[p]];
    assert(single.len() == 1 && single[0] == s[p]);
    assert(single.drop_first() =~= Seq::<char>::empty());
    assert(encode_utf8(single.drop_first()) =~= Seq::<u8>::empty());
    assert(encode_utf8(single) =~= encode_scalar(s[p] as u32) + encode_utf8(single.drop_first()));
    assert(encode_utf8(single).len() == encode_scalar(s[p] as u32).len());
}

/// Byte offsets grow at least one byte per character.
pub proof fn lemma_byte_offset_mono(s: Seq<char>, a: int, b: int)
    requires
        0 <= a <= b <= s.len(),
    ensures
        byte_offset(s, a) + (b - a) <= byte_offset(s, b),
    decreases b - a,
{
    if a < b {
        lemma_byte_offset_step(s, a);
        lemma_char_bytes_bounds(s[a]);
        lemma_byte_offset_mono(s, a + 1, b);
    }
}

pub proof fn lemma_byte_offset_zero(s: Seq<char>)
    ensures
        byte_offset(s, 0) == 0,
{
    assert(s.take(0) =~= Seq::<char>::empty());
}

/// Byte offset of the end of the text is the total encoded length.
pub proof fn lemma_byte_offset_total(s: Seq<char>)
    ensures
        byte_offset(s, s.len() as int) == encode_utf8(s).len(),
{
    assert(s.take(s.len() as int) =~= s);
}

/// Encoded width of one character, as the byte count of its UTF-8 form.
pub fn width_of_char(c: char) -> (w: usize)
    ensures
        w as int == char_bytes(c),
{
    proof {
        broadcast use char_is_scalar;

    }
    let u: u32 = c as u32;
    if u < 0x80 {
        1
    } else if u < 0x800 {
        2
    } else if u < 0x10000 {
        3
    } else {
        4
    }
}

} // verus!
