//! Addressing a UTF-8 text by character index.
//!
//! The lexer thinks in characters and slices in bytes. This module ties the
//! two together: the byte offset of a character index, and the functions that
//! read one character or cut a slice at such offsets.

use vstd::prelude::*;
use vstd::utf8::*;

verus! {

/// The number of bytes that `c` takes in UTF-8.
pub open spec fn char_width(c: char) -> int {
    encode_scalar(c as u32).len() as int
}

/// The byte offset at which the character with index `k` starts: the
/// length of the encoding of the `k` characters before it.
pub open spec fn byte_offset(text: Seq<char>, k: int) -> int {
    encode_utf8(text.take(k)).len() as int
}

/// Encoding distributes over concatenation.
pub proof fn lemma_encode_concat(a: Seq<char>, b: Seq<char>)
    ensures
        encode_utf8(a + b) == encode_utf8(a) + encode_utf8(b),
    decreases a.len(),
{
    if a.len() == 0 {
        assert(a + b =~= b);
        assert(encode_utf8(a) + encode_utf8(b) =~= encode_utf8(b));
    } else {
        assert((a + b).drop_first() =~= a.drop_first() + b);
        lemma_encode_concat(a.drop_first(), b);
        assert(encode_utf8(a + b) =~= encode_utf8(a) + encode_utf8(b));
    }
}

/// Every character takes between one and four bytes.
pub proof fn lemma_char_width_bounds(c: char)
    ensures
        1 <= char_width(c) <= 4,
{
}

/// Taking one more character moves the byte offset by that character's width.
pub proof fn lemma_byte_offset_step(text: Seq<char>, k: int)
    requires
        0 <= k < text.len(),
    ensures
        byte_offset(text, k + 1) == byte_offset(text, k) + char_width(text[k]),
{
    let head = text.take(k);
    let one = seq![text[k]];
    assert(text.take(k + 1) =~= head + one);
    lemma_encode_concat(head, one);
    assert(one.drop_first() =~= Seq::<char>::empty());
    assert(encode_utf8(one) =~= encode_scalar(text[k] as u32)) by {
        reveal_with_fuel(encode_utf8, 2);
    }
}

/// Byte offsets grow with the character index, and never faster than four
/// bytes a character nor slower than one.
pub proof fn lemma_byte_offset_monotonic(text: Seq<char>, i: int, j: int)
    requires
        0 <= i <= j <= text.len(),
    ensures
        byte_offset(text, i) + (j - i) <= byte_offset(text, j),
        byte_offset(text, j) <= byte_offset(text, i) + 4 * (j - i),
    decreases j - i,
{
    if i < j {
        lemma_byte_offset_monotonic(text, i, j - 1);
        lemma_byte_offset_step(text, j - 1);
        lemma_char_width_bounds(text[j - 1]);
    }
}

/// Every byte offset lies within the encoded text.
pub proof fn lemma_byte_offset_bounds(text: Seq<char>, k: int)
    requires
        0 <= k <= text.len(),
    ensures
        k <= byte_offset(text, k) <= encode_utf8(text).len(),
{
    lemma_byte_offset_monotonic(text, 0, k);
    lemma_byte_offset_monotonic(text, k, text.len() as int);
    lemma_byte_offset_ends(text);
}

/// The offset of the end of the text is the length of its encoding.
pub proof fn lemma_byte_offset_ends(text: Seq<char>)
    ensures
        byte_offset(text, 0) == 0,
        byte_offset(text, text.len() as int) == encode_utf8(text).len(),
{
    assert(text.take(0) =~= Seq::<char>::empty());
    assert(text.take(text.len() as int) =~= text);
}

/// The byte offset of a character index is a character boundary of the
/// encoded text.
pub proof fn lemma_byte_offset_is_boundary(text: Seq<char>, k: int)
    requires
        0 <= k <= text.len(),
    ensures
        is_char_boundary(encode_utf8(text), byte_offset(text, k)),
    decreases k,
{
    let bytes = encode_utf8(text);
    encode_utf8_valid_utf8(text);
    if k == 0 {
        lemma_byte_offset_ends(text);
    } else {
        let rest = text.drop_first();
        encode_utf8_first_scalar(text);
        assert(pop_first_scalar(bytes) =~= encode_utf8(rest));
        lemma_byte_offset_is_boundary(rest, k - 1);
        assert(text.take(k) =~= seq![text[0]] + rest.take(k - 1));
        lemma_encode_concat(seq![text[0]], rest.take(k - 1));
        assert(seq![text[0]].drop_first() =~= Seq::<char>::empty());
        assert(encode_utf8(seq![text[0]]) =~= encode_scalar(text[0] as u32)) by {
            reveal_with_fuel(encode_utf8, 2);
        }
        assert(byte_offset(text, k) == char_width(text[0]) + byte_offset(rest, k - 1));
        lemma_char_width_bounds(text[0]);
        lemma_byte_offset_monotonic(text, k, text.len() as int);
        lemma_byte_offset_ends(text);
    }
}

/// Cutting the encoded text at the offsets of two character indices gives
/// the encoding of the characters between them.
pub proof fn lemma_encode_subrange(text: Seq<char>, i: int, j: int)
    requires
        0 <= i <= j <= text.len(),
    ensures
        encode_utf8(text).subrange(byte_offset(text, i), byte_offset(text, j)) == encode_utf8(
            text.subrange(i, j),
        ),
{
    let a = text.take(i);
    let b = text.subrange(i, j);
    let c = text.skip(j);
    assert(text =~= (a + b) + c);
    assert(text.take(j) =~= a + b);
    lemma_encode_concat(a, b);
    lemma_encode_concat(a + b, c);
    assert(encode_utf8(text).subrange(byte_offset(text, i), byte_offset(text, j)) =~= encode_utf8(
        b,
    ));
}

/// Two texts with the same encoding are the same text.
pub proof fn lemma_encode_injective(a: Seq<char>, b: Seq<char>)
    requires
        encode_utf8(a) == encode_utf8(b),
    ensures
        a == b,
{
    encode_utf8_decode_utf8(a);
    encode_utf8_decode_utf8(b);
}

/// The number of bytes that `c` takes in UTF-8.
pub fn utf8_width(c: char) -> (n: usize)
    ensures
        n == char_width(c),
{
    let v = c as u32;
    if v < 0x80 {
        1
    } else if v < 0x800 {
        2
    } else if v < 0x10000 {
        3
    } else {
        4
    }
}

/// Whether two strings hold the same text.
pub fn same_text(a: &str, b: &str) -> (same: bool)
    ensures
        same == (a@ == b@),
{
    let x = a.as_bytes();
    let y = b.as_bytes();
    if x.len() != y.len() {
        return false;
    }
    let mut i: usize = 0;
    while i < x.len()
        invariant
            x@.len() == y@.len(),
            0 <= i <= x@.len(),
            forall|j: int| 0 <= j < i ==> x@[j] == y@[j],
            x@ == encode_utf8(a@),
            y@ == encode_utf8(b@),
        decreases x@.len() - i,
    {
        if x[i] != y[i] {
            return false;
        }
        i += 1;
    }
    proof {
        assert(x@ =~= y@);
        lemma_encode_injective(a@, b@);
    }
    true
}

/// The part of `text` between byte offsets `from` and `to`, which are the
/// offsets of the character indices `i` and `j`.
pub(crate) fn slice<'a>(
    text: &'a str,
    from: usize,
    to: usize,
    Ghost(i): Ghost<int>,
    Ghost(j): Ghost<int>,
) -> (part: &'a str)
    requires
        0 <= i <= j <= text@.len(),
        from == byte_offset(text@, i),
        to == byte_offset(text@, j),
    ensures
        part@ == text@.subrange(i, j),
{
    proof {
        lemma_byte_offset_is_boundary(text@, j);
    }
    let (head, _) = text.split_at(to);
    proof {
        lemma_encode_subrange(text@, 0, j);
        lemma_byte_offset_ends(text@);
        lemma_encode_injective(head@, text@.subrange(0, j));
        assert(text@.subrange(0, j).take(i) =~= text@.take(i));
        lemma_byte_offset_is_boundary(head@, i);
    }
    let (_, part) = head.split_at(from);
    proof {
        lemma_encode_subrange(head@, i, j);
        lemma_byte_offset_ends(head@);
        lemma_encode_injective(part@, head@.subrange(i, j));
        assert(head@.subrange(i, j) =~= text@.subrange(i, j));
    }
    part
}

/// The character with index `k`, which starts at byte offset `pos`, or
/// `None` at the end of the text.
pub(crate) fn char_at(text: &str, pos: usize, Ghost(k): Ghost<int>) -> (c: Option<char>)
    requires
        0 <= k <= text@.len(),
        pos == byte_offset(text@, k),
    ensures
        c == (if k < text@.len() {
            Some(text@[k])
        } else {
            None
        }),
{
    proof {
        lemma_byte_offset_is_boundary(text@, k);
    }
    let (_, rest) = text.split_at(pos);
    proof {
        lemma_encode_subrange(text@, k, text@.len() as int);
        lemma_byte_offset_ends(text@);
        lemma_encode_injective(rest@, text@.subrange(k, text@.len() as int));
    }
    let mut rest_chars = rest.chars();
    rest_chars.next()
}

} // verus!
