//! Conversion between UTF-8 byte offsets and UTF-16 code-unit offsets.
//!
//! Both directions scan the string character by character, accumulating the
//! per-character byte width and UTF-16 width, and stop as soon as the
//! accumulated source-side width reaches the requested offset. Offsets past
//! the end of the text are clamped to the text's total width, and an offset
//! that falls inside a character stops at that character's boundary.

use vstd::prelude::*;
use vstd::string::StrSliceExecFns;
use vstd::utf8::char_is_scalar;
use vstd::utf8::encode_scalar;
use vstd::utf8::encode_utf8;

verus! {

/// Number of bytes in the UTF-8 encoding of one character.
pub open spec fn utf8_width(c: char) -> int {
    if (c as u32) < 0x80 {
        1
    } else if (c as u32) < 0x800 {
        2
    } else if (c as u32) < 0x10000 {
        3
    } else {
        4
    }
}

/// Number of UTF-16 code units in the encoding of one character.
pub open spec fn utf16_width(c: char) -> int {
    if (c as u32) < 0x10000 {
        1
    } else {
        2
    }
}

/// Total UTF-8 byte length of a character sequence.
pub open spec fn utf8_len(s: Seq<char>) -> int
    decreases s.len(),
{
    if s.len() == 0 {
        0
    } else {
        utf8_width(s[0]) + utf8_len(s.drop_first())
    }
}

/// Total UTF-16 code-unit length of a character sequence.
pub open spec fn utf16_len(s: Seq<char>) -> int
    decreases s.len(),
{
    if s.len() == 0 {
        0
    } else {
        utf16_width(s[0]) + utf16_len(s.drop_first())
    }
}

/// The UTF-16 offset at which a scan to byte offset `b` stops: characters are
/// consumed while the accumulated byte width is still below `b`.
pub open spec fn byte_to_utf16_spec(s: Seq<char>, b: int) -> int
    decreases s.len(),
{
    if b <= 0 || s.len() == 0 {
        0
    } else {
        utf16_width(s[0]) + byte_to_utf16_spec(s.drop_first(), b - utf8_width(s[0]))
    }
}

/// The byte offset at which a scan to UTF-16 offset `u` stops.
pub open spec fn utf16_to_byte_spec(s: Seq<char>, u: int) -> int
    decreases s.len(),
{
    if u <= 0 || s.len() == 0 {
        0
    } else {
        utf8_width(s[0]) + utf16_to_byte_spec(s.drop_first(), u - utf16_width(s[0]))
    }
}

/// The character index at which a scan to UTF-16 offset `u` stops.
pub open spec fn utf16_to_char_idx_spec(s: Seq<char>, u: int) -> int
    decreases s.len(),
{
    if u <= 0 || s.len() == 0 {
        0
    } else {
        1 + utf16_to_char_idx_spec(s.drop_first(), u - utf16_width(s[0]))
    }
}

/// A byte offset is valid when it lands on a character boundary of the text.
pub open spec fn is_byte_boundary(s: Seq<char>, b: int) -> bool {
    exists|k: int| 0 <= k <= s.len() && b == utf8_len(#[trigger] s.take(k))
}

pub proof fn lemma_utf8_len_additive(a: Seq<char>, b: Seq<char>)
    ensures
        utf8_len(a + b) == utf8_len(a) + utf8_len(b),
    decreases a.len(),
{
    if a.len() == 0 {
        assert(a + b =~= b);
    } else {
        assert((a + b).drop_first() =~= a.drop_first() + b);
        lemma_utf8_len_additive(a.drop_first(), b);
    }
}

pub proof fn lemma_utf16_len_additive(a: Seq<char>, b: Seq<char>)
    ensures
        utf16_len(a + b) == utf16_len(a) + utf16_len(b),
    decreases a.len(),
{
    if a.len() == 0 {
        assert(a + b =~= b);
    } else {
        assert((a + b).drop_first() =~= a.drop_first() + b);
        lemma_utf16_len_additive(a.drop_first(), b);
    }
}

/// Each character contributes at least one unit on either side, and never
/// more UTF-16 units than UTF-8 bytes.
pub proof fn lemma_len_bounds(s: Seq<char>)
    ensures
        s.len() <= utf16_len(s) <= utf8_len(s) <= 4 * s.len(),
    decreases s.len(),
{
    if s.len() > 0 {
        lemma_len_bounds(s.drop_first());
    }
}

/// The spec-level byte length agrees with the length of the real UTF-8
/// encoding of the sequence.
pub proof fn lemma_utf8_len_is_encoding_len(s: Seq<char>)
    ensures
        utf8_len(s) == encode_utf8(s).len(),
    decreases s.len(),
{
    if s.len() > 0 {
        char_is_scalar(s[0]);
        assert(encode_scalar(s[0] as u32).len() == utf8_width(s[0]));
        lemma_utf8_len_is_encoding_len(s.drop_first());
    }
}

pub proof fn lemma_utf8_len_take_succ(s: Seq<char>, k: int)
    requires
        0 <= k < s.len(),
    ensures
        utf8_len(s.take(k + 1)) == utf8_len(s.take(k)) + utf8_width(s[k]),
        utf16_len(s.take(k + 1)) == utf16_len(s.take(k)) + utf16_width(s[k]),
{
    let single = seq![s[k]];
    assert(s.take(k + 1) =~= s.take(k) + single);
    lemma_utf8_len_additive(s.take(k), single);
    lemma_utf16_len_additive(s.take(k), single);
    assert(single.drop_first() =~= Seq::<char>::empty());
    assert(utf8_len(Seq::<char>::empty()) == 0);
    assert(utf16_len(Seq::<char>::empty()) == 0);
    assert(utf8_len(single) == utf8_width(s[k]));
    assert(utf16_len(single) == utf16_width(s[k]));
}

/// Converts a byte offset in `text` to the UTF-16 offset at which the scan
/// stops, clamping offsets past the end of the text.
pub fn byte_to_utf16(text: &str, byte_offset: usize) -> (r: usize)
    ensures
        r == byte_to_utf16_spec(text@, byte_offset as int),
{
    let ghost s = text@;
    let total_bytes: usize = text.as_bytes().len();
    proof {
        lemma_utf8_len_is_encoding_len(s);
        assert(s.skip(0) =~= s);
    }
    let n: usize = text.unicode_len();
    let mut i: usize = 0;
    let mut c8: usize = 0;
    let mut c16: usize = 0;
    while i < n && c8 < byte_offset
        invariant
            s == text@,
            0 <= i <= n,
            n == s.len(),
            utf8_len(s) == total_bytes,
            c8 == utf8_len(s.take(i as int)),
            c16 == utf16_len(s.take(i as int)),
            byte_to_utf16_spec(s, byte_offset as int) == c16 + byte_to_utf16_spec(
                s.skip(i as int),
                byte_offset - c8,
            ),
        decreases n - i,
    {
        let c = text.get_char(i);
        proof {
            assert(s.skip(i as int)[0] == s[i as int]);
            assert(s.skip(i as int).drop_first() =~= s.skip(i + 1));
            lemma_utf8_len_take_succ(s, i as int);
            lemma_utf8_len_additive(s.take(i + 1), s.skip(i + 1));
            assert(s.take(i + 1) + s.skip(i + 1) =~= s);
            lemma_len_bounds(s.take(i + 1));
            lemma_len_bounds(s.skip(i + 1));
        }
        let w8 = char_utf8_width(c);
        let w16 = char_utf16_width(c);
        c8 = c8 + w8;
        c16 = c16 + w16;
        i = i + 1;
    }
    proof {
        if i == n && c8 < byte_offset {
            assert(s.skip(i as int) =~= Seq::<char>::empty());
        }
    }
    c16
}

/// Converts a UTF-16 offset in `text` to the byte offset at which the scan
/// stops, clamping offsets past the end of the text.
pub fn utf16_to_byte(text: &str, utf16_offset: usize) -> (r: usize)
    ensures
        r == utf16_to_byte_spec(text@, utf16_offset as int),
{
    let ghost s = text@;
    let total_bytes: usize = text.as_bytes().len();
    proof {
        lemma_utf8_len_is_encoding_len(s);
        assert(s.skip(0) =~= s);
    }
    let n: usize = text.unicode_len();
    let mut i: usize = 0;
    let mut c8: usize = 0;
    let mut c16: usize = 0;
    while i < n && c16 < utf16_offset
        invariant
            s == text@,
            0 <= i <= n,
            n == s.len(),
            utf8_len(s) == total_bytes,
            c8 == utf8_len(s.take(i as int)),
            c16 == utf16_len(s.take(i as int)),
            utf16_to_byte_spec(s, utf16_offset as int) == c8 + utf16_to_byte_spec(
                s.skip(i as int),
                utf16_offset - c16,
            ),
        decreases n - i,
    {
        let c = text.get_char(i);
        proof {
            assert(s.skip(i as int)[0] == s[i as int]);
            assert(s.skip(i as int).drop_first() =~= s.skip(i + 1));
            lemma_utf8_len_take_succ(s, i as int);
            lemma_utf8_len_additive(s.take(i + 1), s.skip(i + 1));
            assert(s.take(i + 1) + s.skip(i + 1) =~= s);
            lemma_len_bounds(s.take(i + 1));
            lemma_len_bounds(s.skip(i + 1));
        }
        let w8 = char_utf8_width(c);
        let w16 = char_utf16_width(c);
        c8 = c8 + w8;
        c16 = c16 + w16;
        i = i + 1;
    }
    proof {
        if i == n && c16 < utf16_offset {
            assert(s.skip(i as int) =~= Seq::<char>::empty());
        }
    }
    c8
}

/// The scan's character index never leaves the text.
pub proof fn lemma_char_idx_bounds(s: Seq<char>, u: int)
    ensures
        0 <= utf16_to_char_idx_spec(s, u) <= s.len(),
    decreases s.len(),
{
    if !(u <= 0 || s.len() == 0) {
        lemma_char_idx_bounds(s.drop_first(), u - utf16_width(s[0]));
    }
}

/// Scanning to a larger UTF-16 offset never stops earlier.
pub proof fn lemma_char_idx_monotone(s: Seq<char>, u1: int, u2: int)
    requires
        u1 <= u2,
    ensures
        utf16_to_char_idx_spec(s, u1) <= utf16_to_char_idx_spec(s, u2),
    decreases s.len(),
{
    if u1 <= 0 || s.len() == 0 {
        lemma_char_idx_bounds(s, u2);
    } else {
        lemma_char_idx_monotone(s.drop_first(), u1 - utf16_width(s[0]), u2 - utf16_width(s[0]));
    }
}

/// Converts a UTF-16 offset in `text` to the character index at which the
/// scan stops, clamping offsets past the end of the text.
pub fn utf16_to_char_idx(text: &str, utf16_offset: u64) -> (r: usize)
    ensures
        r == utf16_to_char_idx_spec(text@, utf16_offset as int),
        r <= text@.len(),
{
    let ghost s = text@;
    let total_bytes: usize = text.as_bytes().len();
    let n: usize = text.unicode_len();
    let mut i: usize = 0;
    let mut c16: usize = 0;
    proof {
        lemma_len_bounds(s);
        lemma_utf8_len_is_encoding_len(s);
        assert(s.skip(0) =~= s);
    }
    while i < n && (c16 as u64) < utf16_offset
        invariant
            s == text@,
            0 <= i <= n,
            n == s.len(),
            utf16_len(s) <= total_bytes <= usize::MAX,
            c16 == utf16_len(s.take(i as int)),
            utf16_to_char_idx_spec(s, utf16_offset as int) == i + utf16_to_char_idx_spec(
                s.skip(i as int),
                utf16_offset - c16,
            ),
        decreases n - i,
    {
        let c = text.get_char(i);
        proof {
            assert(s.skip(i as int)[0] == s[i as int]);
            assert(s.skip(i as int).drop_first() =~= s.skip(i + 1));
            lemma_utf8_len_take_succ(s, i as int);
            lemma_utf16_len_additive(s.take(i + 1), s.skip(i + 1));
            assert(s.take(i + 1) + s.skip(i + 1) =~= s);
            lemma_len_bounds(s.skip(i + 1));
        }
        let w16 = char_utf16_width(c);
        c16 = c16 + w16;
        i = i + 1;
    }
    proof {
        if i == n && (c16 as u64) < utf16_offset {
            assert(s.skip(i as int) =~= Seq::<char>::empty());
        }
    }
    i
}

/// UTF-16 code-unit length of the first `p` characters of `text`.
pub fn utf16_prefix(text: &str, p: usize) -> (r: usize)
    requires
        p <= text@.len(),
    ensures
        r == utf16_len(text@.take(p as int)),
{
    let ghost s = text@;
    let total_bytes: usize = text.as_bytes().len();
    proof {
        lemma_utf8_len_is_encoding_len(s);
    }
    let mut i: usize = 0;
    let mut c16: usize = 0;
    while i < p
        invariant
            s == text@,
            0 <= i <= p,
            p <= s.len(),
            utf8_len(s) == total_bytes,
            c16 == utf16_len(s.take(i as int)),
        decreases p - i,
    {
        let c = text.get_char(i);
        proof {
            lemma_utf8_len_take_succ(s, i as int);
            lemma_len_bounds(s.take(i + 1));
            lemma_utf8_len_additive(s.take(i + 1), s.skip(i + 1));
            assert(s.take(i + 1) + s.skip(i + 1) =~= s);
            lemma_len_bounds(s.skip(i + 1));
        }
        let w16 = char_utf16_width(c);
        c16 = c16 + w16;
        i = i + 1;
    }
    c16
}

/// Byte width of one character's UTF-8 encoding.
pub fn char_utf8_width(c: char) -> (w: usize)
    ensures
        w == utf8_width(c),
{
    let u = c as u32;
    if u < 0x80 {
        1
    } else if u < 0x800 {
        2
    } else if u < 0x10000 {
        3
    } else {
        4
    }
}

/// UTF-16 code-unit width of one character.
pub fn char_utf16_width(c: char) -> (w: usize)
    ensures
        w == utf16_width(c),
{
    let u = c as u32;
    if u < 0x10000 {
        1
    } else {
        2
    }
}

/// Scanning to the byte offset of a character boundary stops exactly at that
/// boundary and yields its UTF-16 offset.
pub proof fn lemma_byte_to_utf16_at_boundary(s: Seq<char>, k: int)
    requires
        0 <= k <= s.len(),
    ensures
        byte_to_utf16_spec(s, utf8_len(s.take(k))) == utf16_len(s.take(k)),
    decreases k,
{
    if k == 0 {
        assert(s.take(0) =~= Seq::<char>::empty());
    } else {
        assert(s.take(k)[0] == s[0]);
        assert(s.take(k).drop_first() =~= s.drop_first().take(k - 1));
        lemma_len_bounds(s.drop_first().take(k - 1));
        lemma_byte_to_utf16_at_boundary(s.drop_first(), k - 1);
    }
}

/// Scanning to the UTF-16 offset of a character boundary stops exactly at
/// that boundary and yields its byte offset.
pub proof fn lemma_utf16_to_byte_at_boundary(s: Seq<char>, k: int)
    requires
        0 <= k <= s.len(),
    ensures
        utf16_to_byte_spec(s, utf16_len(s.take(k))) == utf8_len(s.take(k)),
        utf16_to_char_idx_spec(s, utf16_len(s.take(k))) == k,
    decreases k,
{
    if k == 0 {
        assert(s.take(0) =~= Seq::<char>::empty());
    } else {
        assert(s.take(k)[0] == s[0]);
        assert(s.take(k).drop_first() =~= s.drop_first().take(k - 1));
        lemma_len_bounds(s.drop_first().take(k - 1));
        lemma_utf16_to_byte_at_boundary(s.drop_first(), k - 1);
    }
}

/// Round trip: converting a boundary-aligned byte offset to a UTF-16 offset
/// and back yields the original byte offset.
pub proof fn lemma_offset_round_trip(s: Seq<char>, b: int)
    requires
        is_byte_boundary(s, b),
    ensures
        utf16_to_byte_spec(s, byte_to_utf16_spec(s, b)) == b,
{
    let k = choose|k: int| 0 <= k <= s.len() && b == utf8_len(#[trigger] s.take(k));
    lemma_byte_to_utf16_at_boundary(s, k);
    lemma_utf16_to_byte_at_boundary(s, k);
}

} // verus!
