//! Translation of UTF-8 byte ranges into character ranges.

use std::ops::Range;
use vstd::prelude::*;
use vstd::utf8::{char_is_scalar, encode_scalar, encode_utf8};

verus! {

/// Number of bytes in the UTF-8 encoding of the first `k` characters of `t`:
/// the byte offset at which character `k` starts.
pub open spec fn byte_offset(t: Seq<char>, k: int) -> int {
    encode_utf8(t.take(k)).len() as int
}

/// Number of bytes in the UTF-8 encoding of `t`.
pub open spec fn byte_len(t: Seq<char>) -> int {
    encode_utf8(t).len() as int
}

/// The first character index below `m` whose starting byte offset is `b`.
pub open spec fn index_below(t: Seq<char>, b: int, m: int) -> Option<int>
    decreases m,
{
    if m <= 0 {
        None
    } else {
        match index_below(t, b, m - 1) {
            Some(k) => Some(k),
            None => if byte_offset(t, m - 1) == b {
                Some(m - 1)
            } else {
                None
            },
        }
    }
}

/// The character index of a byte offset, when some character of `t` starts there.
pub open spec fn char_index_at(t: Seq<char>, b: int) -> Option<int> {
    index_below(t, b, t.len() as int)
}

/// The character range that `[s, e)` denotes in `t`.
///
/// An end offset at which no character starts resolves to the character count
/// of `t` (a span that runs to the end of the text). A start offset at which no
/// character starts, or one that lies past the resolved end, gives `[0, 0)`.
pub open spec fn translate_spec(t: Seq<char>, s: int, e: int) -> (int, int) {
    let end = match char_index_at(t, e) {
        Some(k) => k,
        None => t.len() as int,
    };
    match char_index_at(t, s) {
        Some(k) => if k <= end {
            (k, end)
        } else {
            (0, 0)
        },
        None => (0, 0),
    }
}

proof fn lemma_encode_concat(a: Seq<char>, b: Seq<char>)
    ensures
        encode_utf8(a + b) == encode_utf8(a) + encode_utf8(b),
    decreases a.len(),
{
    if a.len() == 0 {
        assert(a + b =~= b);
        assert(encode_utf8(a) + encode_utf8(b) =~= encode_utf8(b));
    } else {
        assert((a + b).drop_first() =~= a.drop_first() + b);
        lemma_encode_concat(a.drop_first(), b);
        assert(encode_utf8(a + b) =~= encode_utf8(a) + encode_utf8(b));
    }
}

/// Moving one character forward advances the byte offset by that character's width.
proof fn lemma_offset_step(t: Seq<char>, k: int)
    requires
        0 <= k < t.len(),
    ensures
        byte_offset(t, k + 1) == byte_offset(t, k) + encode_scalar(t[k] as u32).len(),
        encode_scalar(t[k] as u32).len() >= 1,
{
    assert(t.take(k + 1) =~= t.take(k) + seq![t[k]]);
    lemma_encode_concat(t.take(k), seq![t[k]]);
    let one = seq![t[k]];
    assert(one.drop_first() =~= Seq::<char>::empty());
    assert(encode_utf8(one) =~= encode_scalar(t[k] as u32) + encode_utf8(Seq::<char>::empty()));
    assert(encode_utf8(Seq::<char>::empty()) =~= Seq::<u8>::empty());
}

/// Byte offsets grow strictly with the character index.
proof fn lemma_offset_strict(t: Seq<char>, i: int, j: int)
    requires
        0 <= i < j <= t.len(),
    ensures
        byte_offset(t, i) < byte_offset(t, j),
    decreases j - i,
{
    lemma_offset_step(t, j - 1);
    if i < j - 1 {
        lemma_offset_strict(t, i, j - 1);
    }
}

proof fn lemma_offset_full(t: Seq<char>)
    ensures
        byte_offset(t, t.len() as int) == byte_len(t),
{
    assert(t.take(t.len() as int) =~= t);
}

/// `index_below` finds exactly the index whose offset is `b`, when it is below `m`.
proof fn lemma_index_below_exact(t: Seq<char>, k: int, m: int)
    requires
        0 <= k <= t.len(),
        0 <= m <= t.len(),
    ensures
        index_below(t, byte_offset(t, k), m) == (if k < m {
            Some(k)
        } else {
            None::<int>
        }),
    decreases m,
{
    if m > 0 {
        lemma_index_below_exact(t, k, m - 1);
        if m - 1 != k {
            if m - 1 < k {
                lemma_offset_strict(t, m - 1, k);
            } else {
                lemma_offset_strict(t, k, m - 1);
            }
        }
    }
}

proof fn lemma_index_below_range(t: Seq<char>, b: int, m: int)
    ensures
        index_below(t, b, m) matches Some(k) ==> 0 <= k < m,
    decreases m,
{
    if m > 0 {
        lemma_index_below_range(t, b, m - 1);
    }
}

/// A byte range whose ends are both character boundaries of `t` translates to
/// the number of characters before each end. The one boundary excluded as a
/// start is the end of a non-empty text, where no character starts.
pub proof fn lemma_translate_boundaries(t: Seq<char>, ks: int, ke: int)
    requires
        0 <= ks <= ke <= t.len(),
        ks < t.len() || t.len() == 0,
    ensures
        translate_spec(t, byte_offset(t, ks), byte_offset(t, ke)) == (ks, ke),
{
    lemma_index_below_exact(t, ks, t.len() as int);
    lemma_index_below_exact(t, ke, t.len() as int);
}

/// An end offset equal to the byte length of the text resolves to the
/// character count of the text rather than degrading.
pub proof fn lemma_translate_end_of_text(t: Seq<char>, ks: int)
    requires
        0 <= ks < t.len(),
    ensures
        translate_spec(t, byte_offset(t, ks), byte_len(t)) == (ks, t.len() as int),
{
    lemma_offset_full(t);
    lemma_translate_boundaries(t, ks, t.len() as int);
}

/// Number of bytes in the UTF-8 encoding of `c`.
fn utf8_width(c: char) -> (w: usize)
    ensures
        w == encode_scalar(c as u32).len(),
{
    proof {
        char_is_scalar(c);
    }
    let u = c as u32;
    if u < 0x80 {
        1
    } else if u < 0x800 {
        2
    } else if u < 0x10000 {
        3
    } else {
        4
    }
}

/// Converts a byte range over the UTF-8 encoding of `text` into a character range.
///
/// Each endpoint becomes the index of the character that starts at that byte.
/// An end at which no character starts is taken to be the end of the text; a
/// start at which no character starts, or one past the end, degrades to `0..0`.
pub fn byte_range_to_char_range(text: &str, byte_range: Range<usize>) -> (r: Range<usize>)
    ensures
        (r.start as int, r.end as int) == translate_spec(
            text@,
            byte_range.start as int,
            byte_range.end as int,
        ),
{
    let t = Ghost(text@);
    let n = text.as_bytes().len();
    proof {
        lemma_offset_full(t@);
    }
    let mut pos: usize = 0;
    let mut idx: usize = 0;
    let mut char_start: Option<usize> = None;
    let mut char_end: Option<usize> = None;
    for c in it: text.chars()
        invariant
            it.seq() == t@,
            t@ == text@,
            n == byte_len(t@),
            byte_offset(t@, t@.len() as int) == n,
            idx == it.index(),
            pos == byte_offset(t@, idx as int),
            idx <= pos,
            char_end == (match index_below(t@, byte_range.end as int, idx as int) {
                Some(k) => Some(k as usize),
                None => None::<usize>,
            }),
            char_start == (match index_below(t@, byte_range.start as int, idx as int) {
                Some(k) => if char_end is None || k <= char_end->0 {
                    Some(k as usize)
                } else {
                    None::<usize>
                },
                None => None::<usize>,
            }),
    {
        assert(idx < t@.len());
        assert(c == t@[idx as int]);
        proof {
            lemma_offset_step(t@, idx as int);
            lemma_index_below_range(t@, byte_range.start as int, idx as int);
            lemma_index_below_range(t@, byte_range.end as int, idx as int);
            if idx + 1 < t@.len() {
                lemma_offset_strict(t@, idx as int + 1, t@.len() as int);
            }
        }
        if char_start.is_none() && char_end.is_none() && pos == byte_range.start {
            char_start = Some(idx);
        }
        if char_end.is_none() && pos == byte_range.end {
            char_end = Some(idx);
        }
        pos = pos + utf8_width(c);
        idx = idx + 1;
    }
    proof {
        lemma_index_below_range(t@, byte_range.start as int, idx as int);
        lemma_index_below_range(t@, byte_range.end as int, idx as int);
    }
    let end = match char_end {
        Some(k) => k,
        None => idx,
    };
    match char_start {
        Some(k) => k..end,
        None => 0..0,
    }
}

} // verus!
