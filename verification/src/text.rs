//! Whitespace handling on UTF-8 text, byte by byte.
//!
//! Whitespace is the Unicode `White_Space` property (what `char::is_whitespace`
//! tests): the ASCII tab, line feed, vertical tab, form feed, carriage return
//! and space, and U+0085, U+00A0, U+1680, U+2000..=U+200A, U+2028, U+2029,
//! U+202F, U+205F and U+3000, matched here by their UTF-8 encodings.
use vstd::prelude::*;

verus! {

pub open spec fn is_ascii_ws(b: u8) -> bool {
    (9 <= b && b <= 13) || b == 32
}

pub open spec fn is_ws2(b0: u8, b1: u8) -> bool {
    b0 == 0xC2 && (b1 == 0x85 || b1 == 0xA0)
}

pub open spec fn is_ws3(b0: u8, b1: u8, b2: u8) -> bool {
    ||| (b0 == 0xE1 && b1 == 0x9A && b2 == 0x80)
    ||| (b0 == 0xE2 && b1 == 0x80 && ((0x80 <= b2 && b2 <= 0x8A) || b2 == 0xA8 || b2 == 0xA9
        || b2 == 0xAF))
    ||| (b0 == 0xE2 && b1 == 0x81 && b2 == 0x9F)
    ||| (b0 == 0xE3 && b1 == 0x80 && b2 == 0x80)
}

/// The length of the whitespace character that starts at `i` in `s[..end]` (0 if none).
pub open spec fn ws_at(s: Seq<u8>, i: int, end: int) -> int {
    if 0 <= i && i < end && is_ascii_ws(s[i]) {
        1
    } else if 0 <= i && i + 1 < end && is_ws2(s[i], s[i + 1]) {
        2
    } else if 0 <= i && i + 2 < end && is_ws3(s[i], s[i + 1], s[i + 2]) {
        3
    } else {
        0
    }
}

/// The length of the whitespace character that ends at `j` in `s[lo..]` (0 if none).
pub open spec fn ws_before(s: Seq<u8>, lo: int, j: int) -> int {
    if lo <= j - 1 && is_ascii_ws(s[j - 1]) {
        1
    } else if lo <= j - 2 && is_ws2(s[j - 2], s[j - 1]) {
        2
    } else if lo <= j - 3 && is_ws3(s[j - 3], s[j - 2], s[j - 1]) {
        3
    } else {
        0
    }
}

/// The first index at or after `i` (below `end`) that does not start whitespace.
pub open spec fn skip_ws(s: Seq<u8>, i: int, end: int) -> int
    decreases end - i,
{
    if i < end && ws_at(s, i, end) > 0 {
        skip_ws(s, i + ws_at(s, i, end), end)
    } else {
        i
    }
}

/// The last index at or before `j` (above `lo`) that does not end whitespace.
pub open spec fn skip_ws_back(s: Seq<u8>, lo: int, j: int) -> int
    decreases j - lo,
{
    if j > lo && ws_before(s, lo, j) > 0 {
        skip_ws_back(s, lo, j - ws_before(s, lo, j))
    } else {
        j
    }
}

/// `s` without leading and trailing whitespace.
pub open spec fn spec_trim(s: Seq<u8>) -> Seq<u8> {
    let a = skip_ws(s, 0, s.len() as int);
    s.subrange(a, skip_ws_back(s, a, s.len() as int))
}

pub proof fn lemma_skip_ws_bounds(s: Seq<u8>, i: int, end: int)
    requires
        0 <= i <= end <= s.len(),
    ensures
        i <= skip_ws(s, i, end) <= end,
    decreases end - i,
{
    if i < end && ws_at(s, i, end) > 0 {
        lemma_skip_ws_bounds(s, i + ws_at(s, i, end), end);
    }
}

pub proof fn lemma_skip_ws_back_bounds(s: Seq<u8>, lo: int, j: int)
    requires
        0 <= lo <= j <= s.len(),
    ensures
        lo <= skip_ws_back(s, lo, j) <= j,
    decreases j - lo,
{
    if j > lo && ws_before(s, lo, j) > 0 {
        lemma_skip_ws_back_bounds(s, lo, j - ws_before(s, lo, j));
    }
}

/// The length of the whitespace character at `i` in `s[..end]`.
pub fn ws_len_at(s: &[u8], i: usize, end: usize) -> (r: usize)
    requires
        end <= s@.len(),
    ensures
        r == ws_at(s@, i as int, end as int),
{
    if i < end && ((9 <= s[i] && s[i] <= 13) || s[i] == 32) {
        1
    } else if i < end && end - i > 1 && s[i] == 0xC2 && (s[i + 1] == 0x85 || s[i + 1] == 0xA0) {
        2
    } else if i < end && end - i > 2 && ((s[i] == 0xE1 && s[i + 1] == 0x9A && s[i + 2] == 0x80)
        || (s[i] == 0xE2 && s[i + 1] == 0x80 && ((0x80 <= s[i + 2] && s[i + 2] <= 0x8A) || s[i
        + 2] == 0xA8 || s[i + 2] == 0xA9 || s[i + 2] == 0xAF)) || (s[i] == 0xE2 && s[i + 1]
        == 0x81 && s[i + 2] == 0x9F) || (s[i] == 0xE3 && s[i + 1] == 0x80 && s[i + 2] == 0x80)) {
        3
    } else {
        0
    }
}

/// The length of the whitespace character ending at `j` in `s[lo..]`.
fn ws_len_before(s: &[u8], lo: usize, j: usize) -> (r: usize)
    requires
        lo <= j <= s@.len(),
    ensures
        r == ws_before(s@, lo as int, j as int),
{
    if j - lo >= 1 && ((9 <= s[j - 1] && s[j - 1] <= 13) || s[j - 1] == 32) {
        1
    } else if j - lo >= 2 && s[j - 2] == 0xC2 && (s[j - 1] == 0x85 || s[j - 1] == 0xA0) {
        2
    } else if j - lo >= 3 && ((s[j - 3] == 0xE1 && s[j - 2] == 0x9A && s[j - 1] == 0x80) || (s[j
        - 3] == 0xE2 && s[j - 2] == 0x80 && ((0x80 <= s[j - 1] && s[j - 1] <= 0x8A) || s[j - 1]
        == 0xA8 || s[j - 1] == 0xA9 || s[j - 1] == 0xAF)) || (s[j - 3] == 0xE2 && s[j - 2]
        == 0x81 && s[j - 1] == 0x9F) || (s[j - 3] == 0xE3 && s[j - 2] == 0x80 && s[j - 1]
        == 0x80)) {
        3
    } else {
        0
    }
}

/// The bounds `[a, b)` of `s` without leading and trailing whitespace.
pub fn trim_bounds(s: &[u8]) -> (r: (usize, usize))
    ensures
        r.0 <= r.1 <= s@.len(),
        s@.subrange(r.0 as int, r.1 as int) == spec_trim(s@),
        r.0 == skip_ws(s@, 0, s@.len() as int),
{
    let n = s.len();
    let mut a: usize = 0;
    while ws_len_at(s, a, n) > 0
        invariant
            a <= n,
            n == s@.len(),
            skip_ws(s@, 0, n as int) == skip_ws(s@, a as int, n as int),
        decreases n - a,
    {
        a = a + ws_len_at(s, a, n);
    }
    let mut b: usize = n;
    while b > a && ws_len_before(s, a, b) > 0
        invariant
            a <= b <= n,
            n == s@.len(),
            skip_ws(s@, 0, n as int) == a,
            skip_ws_back(s@, a as int, n as int) == skip_ws_back(s@, a as int, b as int),
        decreases b - a,
    {
        b = b - ws_len_before(s, a, b);
    }
    (a, b)
}

/// `s` without leading and trailing whitespace.
pub fn trim(s: &[u8]) -> (r: Vec<u8>)
    ensures
        r@ == spec_trim(s@),
{
    let (a, b) = trim_bounds(s);
    crate::bytes::copy_range(s, a, b)
}

/// The index after the whitespace-free word that starts at `i` (below `end`).
pub open spec fn word_end(s: Seq<u8>, i: int, end: int) -> int
    decreases end - i,
{
    if i < end && ws_at(s, i, end) == 0 {
        word_end(s, i + 1, end)
    } else {
        i
    }
}

/// The whitespace-separated words of `s[i..end]`, in order.
pub open spec fn spec_words_from(s: Seq<u8>, i: int, end: int) -> Seq<Seq<u8>>
    decreases end - i, 1int,
{
    if i >= end {
        Seq::empty()
    } else if ws_at(s, i, end) > 0 {
        spec_words_from(s, i + ws_at(s, i, end), end)
    } else {
        let e = word_end(s, i, end);
        if e <= i || e > end {
            Seq::empty()
        } else {
            seq![s.subrange(i, e)] + spec_words_from(s, e, end)
        }
    }
}

/// The whitespace-separated words of `s` (what `str::split_whitespace` yields).
pub open spec fn spec_words(s: Seq<u8>) -> Seq<Seq<u8>> {
    spec_words_from(s, 0, s.len() as int)
}

proof fn lemma_word_end_bounds(s: Seq<u8>, i: int, end: int)
    requires
        i <= end,
    ensures
        i <= word_end(s, i, end) <= end,
    decreases end - i,
{
    if i < end && ws_at(s, i, end) == 0 {
        lemma_word_end_bounds(s, i + 1, end);
    }
}

/// Splits `s` into whitespace-separated words; `None` once more than `max` words are found.
pub fn split_words(s: &[u8], max: usize) -> (r: Option<Vec<Vec<u8>>>)
    ensures
        match r {
            Some(ws) => spec_words(s@).len() <= max && ws@.len() == spec_words(s@).len() && forall|
                k: int,
            | 0 <= k < ws@.len() ==> #[trigger] ws@[k]@ == spec_words(s@)[k],
            None => spec_words(s@).len() > max,
        },
{
    let n = s.len();
    let mut i: usize = 0;
    let mut out: Vec<Vec<u8>> = Vec::new();
    while i < n
        invariant
            i <= n,
            n == s@.len(),
            out@.len() <= max,
            spec_words(s@) == out@.map_values(|w: Vec<u8>| w@) + spec_words_from(
                s@,
                i as int,
                n as int,
            ),
        decreases n - i,
    {
        let w = ws_len_at(s, i, n);
        if w > 0 {
            i = i + w;
        } else {
            let mut e = i;
            proof {
                lemma_word_end_bounds(s@, i as int, n as int);
            }
            while e < n && ws_len_at(s, e, n) == 0
                invariant
                    i <= e <= n,
                    n == s@.len(),
                    word_end(s@, i as int, n as int) == word_end(s@, e as int, n as int),
                decreases n - e,
            {
                e = e + 1;
            }
            if out.len() >= max {
                proof {
                    assert(spec_words_from(s@, i as int, n as int).len() > 0);
                    assert(spec_words(s@).len() == out@.len() + spec_words_from(
                        s@,
                        i as int,
                        n as int,
                    ).len());
                }
                return None;
            }
            let word = crate::bytes::copy_range(s, i, e);
            let ghost prev = out@;
            out.push(word);
            proof {
                assert(out@.map_values(|w: Vec<u8>| w@) =~= prev.map_values(|w: Vec<u8>| w@).push(
                    s@.subrange(i as int, e as int),
                ));
                assert(spec_words_from(s@, i as int, n as int) == seq![
                    s@.subrange(i as int, e as int),
                ] + spec_words_from(s@, e as int, n as int));
                assert(out@.map_values(|w: Vec<u8>| w@) + spec_words_from(s@, e as int, n as int)
                    =~= prev.map_values(|w: Vec<u8>| w@) + spec_words_from(
                    s@,
                    i as int,
                    n as int,
                ));
            }
            i = e;
        }
    }
    proof {
        assert(spec_words(s@) =~= out@.map_values(|w: Vec<u8>| w@));
        assert forall|k: int| 0 <= k < out@.len() implies #[trigger] out@[k]@ == spec_words(
            s@,
        )[k] by {
            assert(out@.map_values(|w: Vec<u8>| w@)[k] == out@[k]@);
        }
    }
    Some(out)
}

} // verus!
