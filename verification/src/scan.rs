//! The masked scanner: find the first offset of a buffer that matches a
//! pattern under the wildcard mask.

use vstd::prelude::*;
use crate::pattern::{Token, token_matches};

verus! {

/// Whether the window of `data` starting at offset `o` matches `pat`
/// element-wise: the window must fit inside `data`, and every non-wildcard
/// token must equal the corresponding buffer byte.
pub open spec fn window_matches(data: Seq<u8>, pat: Seq<Token>, o: int) -> bool {
    &&& 0 <= o
    &&& o + pat.len() <= data.len()
    &&& forall|j: int| 0 <= j < pat.len() ==> #[trigger] token_matches(pat[j], data[o + j])
}

/// Compare the window of `data` at offset `o` against `pat`.
pub fn window_matches_at(data: &Vec<u8>, pat: &Vec<Token>, o: usize) -> (r: bool)
    requires
        o + pat@.len() <= data@.len(),
    ensures
        r == window_matches(data@, pat@, o as int),
{
    let n: usize = data.len();
    let m: usize = pat.len();
    let mut j: usize = 0;
    while j < m
        invariant
            0 <= j <= m,
            m == pat@.len(),
            n == data@.len(),
            o + m <= n,
            forall|k: int| 0 <= k < j ==> #[trigger] token_matches(pat@[k], data@[o + k]),
        decreases m - j,
    {
        match pat[j] {
            Token::Wildcard => {}
            Token::Literal(v) => {
                if data[o + j] != v {
                    assert(!token_matches(pat@[j as int], data@[o + j]));
                    return false;
                }
            }
        }
        j += 1;
    }
    true
}

/// The first offset at or after `i` whose window matches `pat`, scanning
/// left to right, or `None` if there is none.
pub open spec fn first_match_from(data: Seq<u8>, pat: Seq<Token>, i: int) -> Option<int>
    decreases data.len() - i,
{
    if i < 0 || i + pat.len() > data.len() {
        None
    } else if window_matches(data, pat, i) {
        Some(i)
    } else {
        first_match_from(data, pat, i + 1)
    }
}

/// The lowest offset of `data` whose window matches `pat`, or `None` if no
/// offset matches.
pub open spec fn first_match(data: Seq<u8>, pat: Seq<Token>) -> Option<int> {
    first_match_from(data, pat, 0)
}

/// If a window matches at `o` and none matches in `[i, o)`, the scan from
/// `i` finds exactly `o`.
proof fn lemma_first_match_from_some(data: Seq<u8>, pat: Seq<Token>, i: int, o: int)
    requires
        0 <= i <= o,
        window_matches(data, pat, o),
        forall|j: int| i <= j < o ==> !window_matches(data, pat, j),
    ensures
        first_match_from(data, pat, i) == Some(o),
    decreases o - i,
{
    if i < o {
        assert(!window_matches(data, pat, i));
        lemma_first_match_from_some(data, pat, i + 1, o);
    }
}

/// If no window at or after `i` matches, the scan from `i` finds nothing.
proof fn lemma_first_match_from_none(data: Seq<u8>, pat: Seq<Token>, i: int)
    requires
        0 <= i,
        forall|j: int| i <= j ==> !window_matches(data, pat, j),
    ensures
        first_match_from(data, pat, i) is None,
    decreases data.len() + 1 - i,
{
    if i + pat.len() <= data.len() {
        assert(!window_matches(data, pat, i));
        lemma_first_match_from_none(data, pat, i + 1);
    }
}

/// Characterization of the scan from `i`: a found offset is the lowest
/// matching one at or after `i`; `None` means nothing at or after `i`
/// matches.
proof fn lemma_first_match_from_props(data: Seq<u8>, pat: Seq<Token>, i: int)
    requires
        0 <= i,
    ensures
        match first_match_from(data, pat, i) {
            Some(o) => {
                &&& i <= o
                &&& window_matches(data, pat, o)
                &&& forall|j: int| i <= j < o ==> !window_matches(data, pat, j)
            },
            None => forall|j: int| i <= j ==> !window_matches(data, pat, j),
        },
    decreases data.len() + 1 - i,
{
    if i + pat.len() > data.len() {
        assert forall|j: int| i <= j implies !window_matches(data, pat, j) by {
            assert(j + pat.len() > data.len());
        }
    } else if window_matches(data, pat, i) {
    } else {
        lemma_first_match_from_props(data, pat, i + 1);
    }
}

/// If `first_match` returns `Some(o)`, then the window at `o` matches and
/// `o` is strictly the lowest matching offset: no smaller offset matches.
pub proof fn lemma_first_match_is_first(data: Seq<u8>, pat: Seq<Token>)
    ensures
        match first_match(data, pat) {
            Some(o) => {
                &&& 0 <= o
                &&& o + pat.len() <= data.len()
                &&& window_matches(data, pat, o)
                &&& forall|j: int| 0 <= j < o ==> !window_matches(data, pat, j)
            },
            None => true,
        },
{
    lemma_first_match_from_props(data, pat, 0);
}

/// `first_match` returns `None` exactly when no offset of `data` has a
/// matching window for `pat`.
pub proof fn lemma_none_means_no_match(data: Seq<u8>, pat: Seq<Token>)
    ensures
        first_match(data, pat) is None <==> (forall|j: int| !window_matches(data, pat, j)),
{
    lemma_first_match_from_props(data, pat, 0);
    if first_match(data, pat) is None {
        assert forall|j: int| !window_matches(data, pat, j) by {
            if j < 0 {
            } else {
                assert(!window_matches(data, pat, j));
            }
        }
    }
}

/// The lowest index at or after `from` where `data` holds the byte `b`, or
/// `None` if `b` does not occur there.
pub fn find_byte(data: &Vec<u8>, b: u8, from: usize) -> (r: Option<usize>)
    ensures
        match r {
            Some(p) => {
                &&& from <= p < data@.len()
                &&& data@[p as int] == b
                &&& forall|q: int| from <= q < p ==> data@[q] != b
            },
            None => forall|q: int| from <= q < data@.len() ==> data@[q] != b,
        },
{
    let n: usize = data.len();
    let mut p: usize = from;
    while p < n
        invariant
            from <= p,
            n == data@.len(),
            forall|q: int| from <= q < p ==> data@[q] != b,
        decreases n - p,
    {
        if data[p] == b {
            return Some(p);
        }
        p += 1;
    }
    None
}

/// Unanchored scan: slide a window across every valid start offset in
/// increasing order and return the first offset whose window matches.
pub fn find_pattern_unanchored(data: &Vec<u8>, pattern: &Vec<Token>) -> (r: Option<usize>)
    ensures
        match r {
            Some(o) => first_match(data@, pattern@) == Some(o as int),
            None => first_match(data@, pattern@) is None,
        },
{
    let n: usize = data.len();
    let m: usize = pattern.len();
    if n < m {
        proof {
            lemma_first_match_from_none(data@, pattern@, 0);
        }
        return None;
    }
    let mut i: usize = 0;
    while i <= n - m
        invariant
            m <= n,
            n == data@.len(),
            m == pattern@.len(),
            i <= n - m + 1,
            forall|j: int| 0 <= j < i ==> !window_matches(data@, pattern@, j),
        decreases n - i,
    {
        if window_matches_at(data, pattern, i) {
            proof {
                lemma_first_match_from_some(data@, pattern@, 0, i as int);
            }
            return Some(i);
        }
        i += 1;
    }
    proof {
        assert forall|j: int| 0 <= j implies !window_matches(data@, pattern@, j) by {
            if j >= i {
                assert(j + pattern@.len() > data@.len());
            }
        }
        lemma_first_match_from_none(data@, pattern@, 0);
    }
    None
}

/// First-byte-anchored scan, used when the pattern starts with a concrete
/// byte: hop between occurrences of that byte and verify the full window
/// only at those candidate offsets. Falls back to the unanchored scan when
/// the first token is a wildcard. Both paths return the lowest matching
/// offset, so the anchoring is a performance classification only.
pub fn find_pattern_fast(data: &Vec<u8>, pattern: &Vec<Token>) -> (r: Option<usize>)
    ensures
        match r {
            Some(o) => first_match(data@, pattern@) == Some(o as int),
            None => first_match(data@, pattern@) is None,
        },
{
    let n: usize = data.len();
    let m: usize = pattern.len();
    if n < m {
        proof {
            lemma_first_match_from_none(data@, pattern@, 0);
        }
        return None;
    }
    if m == 0 {
        proof {
            lemma_first_match_from_some(data@, pattern@, 0, 0);
        }
        return Some(0);
    }
    let first: u8 = match pattern[0] {
        Token::Wildcard => {
            return find_pattern_unanchored(data, pattern);
        }
        Token::Literal(v) => v,
    };
    let mut cursor: usize = 0;
    loop
        invariant
            1 <= m <= n,
            n == data@.len(),
            m == pattern@.len(),
            pattern@[0] == Token::Literal(first),
            cursor <= n,
            forall|j: int| 0 <= j < cursor ==> !window_matches(data@, pattern@, j),
        decreases n - cursor,
    {
        match find_byte(data, first, cursor) {
            None => {
                proof {
                    assert forall|j: int| 0 <= j implies !window_matches(data@, pattern@, j) by {
                        if cursor <= j < n {
                            assert(data@[j] != first);
                            assert(!token_matches(pattern@[0], data@[j + 0]));
                        } else if j >= n {
                            assert(j + pattern@.len() > data@.len());
                        }
                    }
                    lemma_first_match_from_none(data@, pattern@, 0);
                }
                return None;
            }
            Some(p) => {
                if p > n - m {
                    proof {
                        assert forall|j: int| 0 <= j implies !window_matches(data@, pattern@, j)
                        by {
                            if cursor <= j < p {
                                assert(data@[j] != first);
                                assert(!token_matches(pattern@[0], data@[j + 0]));
                            } else if j >= p {
                                assert(j + pattern@.len() > data@.len());
                            }
                        }
                        lemma_first_match_from_none(data@, pattern@, 0);
                    }
                    return None;
                }
                if window_matches_at(data, pattern, p) {
                    proof {
                        assert forall|j: int| 0 <= j < p implies !window_matches(
                            data@,
                            pattern@,
                            j,
                        ) by {
                            if cursor <= j {
                                assert(data@[j] != first);
                                assert(!token_matches(pattern@[0], data@[j + 0]));
                            }
                        }
                        lemma_first_match_from_some(data@, pattern@, 0, p as int);
                    }
                    return Some(p);
                }
                proof {
                    assert forall|j: int| 0 <= j < p + 1 implies !window_matches(
                        data@,
                        pattern@,
                        j,
                    ) by {
                        if cursor <= j < p {
                            assert(data@[j] != first);
                            assert(!token_matches(pattern@[0], data@[j + 0]));
                        }
                    }
                }
                cursor = p + 1;
            }
        }
    }
}

} // verus!
