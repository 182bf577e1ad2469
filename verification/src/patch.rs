//! The patch orchestrator: apply compiled entries to a buffer in list
//! order, one scan per entry, against the evolving buffer.

use vstd::prelude::*;
use crate::pattern::PatchEntry;
use crate::scan::{first_match, find_pattern_fast, lemma_first_match_is_first};

verus! {

/// `data` with the region `[o, o + r.len())` overwritten by `r`,
/// byte for byte, and every byte outside that region unchanged.
pub open spec fn overwrite(data: Seq<u8>, o: int, r: Seq<u8>) -> Seq<u8> {
    Seq::new(
        data.len(),
        |i: int|
            if o <= i < o + r.len() {
                r[i - o]
            } else {
                data[i]
            },
    )
}

/// The buffer after one entry is applied: when the pattern matches, its
/// whole replacement overwrites the window at the first matching offset;
/// when it does not, the buffer is left untouched.
pub open spec fn apply_entry_spec(data: Seq<u8>, e: PatchEntry) -> Seq<u8> {
    match first_match(data, e.pattern@) {
        Some(o) => overwrite(data, o, e.replace@),
        None => data,
    }
}

/// The buffer after the first `k` entries are applied in list order, each
/// against the buffer that the entries before it produced.
pub open spec fn buf_after(data: Seq<u8>, entries: Seq<PatchEntry>, k: int) -> Seq<u8>
    decreases k,
{
    if k <= 0 {
        data
    } else {
        apply_entry_spec(buf_after(data, entries, k - 1), entries[k - 1])
    }
}

/// Applying a prefix of the entry list never changes the buffer's length.
pub proof fn lemma_buf_after_len(data: Seq<u8>, entries: Seq<PatchEntry>, k: int)
    ensures
        buf_after(data, entries, k).len() == data.len(),
    decreases k,
{
    if k > 0 {
        lemma_buf_after_len(data, entries, k - 1);
    }
}

/// Apply one compiled entry: scan the buffer for the entry's pattern and,
/// on a match, overwrite exactly `e.replace.len()` bytes at the matched
/// offset with the replacement. On no match the buffer is untouched.
/// Returns the matched offset, or `None`.
pub fn apply_entry(data: &mut Vec<u8>, e: &PatchEntry) -> (r: Option<usize>)
    requires
        e.wf(),
    ensures
        final(data)@ == apply_entry_spec(old(data)@, *e),
        final(data)@.len() == old(data)@.len(),
        match r {
            Some(o) => first_match(old(data)@, e.pattern@) == Some(o as int),
            None => first_match(old(data)@, e.pattern@) is None,
        },
{
    let found = find_pattern_fast(data, &e.pattern);
    match found {
        Some(o) => {
            proof {
                lemma_first_match_is_first(data@, e.pattern@);
            }
            let ghost d0 = data@;
            let len: usize = data.len();
            let m: usize = e.replace.len();
            let mut j: usize = 0;
            while j < m
                invariant
                    j <= m,
                    m == e.replace@.len(),
                    o + m <= len,
                    len == data@.len(),
                    data@.len() == d0.len(),
                    forall|t: int| 0 <= t < j ==> data@[o + t] == e.replace@[t],
                    forall|t: int|
                        0 <= t < data@.len() && !(o <= t < o + j) ==> data@[t] == d0[t],
                decreases m - j,
            {
                data[o + j] = e.replace[j];
                j += 1;
            }
            proof {
                assert(data@ =~= overwrite(d0, o as int, e.replace@));
            }
            Some(o)
        }
        None => None,
    }
}

/// Apply every entry in list order, each scanned against the buffer as the
/// entries before it left it. A failed scan leaves the buffer untouched
/// for that entry and never aborts the rest. Returns one outcome per
/// entry: the matched offset, or `None`.
pub fn apply_patches(entries: &Vec<PatchEntry>, data: &mut Vec<u8>) -> (results: Vec<
    Option<usize>,
>)
    requires
        forall|k: int| 0 <= k < entries@.len() ==> (#[trigger] entries@[k]).wf(),
    ensures
        final(data)@ == buf_after(old(data)@, entries@, entries@.len() as int),
        final(data)@.len() == old(data)@.len(),
        results@.len() == entries@.len(),
        forall|k: int|
            0 <= k < entries@.len() ==> match first_match(
                buf_after(old(data)@, entries@, k),
                (#[trigger] entries@[k]).pattern@,
            ) {
                Some(o) => results@[k] == Some(o as usize),
                None => results@[k] is None,
            },
{
    let ghost d0 = data@;
    let n: usize = entries.len();
    let mut results: Vec<Option<usize>> = Vec::new();
    let mut k: usize = 0;
    while k < n
        invariant
            k <= n,
            n == entries@.len(),
            results@.len() == k,
            forall|t: int| 0 <= t < n ==> (#[trigger] entries@[t]).wf(),
            data@ == buf_after(d0, entries@, k as int),
            forall|t: int|
                0 <= t < k ==> match first_match(
                    buf_after(d0, entries@, t),
                    (#[trigger] entries@[t]).pattern@,
                ) {
                    Some(o) => results@[t] == Some(o as usize),
                    None => results@[t] is None,
                },
        decreases n - k,
    {
        let r = apply_entry(data, &entries[k]);
        results.push(r);
        k += 1;
    }
    proof {
        lemma_buf_after_len(d0, entries@, entries@.len() as int);
    }
    results
}

/// Applying an entry a second time changes nothing when its pattern no
/// longer matches the buffer that the first application produced: the
/// second scan fails and the buffer is left exactly as it was.
pub proof fn lemma_reapply_unmatched_is_noop(data: Seq<u8>, e: PatchEntry)
    requires
        first_match(apply_entry_spec(data, e), e.pattern@) is None,
    ensures
        apply_entry_spec(apply_entry_spec(data, e), e) == apply_entry_spec(data, e),
{
}

/// Two entries whose patches fall on disjoint regions, and whose matched
/// offsets do not depend on which of the two is applied first, produce the
/// same final buffer in either order. Overlapping patches are
/// order-sensitive and carry no such guarantee.
pub proof fn lemma_disjoint_patches_commute(
    data: Seq<u8>,
    e1: PatchEntry,
    e2: PatchEntry,
    o1: int,
    o2: int,
)
    requires
        e1.wf(),
        e2.wf(),
        first_match(data, e1.pattern@) == Some(o1),
        first_match(data, e2.pattern@) == Some(o2),
        first_match(overwrite(data, o1, e1.replace@), e2.pattern@) == Some(o2),
        first_match(overwrite(data, o2, e2.replace@), e1.pattern@) == Some(o1),
        o1 + e1.replace@.len() <= o2 || o2 + e2.replace@.len() <= o1,
    ensures
        apply_entry_spec(apply_entry_spec(data, e1), e2) == apply_entry_spec(
            apply_entry_spec(data, e2),
            e1,
        ),
        buf_after(data, seq![e1, e2], 2) == buf_after(data, seq![e2, e1], 2),
{
    assert(overwrite(overwrite(data, o1, e1.replace@), o2, e2.replace@) =~= overwrite(
        overwrite(data, o2, e2.replace@),
        o1,
        e1.replace@,
    ));
    assert(buf_after(data, seq![e1, e2], 0) == data);
    assert(buf_after(data, seq![e1, e2], 1) == apply_entry_spec(data, e1));
    assert(buf_after(data, seq![e1, e2], 2) == apply_entry_spec(apply_entry_spec(data, e1), e2));
    assert(buf_after(data, seq![e2, e1], 0) == data);
    assert(buf_after(data, seq![e2, e1], 1) == apply_entry_spec(data, e2));
    assert(buf_after(data, seq![e2, e1], 2) == apply_entry_spec(apply_entry_spec(data, e2), e1));
}

} // verus!
