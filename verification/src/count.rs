//! Counting the positions at which two byte strings agree.
use vstd::prelude::*;

verus! {

/// 1 where `a` and `b` agree at index `k`, else 0.
pub open spec fn match_at(a: Seq<u8>, b: Seq<u8>, k: int) -> nat {
    if a[k] == b[k] {
        1
    } else {
        0
    }
}

/// The number of indices in `lo..hi` at which `a` and `b` agree.
pub open spec fn count_matches_in(a: Seq<u8>, b: Seq<u8>, lo: int, hi: int) -> nat
    decreases hi - lo,
{
    if hi <= lo {
        0
    } else {
        count_matches_in(a, b, lo, hi - 1) + match_at(a, b, hi - 1)
    }
}

/// The number of indices below `len` at which `a` and `b` agree.
pub open spec fn count_matches(a: Seq<u8>, b: Seq<u8>, len: int) -> nat {
    count_matches_in(a, b, 0, len)
}

/// The number of indices below `len` at which `a` and `b` differ.
pub open spec fn count_mismatched(a: Seq<u8>, b: Seq<u8>, len: int) -> nat
    decreases len,
{
    if len <= 0 {
        0
    } else {
        count_mismatched(a, b, len - 1) + if a[len - 1] != b[len - 1] {
            1nat
        } else {
            0nat
        }
    }
}

/// The sum of counter lanes `8 * g .. 8 * g + 8`.
pub open spec fn sum_group(s: Seq<u8>, g: int) -> nat {
    sum_lanes(s.subrange(8 * g, 8 * g + 8))
}

/// The sum of the lanes.
pub open spec fn sum_lanes(s: Seq<u8>) -> nat
    decreases s.len(),
{
    if s.len() == 0 {
        0
    } else {
        sum_lanes(s.drop_last()) + s.last() as nat
    }
}

/// Counting over `lo..hi` is counting over `lo..mid` and then over `mid..hi`.
pub proof fn lemma_count_split(a: Seq<u8>, b: Seq<u8>, lo: int, mid: int, hi: int)
    requires
        lo <= mid <= hi,
    ensures
        count_matches_in(a, b, lo, hi) == count_matches_in(a, b, lo, mid) + count_matches_in(
            a,
            b,
            mid,
            hi,
        ),
    decreases hi - mid,
{
    if hi > mid {
        lemma_count_split(a, b, lo, mid, hi - 1);
    }
}

/// At most `hi - lo` indices of `lo..hi` agree.
pub proof fn lemma_count_bound(a: Seq<u8>, b: Seq<u8>, lo: int, hi: int)
    requires
        lo <= hi,
    ensures
        count_matches_in(a, b, lo, hi) <= hi - lo,
    decreases hi - lo,
{
    if hi > lo {
        lemma_count_bound(a, b, lo, hi - 1);
    }
}

/// Counting over a longer range never gives less.
pub proof fn lemma_count_mono(a: Seq<u8>, b: Seq<u8>, lo: int, x: int, y: int)
    requires
        lo <= x <= y,
    ensures
        count_matches_in(a, b, lo, x) <= count_matches_in(a, b, lo, y),
{
    lemma_count_split(a, b, lo, x, y);
}

/// Every index below `len` is either a match or a mismatch.
pub proof fn lemma_matches_plus_mismatches(a: Seq<u8>, b: Seq<u8>, len: int)
    requires
        0 <= len,
    ensures
        count_matches(a, b, len) + count_mismatched(a, b, len) == len,
    decreases len,
{
    if len > 0 {
        lemma_matches_plus_mismatches(a, b, len - 1);
    }
}

proof fn lemma_sum_concat(s1: Seq<u8>, s2: Seq<u8>)
    ensures
        sum_lanes(s1 + s2) == sum_lanes(s1) + sum_lanes(s2),
    decreases s2.len(),
{
    if s2.len() > 0 {
        assert((s1 + s2).drop_last() =~= s1 + s2.drop_last());
        lemma_sum_concat(s1, s2.drop_last());
    } else {
        assert(s1 + s2 =~= s1);
    }
}

proof fn lemma_sum_inc(s: Seq<u8>, k: int)
    requires
        0 <= k < s.len(),
        s[k] < 255,
    ensures
        sum_lanes(s.update(k, (s[k] + 1) as u8)) == sum_lanes(s) + 1,
    decreases s.len(),
{
    let t = s.update(k, (s[k] + 1) as u8);
    if k == s.len() - 1 {
        assert(t.drop_last() =~= s.drop_last());
    } else {
        assert(t.drop_last() =~= s.drop_last().update(k, (s[k] + 1) as u8));
        lemma_sum_inc(s.drop_last(), k);
    }
}

proof fn lemma_sum_zero(s: Seq<u8>)
    requires
        forall|k: int| 0 <= k < s.len() ==> s[k] == 0,
    ensures
        sum_lanes(s) == 0,
    decreases s.len(),
{
    if s.len() > 0 {
        lemma_sum_zero(s.drop_last());
    }
}

/// Counts the agreeing lanes of word `w`, as a population count of an equality mask.
pub fn word_matches(a: &[u8], b: &[u8], w: usize) -> (r: u32)
    requires
        32 * w + 32 <= a@.len(),
        32 * w + 32 <= b@.len(),
    ensures
        r == count_matches_in(a@, b@, 32 * w, 32 * w + 32),
        r <= 32,
{
    let _n = a.len();
    let base = 32 * w;
    let mut r: u32 = 0;
    let mut j: usize = 0;
    while j < 32
        invariant
            base == 32 * w,
            base + 32 <= a@.len(),
            base + 32 <= b@.len(),
            j <= 32,
            r == count_matches_in(a@, b@, base as int, base + j),
            r <= j,
        decreases 32 - j,
    {
        if a[base + j] == b[base + j] {
            r = r + 1;
        }
        j = j + 1;
    }
    r
}

/// Adds, in each of 32 one-byte lane counters, the matches of that lane
/// over words `lo..hi`; at most 255 words keep every counter from wrapping.
pub fn count_block(a: &[u8], b: &[u8], lo: usize, hi: usize, curr: &mut Vec<u8>)
    requires
        lo <= hi,
        hi - lo <= 255,
        32 * hi <= a@.len(),
        32 * hi <= b@.len(),
        old(curr)@.len() == 32,
        forall|k: int| 0 <= k < 32 ==> old(curr)@[k] == 0,
    ensures
        final(curr)@.len() == 32,
        sum_lanes(final(curr)@) == count_matches_in(a@, b@, 32 * lo, 32 * hi),
{
    let _n = a.len();
    proof {
        lemma_sum_zero(curr@);
    }
    let mut j: usize = lo;
    while j < hi
        invariant
            lo <= j <= hi,
            hi - lo <= 255,
            _n == a@.len(),
            32 * hi <= a@.len(),
            32 * hi <= b@.len(),
            curr@.len() == 32,
            forall|k: int| 0 <= k < 32 ==> curr@[k] <= j - lo,
            sum_lanes(curr@) == count_matches_in(a@, b@, 32 * lo, 32 * j),
        decreases hi - j,
    {
        let base = 32 * j;
        let mut lane: usize = 0;
        while lane < 32
            invariant
                lo <= j < hi,
                hi - lo <= 255,
                base == 32 * j,
                32 * hi <= a@.len(),
                32 * hi <= b@.len(),
                curr@.len() == 32,
                lane <= 32,
                forall|k: int| 0 <= k < lane ==> curr@[k] <= j - lo + 1,
                forall|k: int| lane <= k < 32 ==> curr@[k] <= j - lo,
                sum_lanes(curr@) == count_matches_in(a@, b@, 32 * lo, base + lane),
            decreases 32 - lane,
        {
            if a[base + lane] == b[base + lane] {
                let c = curr[lane];
                proof {
                    lemma_sum_inc(curr@, lane as int);
                }
                curr.set(lane, c + 1);
            }
            lane = lane + 1;
        }
        j = j + 1;
    }
}

/// Sums lanes `8 * g .. 8 * g + 8` of the counters, as one 64-bit lane of a
/// sum of absolute differences against zero.
pub fn group_sum(curr: &Vec<u8>, g: usize) -> (r: u64)
    requires
        curr@.len() == 32,
        g < 4,
    ensures
        r == sum_lanes(curr@.subrange(8 * g, 8 * g + 8)),
{
    let base = 8 * g;
    let mut r: u64 = 0;
    let mut j: usize = 0;
    while j < 8
        invariant
            base == 8 * g,
            base + 8 <= 32,
            curr@.len() == 32,
            j <= 8,
            r == sum_lanes(curr@.subrange(base as int, base + j)),
            r <= 255 * j,
        decreases 8 - j,
    {
        proof {
            let s = curr@.subrange(base as int, base + j + 1);
            assert(s.drop_last() =~= curr@.subrange(base as int, base + j));
        }
        r = r + curr[base + j] as u64;
        j = j + 1;
    }
    r
}

/// The counters sum to the four group sums.
pub proof fn lemma_groups(s: Seq<u8>)
    requires
        s.len() == 32,
    ensures
        sum_lanes(s) == sum_lanes(s.subrange(0, 8)) + sum_lanes(s.subrange(8, 16))
            + sum_lanes(s.subrange(16, 24)) + sum_lanes(s.subrange(24, 32)),
{
    let g0 = s.subrange(0, 8);
    let g1 = s.subrange(8, 16);
    let g2 = s.subrange(16, 24);
    let g3 = s.subrange(24, 32);
    assert(s =~= ((g0 + g1) + g2) + g3);
    lemma_sum_concat(g0, g1);
    lemma_sum_concat(g0 + g1, g2);
    lemma_sum_concat((g0 + g1) + g2, g3);
}

} // verus!
