//! The vector interface and its implementation over words of 32 byte lanes.
use vstd::prelude::*;
use crate::count::{
    count_block, count_matches, count_matches_in, count_mismatched, group_sum, sum_group,
    lemma_count_bound, lemma_count_mono, lemma_count_split, lemma_groups,
    lemma_matches_plus_mismatches, word_matches,
};
use crate::render::{render, render_bytes};
use crate::load::{
    buffered_load, lemma_slow_load_backward, lemma_slow_load_forward, load_word, slow_load_lanes,
    store_word, write_backward, write_forward, zero_word,
};
use crate::lanes::{
    blend_lanes, num_words, shift_down, shift_up, storage_len, zip_in_place,
    zip_lanes, LaneOp,
};

verus! {

/// A uniform interface for SIMD-style operations on vectors of byte lanes.
///
/// To save space, most operations modify the vector in place. A vector of
/// `length()` logical bytes stores `storage_len(length())` lanes, and the
/// lane-wise operations act on every stored lane.
pub trait Jewel: Sized {
    /// The vector's internal invariant.
    spec fn wf(&self) -> bool;

    /// Every stored lane, padding lanes of the last word included.
    spec fn lanes(&self) -> Seq<u8>;

    /// The logical number of bytes the vector was made for.
    spec fn length(&self) -> nat;

    /// A well-formed vector stores whole words for its length.
    proof fn lemma_wf(&self)
        requires
            self.wf(),
        ensures
            self.lanes().len() == storage_len(self.length()),
    ;

    /// A vector of `len` bytes in which every lane holds the low byte of `val`.
    fn repeating(val: u32, len: usize) -> (r: Self)
        requires
            len <= usize::MAX - 31,
        ensures
            r.wf(),
            r.length() == len,
            r.lanes() == Seq::new(storage_len(len as nat), |k: int| (val % 256) as u8),
    ;

    /// A vector of `len` bytes holding `data[0..len]`, the lanes past `len`
    /// in its last word zero.
    fn loadu(data: &[u8], len: usize) -> (r: Self)
        requires
            len <= data@.len(),
            len <= usize::MAX - 31,
        ensures
            r.wf(),
            r.length() == len,
            r.lanes() == Seq::new(
                storage_len(len as nat),
                |k: int| if k < len { data@[k] } else { 0u8 },
            ),
    ;

    /// Writes `data[i]` at lane `idx + i` (or `idx - i` when `reverse`), for
    /// each `i < len`, through a one-word buffer: the buffer is filled from
    /// the stored word at the first step and whenever the lane is the first
    /// of its word, and copied back whenever the lane is the last of its word
    /// and at the last step.
    ///
    /// Forward, this writes exactly `data[0..len]` at `idx..idx + len`.
    /// Backward, it does so when the lanes written stay after the first
    /// lane of the word holding `idx` (or one byte is written); otherwise
    /// the buffer is refilled and written back as described, which
    /// `slow_load_lanes` states.
    fn slow_loadu(&mut self, idx: usize, data: &[u8], len: usize, reverse: bool)
        requires
            old(self).wf(),
            len <= data@.len(),
            len > 0 && !reverse ==> idx + len <= old(self).lanes().len(),
            len > 0 && reverse ==> idx < old(self).lanes().len() && len <= idx + 1,
        ensures
            final(self).wf(),
            final(self).length() == old(self).length(),
            final(self).lanes() == slow_load_lanes(
                old(self).lanes(),
                idx as int,
                data@,
                len as int,
                reverse,
            ),
            !reverse ==> final(self).lanes() == write_forward(
                old(self).lanes(),
                idx as int,
                data@,
                len as int,
            ),
            reverse && (len <= 1 || len <= idx % 32) ==> final(self).lanes() == write_backward(
                old(self).lanes(),
                idx as int,
                data@,
                len as int,
            ),
    ;

    /// Replaces every stored lane by the byte of `data` at the same index.
    fn fast_loadu(&mut self, data: &[u8])
        requires
            old(self).wf(),
            old(self).lanes().len() <= data@.len(),
        ensures
            final(self).wf(),
            final(self).length() == old(self).length(),
            final(self).lanes() == data@.subrange(0, old(self).lanes().len() as int),
    ;

    /// Lane-wise addition modulo 256.
    fn add(&mut self, o: Self)
        requires
            old(self).wf(),
            old(self).lanes().len() <= o.lanes().len(),
        ensures
            final(self).wf(),
            final(self).length() == old(self).length(),
            final(self).lanes() == zip_lanes(LaneOp::WrappingAdd, old(self).lanes(), o.lanes()),
    ;

    /// Lane-wise signed addition, clamped to `-128..=127`.
    fn adds(&mut self, o: Self)
        requires
            old(self).wf(),
            old(self).lanes().len() <= o.lanes().len(),
        ensures
            final(self).wf(),
            final(self).length() == old(self).length(),
            final(self).lanes() == zip_lanes(LaneOp::SaturatingAdd, old(self).lanes(), o.lanes()),
    ;

    /// Lane-wise subtraction modulo 256.
    fn sub(&mut self, o: Self)
        requires
            old(self).wf(),
            old(self).lanes().len() <= o.lanes().len(),
        ensures
            final(self).wf(),
            final(self).length() == old(self).length(),
            final(self).lanes() == zip_lanes(LaneOp::WrappingSub, old(self).lanes(), o.lanes()),
    ;

    /// Lane-wise signed minimum.
    fn min(&mut self, o: Self)
        requires
            old(self).wf(),
            old(self).lanes().len() <= o.lanes().len(),
        ensures
            final(self).wf(),
            final(self).length() == old(self).length(),
            final(self).lanes() == zip_lanes(LaneOp::SignedMin, old(self).lanes(), o.lanes()),
    ;

    /// Lane-wise bitwise and.
    fn and(&mut self, o: Self)
        requires
            old(self).wf(),
            old(self).lanes().len() <= o.lanes().len(),
        ensures
            final(self).wf(),
            final(self).length() == old(self).length(),
            final(self).lanes() == zip_lanes(LaneOp::BitAnd, old(self).lanes(), o.lanes()),
    ;

    /// Each lane becomes 255 where it equals the lane of `o`, else 0.
    fn cmpeq(&mut self, o: Self)
        requires
            old(self).wf(),
            old(self).lanes().len() <= o.lanes().len(),
        ensures
            final(self).wf(),
            final(self).length() == old(self).length(),
            final(self).lanes() == zip_lanes(LaneOp::EqualMask, old(self).lanes(), o.lanes()),
    ;

    /// Each lane becomes 255 where it is greater (signed) than the lane of `o`, else 0.
    fn cmpgt(&mut self, o: Self)
        requires
            old(self).wf(),
            old(self).lanes().len() <= o.lanes().len(),
        ensures
            final(self).wf(),
            final(self).length() == old(self).length(),
            final(self).lanes() == zip_lanes(LaneOp::GreaterMask, old(self).lanes(), o.lanes()),
    ;

    /// Each lane takes the lane of `o` where the lane of `mask` has its high bit set.
    fn blendv(&mut self, o: Self, mask: Self)
        requires
            old(self).wf(),
            old(self).lanes().len() <= o.lanes().len(),
            old(self).lanes().len() <= mask.lanes().len(),
        ensures
            final(self).wf(),
            final(self).length() == old(self).length(),
            final(self).lanes() == blend_lanes(old(self).lanes(), o.lanes(), mask.lanes()),
    ;

    /// Moves every lane one place toward the front, across word boundaries;
    /// a zero enters the last lane.
    fn shift_left_1(&mut self)
        requires
            old(self).wf(),
            old(self).length() > 0,
        ensures
            final(self).wf(),
            final(self).length() == old(self).length(),
            final(self).lanes() == shift_down(old(self).lanes()),
    ;

    /// Moves every lane one place toward the back, across word boundaries;
    /// a zero enters the first lane.
    fn shift_right_1(&mut self)
        requires
            old(self).wf(),
            old(self).length() > 0,
        ensures
            final(self).wf(),
            final(self).length() == old(self).length(),
            final(self).lanes() == shift_up(old(self).lanes()),
    ;

    /// The lane at index `i`.
    fn extract(&self, i: usize) -> (r: u32)
        requires
            self.wf(),
            i < self.lanes().len(),
        ensures
            r == self.lanes()[i as int],
    ;

    /// Sets the last stored lane to the low byte of `val`.
    fn insert_last_0(&mut self, val: u32)
        requires
            old(self).wf(),
            old(self).length() > 0,
        ensures
            final(self).wf(),
            final(self).length() == old(self).length(),
            final(self).lanes() == old(self).lanes().update(
                old(self).lanes().len() - 1,
                (val % 256) as u8,
            ),
    ;

    /// Sets the second-to-last stored lane to the low byte of `val`.
    fn insert_last_1(&mut self, val: u32)
        requires
            old(self).wf(),
            old(self).length() > 0,
        ensures
            final(self).wf(),
            final(self).length() == old(self).length(),
            final(self).lanes() == old(self).lanes().update(
                old(self).lanes().len() - 2,
                (val % 256) as u8,
            ),
    ;

    /// Sets the third-to-last stored lane to the low byte of `val`.
    fn insert_last_2(&mut self, val: u32)
        requires
            old(self).wf(),
            old(self).length() > 0,
        ensures
            final(self).wf(),
            final(self).length() == old(self).length(),
            final(self).lanes() == old(self).lanes().update(
                old(self).lanes().len() - 3,
                (val % 256) as u8,
            ),
    ;

    /// Sets the last stored lane to 127, the largest signed byte.
    fn insert_last_max(&mut self)
        requires
            old(self).wf(),
            old(self).length() > 0,
        ensures
            final(self).wf(),
            final(self).length() == old(self).length(),
            final(self).lanes() == old(self).lanes().update(old(self).lanes().len() - 1, 127u8),
    ;

    /// Sets the first lane to the low byte of `val`.
    fn insert_first(&mut self, val: u32)
        requires
            old(self).wf(),
            old(self).length() > 0,
        ensures
            final(self).wf(),
            final(self).length() == old(self).length(),
            final(self).lanes() == old(self).lanes().update(0, (val % 256) as u8),
    ;

    /// Sets the first lane to 127, the largest signed byte.
    fn insert_first_max(&mut self)
        requires
            old(self).wf(),
            old(self).length() > 0,
        ensures
            final(self).wf(),
            final(self).length() == old(self).length(),
            final(self).lanes() == old(self).lanes().update(0, 127u8),
    ;

    /// The number of indices below `len` at which `a` and `b` differ, as
    /// `len` truncated to 32 bits less the number at which they agree;
    /// counted a word at a time with an equality mask.
    fn mm_count_mismatches(a: &[u8], b: &[u8], len: usize) -> (r: u32)
        requires
            len <= a@.len(),
            len <= b@.len(),
            len <= u32::MAX || count_matches(a@, b@, len as int) <= len as u32,
        ensures
            r == (len as u32) - count_matches(a@, b@, len as int),
            len <= u32::MAX ==> r == count_mismatched(a@, b@, len as int),
    ;

    /// The same count as `mm_count_mismatches`, with one-byte counters per
    /// lane that are summed into four 64-bit totals every 255 words.
    fn count_mismatches(a: &[u8], b: &[u8], len: usize) -> (r: u32)
        requires
            len <= a@.len(),
            len <= b@.len(),
            len <= u32::MAX || count_matches(a@, b@, len as int) <= len as u32,
        ensures
            r == (len as u32) - count_matches(a@, b@, len as int),
            len <= u32::MAX ==> r == count_mismatched(a@, b@, len as int),
    ;
}

/// A vector of N words of 32 byte lanes each, the layout of 256-bit AVX2 registers.
#[derive(Clone)]
pub struct AvxNx32x8 {
    len: usize,
    v: Vec<u8>,
}

impl AvxNx32x8 {
    /// The text form of the vector: its `length()` logical bytes in decimal,
    /// each right-aligned in three columns, separated by ", " and enclosed
    /// in brackets, as in `[  1,  20, 255]`.
    pub fn to_string(&self) -> (r: String)
        requires
            self.wf(),
            self.length() > 0,
        ensures
            r@ == render(self.lanes().subrange(0, self.length() as int)),
    {
        render_bytes(&self.v, self.len)
    }
}

/// Computes `num_words(len)`.
fn word_count(len: usize) -> (w: usize)
    requires
        len <= usize::MAX - 31,
    ensures
        w == num_words(len as nat),
        w * 32 <= usize::MAX,
        w * 32 == storage_len(len as nat),
{
    len / 32 + if len % 32 > 0 { 1 } else { 0 }
}

impl Jewel for AvxNx32x8 {
    closed spec fn wf(&self) -> bool {
        self.v@.len() == storage_len(self.len as nat)
    }

    closed spec fn lanes(&self) -> Seq<u8> {
        self.v@
    }

    closed spec fn length(&self) -> nat {
        self.len as nat
    }

    proof fn lemma_wf(&self) {
    }

    fn repeating(val: u32, len: usize) -> (r: AvxNx32x8) {
        let n = word_count(len) * 32;
        let b = (val % 256) as u8;
        let mut v: Vec<u8> = Vec::with_capacity(n);
        let mut i: usize = 0;
        while i < n
            invariant
                i <= n,
                v@.len() == i,
                forall|k: int| 0 <= k < i ==> v@[k] == b,
            decreases n - i,
        {
            v.push(b);
            i = i + 1;
        }
        let r = AvxNx32x8 { len, v };
        assert(r.v@ =~= Seq::new(storage_len(len as nat), |k: int| (val % 256) as u8));
        r
    }

    fn loadu(data: &[u8], len: usize) -> (r: AvxNx32x8) {
        let n = word_count(len) * 32;
        let mut v: Vec<u8> = Vec::with_capacity(n);
        let mut i: usize = 0;
        while i < n
            invariant
                i <= n,
                len <= n,
                len <= data@.len(),
                v@.len() == i,
                forall|k: int| 0 <= k < i ==> v@[k] == (if k < len { data@[k] } else { 0u8 }),
            decreases n - i,
        {
            if i < len {
                v.push(data[i]);
            } else {
                v.push(0);
            }
            i = i + 1;
        }
        let r = AvxNx32x8 { len, v };
        assert(r.v@ =~= Seq::new(
            storage_len(len as nat),
            |k: int| if k < len { data@[k] } else { 0u8 },
        ));
        r
    }

    fn slow_loadu(&mut self, idx: usize, data: &[u8], len: usize, reverse: bool) {
        let ghost s0 = self.v@;
        proof {
            if len == 0 {
                assert(write_forward(s0, idx as int, data@, 0) =~= s0);
                assert(write_backward(s0, idx as int, data@, 0) =~= s0);
            } else if !reverse {
                lemma_slow_load_forward(s0, idx as int, data@, len as int);
            } else if len > 0 && (len <= 1 || len <= idx % 32) {
                lemma_slow_load_backward(s0, idx as int, data@, len as int);
            }
        }
        if len == 0 {
            return;
        }
        let n = self.v.len();
        let mut arr: Vec<u8> = Vec::with_capacity(32);
        let mut j: usize = 0;
        while j < 32
            invariant
                j <= 32,
                arr@.len() == j,
                forall|k: int| 0 <= k < j ==> arr@[k] == 0u8,
            decreases 32 - j,
        {
            arr.push(0);
            j = j + 1;
        }
        assert(arr@ =~= zero_word());
        let ghost target = slow_load_lanes(s0, idx as int, data@, len as int, reverse);
        let mut i: usize = 0;
        while i < len
            invariant
                n == self.v@.len(),
                n == s0.len(),
                n % 32 == 0,
                arr@.len() == 32,
                i <= len,
                len <= data@.len(),
                !reverse ==> idx + len <= n,
                reverse ==> idx < n && len <= idx + 1,
                self.len == old(self).len,
                s0 == old(self).v@,
                buffered_load(self.v@, arr@, idx as int, data@, len as int, reverse, i as int)
                    == target,
            decreases len - i,
        {
            let curr_idx = if reverse {
                idx - i
            } else {
                idx + i
            };
            let arr_idx = curr_idx % 32;
            let w = curr_idx / 32;
            if arr_idx == 0 || i == 0 {
                load_word(&self.v, w, &mut arr);
            }
            arr.set(arr_idx, data[i]);
            if arr_idx == 31 || i == len - 1 {
                store_word(&mut self.v, w, &arr);
            }
            i = i + 1;
        }
    }

    fn fast_loadu(&mut self, data: &[u8]) {
        let n = self.v.len();
        let mut i: usize = 0;
        while i < n
            invariant
                n == self.v@.len(),
                n <= data@.len(),
                i <= n,
                self.len == old(self).len,
                forall|k: int| 0 <= k < i ==> self.v@[k] == data@[k],
            decreases n - i,
        {
            let x = data[i];
            self.v.set(i, x);
            i = i + 1;
        }
        assert(self.v@ =~= data@.subrange(0, n as int));
    }

    fn add(&mut self, o: AvxNx32x8) {
        zip_in_place(&mut self.v, &o.v, LaneOp::WrappingAdd);
    }

    fn adds(&mut self, o: AvxNx32x8) {
        zip_in_place(&mut self.v, &o.v, LaneOp::SaturatingAdd);
    }

    fn sub(&mut self, o: AvxNx32x8) {
        zip_in_place(&mut self.v, &o.v, LaneOp::WrappingSub);
    }

    fn min(&mut self, o: AvxNx32x8) {
        zip_in_place(&mut self.v, &o.v, LaneOp::SignedMin);
    }

    fn and(&mut self, o: AvxNx32x8) {
        zip_in_place(&mut self.v, &o.v, LaneOp::BitAnd);
    }

    fn cmpeq(&mut self, o: AvxNx32x8) {
        zip_in_place(&mut self.v, &o.v, LaneOp::EqualMask);
    }

    fn cmpgt(&mut self, o: AvxNx32x8) {
        zip_in_place(&mut self.v, &o.v, LaneOp::GreaterMask);
    }

    fn blendv(&mut self, o: AvxNx32x8, mask: AvxNx32x8) {
        let ghost d0 = self.v@;
        let n = self.v.len();
        let mut i: usize = 0;
        while i < n
            invariant
                n == self.v@.len(),
                d0.len() == n,
                n <= o.v@.len(),
                n <= mask.v@.len(),
                i <= n,
                self.len == old(self).len,
                d0 == old(self).v@,
                forall|k: int|
                    0 <= k < i ==> self.v@[k] == (if mask.v@[k] >= 128 {
                        o.v@[k]
                    } else {
                        d0[k]
                    }),
                forall|k: int| i <= k < n ==> self.v@[k] == d0[k],
            decreases n - i,
        {
            if mask.v[i] >= 128 {
                let x = o.v[i];
                self.v.set(i, x);
            }
            i = i + 1;
        }
        assert(self.v@ =~= blend_lanes(d0, o.v@, mask.v@));
    }

    fn shift_left_1(&mut self) {
        let ghost d0 = self.v@;
        let n = self.v.len();
        let mut i: usize = 0;
        while i + 1 < n
            invariant
                n == self.v@.len(),
                n > 0,
                d0.len() == n,
                i < n,
                self.len == old(self).len,
                d0 == old(self).v@,
                forall|k: int| 0 <= k < i ==> self.v@[k] == d0[k + 1],
                forall|k: int| i <= k < n ==> self.v@[k] == d0[k],
            decreases n - i,
        {
            let x = self.v[i + 1];
            self.v.set(i, x);
            i = i + 1;
        }
        self.v.set(n - 1, 0);
        assert(self.v@ =~= shift_down(d0));
    }

    fn shift_right_1(&mut self) {
        let ghost d0 = self.v@;
        let n = self.v.len();
        let mut i: usize = n - 1;
        while i > 0
            invariant
                n == self.v@.len(),
                n > 0,
                d0.len() == n,
                i < n,
                self.len == old(self).len,
                d0 == old(self).v@,
                forall|k: int| i < k < n ==> self.v@[k] == d0[k - 1],
                forall|k: int| 0 <= k <= i ==> self.v@[k] == d0[k],
            decreases i,
        {
            let x = self.v[i - 1];
            self.v.set(i, x);
            i = i - 1;
        }
        self.v.set(0, 0);
        assert(self.v@ =~= shift_up(d0));
    }

    fn extract(&self, i: usize) -> (r: u32) {
        self.v[i] as u32
    }

    fn insert_last_0(&mut self, val: u32) {
        let last = self.v.len() - 1;
        let b = (val % 256) as u8;
        self.v.set(last, b);
    }

    fn insert_last_1(&mut self, val: u32) {
        let last = self.v.len() - 2;
        let b = (val % 256) as u8;
        self.v.set(last, b);
    }

    fn insert_last_2(&mut self, val: u32) {
        let last = self.v.len() - 3;
        let b = (val % 256) as u8;
        self.v.set(last, b);
    }

    fn insert_last_max(&mut self) {
        let last = self.v.len() - 1;
        self.v.set(last, 127);
    }

    fn insert_first(&mut self, val: u32) {
        let b = (val % 256) as u8;
        self.v.set(0, b);
    }

    fn insert_first_max(&mut self) {
        self.v.set(0, 127);
    }

    fn mm_count_mismatches(a: &[u8], b: &[u8], len: usize) -> (r: u32) {
        let ghost total = count_matches(a@, b@, len as int);
        proof {
            lemma_count_bound(a@, b@, 0, len as int);
        }
        let div_len = len / 32;
        let mut res: u32 = 0;
        let mut i: usize = 0;
        while i < div_len
            invariant
                div_len == len / 32,
                i <= div_len,
                len <= a@.len(),
                len <= b@.len(),
                total == count_matches(a@, b@, len as int),
                total <= len as u32,
                res == count_matches_in(a@, b@, 0, 32 * i),
            decreases div_len - i,
        {
            let c = word_matches(a, b, i);
            proof {
                lemma_count_split(a@, b@, 0, 32 * i, 32 * i + 32);
                lemma_count_mono(a@, b@, 0, 32 * i + 32, len as int);
            }
            res = res + c;
            i = i + 1;
        }
        let mut k: usize = div_len * 32;
        while k < len
            invariant
                div_len * 32 <= k <= len,
                len <= a@.len(),
                len <= b@.len(),
                total == count_matches(a@, b@, len as int),
                total <= len as u32,
                res == count_matches_in(a@, b@, 0, k as int),
            decreases len - k,
        {
            proof {
                lemma_count_mono(a@, b@, 0, k + 1, len as int);
            }
            if a[k] == b[k] {
                res = res + 1;
            }
            k = k + 1;
        }
        proof {
            lemma_matches_plus_mismatches(a@, b@, len as int);
        }
        (len as u32) - res
    }

    fn count_mismatches(a: &[u8], b: &[u8], len: usize) -> (r: u32) {
        let ghost total = count_matches(a@, b@, len as int);
        proof {
            lemma_count_bound(a@, b@, 0, len as int);
        }
        let word_len = len / 32;
        let refresh_len = len / (255 * 32);
        let mut sad: Vec<u64> = Vec::with_capacity(4);
        sad.push(0);
        sad.push(0);
        sad.push(0);
        sad.push(0);
        let mut i: usize = 0;
        while i <= refresh_len
            invariant
                word_len == len / 32,
                refresh_len == len / 8160,
                i <= refresh_len + 1,
                len <= a@.len(),
                len <= b@.len(),
                total == count_matches(a@, b@, len as int),
                total <= len as u32,
                sad@.len() == 4,
                sad@[0] + sad@[1] + sad@[2] + sad@[3] == count_matches_in(
                    a@,
                    b@,
                    0,
                    32 * (if i <= refresh_len { 255 * i } else { word_len as int }),
                ),
            decreases refresh_len + 1 - i,
        {
            // Full blocks of 255 words, then the words left over.
            let lo = i * 255;
            let hi = if i < refresh_len {
                lo + 255
            } else {
                word_len
            };
            let mut curr: Vec<u8> = Vec::with_capacity(32);
            let mut j: usize = 0;
            while j < 32
                invariant
                    j <= 32,
                    curr@.len() == j,
                    forall|k: int| 0 <= k < j ==> curr@[k] == 0u8,
                decreases 32 - j,
            {
                curr.push(0);
                j = j + 1;
            }
            count_block(a, b, lo, hi, &mut curr);
            proof {
                lemma_groups(curr@);
                lemma_count_split(a@, b@, 0, 32 * lo, 32 * hi);
                lemma_count_mono(a@, b@, 0, 32 * hi, len as int);
            }
            let mut g: usize = 0;
            while g < 4
                invariant
                    g <= 4,
                    curr@.len() == 32,
                    sad@.len() == 4,
                    total <= len as u32,
                    sad@[0] + sad@[1] + sad@[2] + sad@[3] + (if g <= 0 {
                        sum_group(curr@, 0)
                    } else {
                        0
                    }) + (if g <= 1 {
                        sum_group(curr@, 1)
                    } else {
                        0
                    }) + (if g <= 2 {
                        sum_group(curr@, 2)
                    } else {
                        0
                    }) + (if g <= 3 {
                        sum_group(curr@, 3)
                    } else {
                        0
                    }) == count_matches_in(a@, b@, 0, 32 * hi),
                    count_matches_in(a@, b@, 0, 32 * hi) <= total,
                decreases 4 - g,
            {
                let s = group_sum(&curr, g);
                let x = sad[g];
                sad.set(g, x + s);
                g = g + 1;
            }
            i = i + 1;
        }
        proof {
            lemma_count_mono(a@, b@, 0, 32 * word_len, len as int);
        }
        let mut res: u32 = (sad[0] as u32) + (sad[1] as u32) + (sad[2] as u32) + (sad[3] as u32);
        let mut k: usize = word_len * 32;
        while k < len
            invariant
                word_len * 32 <= k <= len,
                len <= a@.len(),
                len <= b@.len(),
                total == count_matches(a@, b@, len as int),
                total <= len as u32,
                res == count_matches_in(a@, b@, 0, k as int),
            decreases len - k,
        {
            proof {
                lemma_count_mono(a@, b@, 0, k + 1, len as int);
            }
            if a[k] == b[k] {
                res = res + 1;
            }
            k = k + 1;
        }
        proof {
            lemma_matches_plus_mismatches(a@, b@, len as int);
        }
        (len as u32) - res
    }
}

} // verus!
