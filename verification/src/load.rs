//! Writing a run of bytes into the stored lanes through a one-word buffer.
use vstd::prelude::*;

verus! {

/// The 32 lanes of word `w`.
pub open spec fn get_word(s: Seq<u8>, w: int) -> Seq<u8> {
    s.subrange(32 * w, 32 * w + 32)
}

/// `s` with the 32 lanes of word `w` replaced by `word`.
pub open spec fn put_word(s: Seq<u8>, w: int, word: Seq<u8>) -> Seq<u8> {
    Seq::new(s.len(), |k: int| if 32 * w <= k < 32 * w + 32 { word[k - 32 * w] } else { s[k] })
}

/// The lane written at step `i` of a run that starts at `idx`.
pub open spec fn load_pos(idx: int, i: int, reverse: bool) -> int {
    if reverse {
        idx - i
    } else {
        idx + i
    }
}

/// The stored lanes after steps `i..len` of a buffered run, from lanes `s`
/// and buffer `buf`. Step `i` writes `data[i]` at `load_pos(idx, i, reverse)`:
/// it first fills the buffer from the stored word when the lane is the first
/// of its word or the step is the first, writes the byte into the buffer,
/// and copies the buffer back to its word when the lane is the last of its
/// word or the step is the last.
pub open spec fn buffered_load(
    s: Seq<u8>,
    buf: Seq<u8>,
    idx: int,
    data: Seq<u8>,
    len: int,
    reverse: bool,
    i: int,
) -> Seq<u8>
    decreases len - i,
{
    if i >= len {
        s
    } else {
        let pos = load_pos(idx, i, reverse);
        let lane = pos % 32;
        let w = pos / 32;
        let buf1 = if lane == 0 || i == 0 {
            get_word(s, w)
        } else {
            buf
        };
        let buf2 = buf1.update(lane, data[i]);
        let s2 = if lane == 31 || i == len - 1 {
            put_word(s, w, buf2)
        } else {
            s
        };
        buffered_load(s2, buf2, idx, data, len, reverse, i + 1)
    }
}

/// A word of zero lanes: the buffer before the first step.
pub open spec fn zero_word() -> Seq<u8> {
    Seq::new(32, |j: int| 0u8)
}

/// The stored lanes after a whole buffered run of `len` bytes.
pub open spec fn slow_load_lanes(
    s: Seq<u8>,
    idx: int,
    data: Seq<u8>,
    len: int,
    reverse: bool,
) -> Seq<u8> {
    buffered_load(s, zero_word(), idx, data, len, reverse, 0)
}

/// `s` with `data[0..len]` written at lanes `idx..idx + len`.
pub open spec fn write_forward(s: Seq<u8>, idx: int, data: Seq<u8>, len: int) -> Seq<u8> {
    Seq::new(s.len(), |k: int| if idx <= k < idx + len { data[k - idx] } else { s[k] })
}

/// `s` with `data[i]` written at lane `idx - i`, for each `i < len`.
pub open spec fn write_backward(s: Seq<u8>, idx: int, data: Seq<u8>, len: int) -> Seq<u8> {
    Seq::new(s.len(), |k: int| if idx - len < k <= idx { data[idx - k] } else { s[k] })
}

/// A forward run writes exactly `data[0..len]` at `idx..idx + len`.
proof fn lemma_forward_from(
    s0: Seq<u8>,
    s: Seq<u8>,
    buf: Seq<u8>,
    idx: int,
    data: Seq<u8>,
    len: int,
    i: int,
)
    requires
        0 <= idx,
        0 <= i <= len,
        idx + len <= s0.len(),
        len <= data.len(),
        s0.len() % 32 == 0,
        s.len() == s0.len(),
        i == 0 ==> s == s0,
        i > 0 ==> buf.len() == 32,
        i > 0 ==> buf == get_word(write_forward(s0, idx, data, i), (idx + i - 1) / 32),
        i > 0 ==> forall|k: int|
            0 <= k < s.len() && (k / 32 != (idx + i - 1) / 32 || (idx + i - 1) % 32 == 31 || i
                == len) ==> s[k] == #[trigger] write_forward(s0, idx, data, i)[k],
    ensures
        buffered_load(s, buf, idx, data, len, false, i) == write_forward(s0, idx, data, len),
    decreases len - i,
{
    let d = write_forward(s0, idx, data, i);
    if i >= len {
        if i == 0 {
            assert(s =~= write_forward(s0, idx, data, len));
        } else {
            assert(s =~= write_forward(s0, idx, data, len));
        }
    } else {
        let pos = idx + i;
        let lane = pos % 32;
        let w = pos / 32;
        let d1 = write_forward(s0, idx, data, i + 1);
        assert(32 * w + 32 <= s0.len());
        let buf1 = if lane == 0 || i == 0 {
            get_word(s, w)
        } else {
            buf
        };
        if i > 0 && lane != 0 {
            assert((idx + i - 1) / 32 == w);
        }
        if i > 0 && lane == 0 {
            assert((idx + i - 1) % 32 == 31);
        }
        assert(buf1 =~= get_word(d, w));
        let buf2 = buf1.update(lane, data[i]);
        assert(buf2 =~= get_word(d1, w));
        let s2 = if lane == 31 || i == len - 1 {
            put_word(s, w, buf2)
        } else {
            s
        };
        assert((idx + i) / 32 == w);
        assert forall|k: int|
            0 <= k < s2.len() && (k / 32 != w || lane == 31 || i + 1 == len) implies s2[k]
            == #[trigger] d1[k] by {
            if 32 * w <= k < 32 * w + 32 {
                assert(k / 32 == w);
                assert(s2 == put_word(s, w, buf2));
                assert(s2[k] == buf2[k - 32 * w]);
            } else {
                assert(k / 32 != w);
                assert(s2[k] == s[k]);
                assert(k != idx + i);
                assert(d1[k] == d[k]);
                if i == 0 {
                    assert(s[k] == s0[k]);
                } else if lane == 0 {
                    assert(s[k] == d[k]);
                } else {
                    assert((idx + i - 1) / 32 == w);
                    assert(s[k] == d[k]);
                }
            }
        }
        lemma_forward_from(s0, s2, buf2, idx, data, len, i + 1);
    }
}

/// A forward run writes `data[0..len]` at lanes `idx..idx + len`.
pub proof fn lemma_slow_load_forward(s: Seq<u8>, idx: int, data: Seq<u8>, len: int)
    requires
        0 <= idx,
        0 <= len,
        idx + len <= s.len(),
        len <= data.len(),
        s.len() % 32 == 0,
    ensures
        slow_load_lanes(s, idx, data, len, false) == write_forward(s, idx, data, len),
{
    lemma_forward_from(s, s, zero_word(), idx, data, len, 0);
}

/// A backward run that stays inside one word, touching neither its first
/// lane after the first step nor another word, writes `data[i]` at `idx - i`.
proof fn lemma_backward_from(
    s0: Seq<u8>,
    s: Seq<u8>,
    buf: Seq<u8>,
    idx: int,
    data: Seq<u8>,
    len: int,
    i: int,
)
    requires
        0 <= idx < s0.len(),
        0 <= i <= len,
        len <= idx + 1,
        len <= 1 || len <= idx % 32,
        len <= data.len(),
        s0.len() % 32 == 0,
        s.len() == s0.len(),
        i == 0 ==> s == s0,
        i > 0 ==> buf.len() == 32,
        i > 0 ==> buf == get_word(write_backward(s0, idx, data, i), idx / 32),
        i > 0 ==> forall|k: int|
            0 <= k < s.len() && (k / 32 != idx / 32 || i == len) ==> s[k]
                == #[trigger] write_backward(s0, idx, data, i)[k],
    ensures
        buffered_load(s, buf, idx, data, len, true, i) == write_backward(s0, idx, data, len),
    decreases len - i,
{
    let d = write_backward(s0, idx, data, i);
    if i >= len {
        assert(s =~= write_backward(s0, idx, data, len));
    } else {
        let pos = idx - i;
        let lane = pos % 32;
        let w = pos / 32;
        let d1 = write_backward(s0, idx, data, i + 1);
        assert(lane == idx % 32 - i);
        assert(w == idx / 32);
        assert(32 * w + 32 <= s0.len());
        let buf1 = if lane == 0 || i == 0 {
            get_word(s, w)
        } else {
            buf
        };
        assert(buf1 =~= get_word(d, w));
        let buf2 = buf1.update(lane, data[i]);
        assert(buf2 =~= get_word(d1, w));
        let s2 = if lane == 31 || i == len - 1 {
            put_word(s, w, buf2)
        } else {
            s
        };
        assert forall|k: int|
            0 <= k < s2.len() && (k / 32 != w || i + 1 == len) implies s2[k]
            == #[trigger] d1[k] by {
            if 32 * w <= k < 32 * w + 32 {
                assert(k / 32 == w);
                assert(s2 == put_word(s, w, buf2));
                assert(s2[k] == buf2[k - 32 * w]);
            } else {
                assert(k / 32 != w);
                assert(s2[k] == s[k]);
                assert(k != idx - i);
                assert(d1[k] == d[k]);
                if i == 0 {
                    assert(s[k] == s0[k]);
                } else {
                    assert(s[k] == d[k]);
                }
            }
        }
        lemma_backward_from(s0, s2, buf2, idx, data, len, i + 1);
    }
}

/// A backward run that stays within the lanes after the first of the word
/// holding `idx` (or writes a single byte) writes `data[i]` at lane `idx - i`.
pub proof fn lemma_slow_load_backward(s: Seq<u8>, idx: int, data: Seq<u8>, len: int)
    requires
        0 <= idx < s.len(),
        0 <= len <= idx + 1,
        len <= 1 || len <= idx % 32,
        len <= data.len(),
        s.len() % 32 == 0,
    ensures
        slow_load_lanes(s, idx, data, len, true) == write_backward(s, idx, data, len),
{
    lemma_backward_from(s, s, zero_word(), idx, data, len, 0);
}

/// Copies word `w` of `v` into `buf`.
pub fn load_word(v: &Vec<u8>, w: usize, buf: &mut Vec<u8>)
    requires
        old(buf)@.len() == 32,
        32 * w + 32 <= v@.len(),
    ensures
        final(buf)@ == get_word(v@, w as int),
{
    let _n = v.len();
    let base = 32 * w;
    let mut j: usize = 0;
    while j < 32
        invariant
            base == 32 * w,
            base + 32 <= v@.len(),
            buf@.len() == 32,
            j <= 32,
            forall|k: int| 0 <= k < j ==> buf@[k] == v@[base + k],
        decreases 32 - j,
    {
        let x = v[base + j];
        buf.set(j, x);
        j = j + 1;
    }
    assert(buf@ =~= get_word(v@, w as int));
}

/// Copies `buf` into word `w` of `v`.
pub fn store_word(v: &mut Vec<u8>, w: usize, buf: &Vec<u8>)
    requires
        buf@.len() == 32,
        32 * w + 32 <= old(v)@.len(),
    ensures
        final(v)@ == put_word(old(v)@, w as int, buf@),
{
    let ghost v0 = v@;
    let _n = v.len();
    let base = 32 * w;
    let mut j: usize = 0;
    while j < 32
        invariant
            base == 32 * w,
            base + 32 <= v@.len(),
            v@.len() == v0.len(),
            buf@.len() == 32,
            j <= 32,
            forall|k: int| 0 <= k < base + j ==> k < base ==> v@[k] == v0[k],
            forall|k: int| base <= k < base + j ==> v@[k] == buf@[k - base],
            forall|k: int| base + j <= k < v@.len() ==> v@[k] == v0[k],
        decreases 32 - j,
    {
        let x = buf[j];
        v.set(base + j, x);
        j = j + 1;
    }
    assert(v@ =~= put_word(v0, w as int, buf@));
}

} // verus!
