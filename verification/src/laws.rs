//! Laws that relate the vector operations to one another.
use vstd::prelude::*;
use crate::count::{count_matches, count_mismatched};
use crate::render::{pad3, render, render_items};
use crate::lanes::{blend_lanes, lane_op, shift_down, shift_up, signed, zip_lanes, LaneOp};

verus! {

/// Shifting toward the back after shifting toward the front restores every
/// lane but the first, which becomes zero.
pub proof fn law_shift_up_after_down(s: Seq<u8>)
    requires
        s.len() > 0,
    ensures
        shift_up(shift_down(s)) == s.update(0, 0u8),
{
    assert(shift_up(shift_down(s)) =~= s.update(0, 0u8));
}

/// Shifting toward the front after shifting toward the back restores every
/// lane but the last, which becomes zero.
pub proof fn law_shift_down_after_up(s: Seq<u8>)
    requires
        s.len() > 0,
    ensures
        shift_down(shift_up(s)) == s.update(s.len() - 1, 0u8),
{
    assert(shift_down(shift_up(s)) =~= s.update(s.len() - 1, 0u8));
}

/// Wrapping subtraction of `b` undoes wrapping addition of `b`.
pub proof fn law_sub_undoes_add(a: Seq<u8>, b: Seq<u8>)
    requires
        a.len() <= b.len(),
    ensures
        zip_lanes(LaneOp::WrappingSub, zip_lanes(LaneOp::WrappingAdd, a, b), b) == a,
{
    let r = zip_lanes(LaneOp::WrappingSub, zip_lanes(LaneOp::WrappingAdd, a, b), b);
    assert forall|k: int| 0 <= k < a.len() implies r[k] == a[k] by {
        let x = a[k];
        let y = b[k];
        let s = ((x + y) % 256) as u8;
        if x + y < 256 {
            assert(s == x + y);
        } else {
            assert(s == x + y - 256);
        }
    }
    assert(r =~= a);
}

/// Wrapping addition of `b` undoes wrapping subtraction of `b`.
pub proof fn law_add_undoes_sub(a: Seq<u8>, b: Seq<u8>)
    requires
        a.len() <= b.len(),
    ensures
        zip_lanes(LaneOp::WrappingAdd, zip_lanes(LaneOp::WrappingSub, a, b), b) == a,
{
    let r = zip_lanes(LaneOp::WrappingAdd, zip_lanes(LaneOp::WrappingSub, a, b), b);
    assert forall|k: int| 0 <= k < a.len() implies r[k] == a[k] by {
        let x = a[k];
        let y = b[k];
        let d = ((x - y + 256) % 256) as u8;
        if x >= y {
            assert(d == x - y);
        } else {
            assert(d == x - y + 256);
        }
    }
    assert(r =~= a);
}

/// Every lane equals itself: the equality mask of a vector with itself is all ones.
pub proof fn law_equal_mask_of_self(a: Seq<u8>)
    ensures
        zip_lanes(LaneOp::EqualMask, a, a) == Seq::new(a.len(), |k: int| 255u8),
{
    assert(zip_lanes(LaneOp::EqualMask, a, a) =~= Seq::new(a.len(), |k: int| 255u8));
}

/// Saturating addition and the signed minimum do not depend on the order of
/// their operands.
pub proof fn law_saturating_add_and_min_commute(a: Seq<u8>, b: Seq<u8>)
    requires
        a.len() == b.len(),
    ensures
        zip_lanes(LaneOp::SaturatingAdd, a, b) == zip_lanes(LaneOp::SaturatingAdd, b, a),
        zip_lanes(LaneOp::SignedMin, a, b) == zip_lanes(LaneOp::SignedMin, b, a),
{
    assert(zip_lanes(LaneOp::SaturatingAdd, a, b) =~= zip_lanes(LaneOp::SaturatingAdd, b, a));
    assert forall|k: int| 0 <= k < a.len() implies #[trigger] zip_lanes(
        LaneOp::SignedMin,
        a,
        b,
    )[k] == zip_lanes(LaneOp::SignedMin, b, a)[k] by {
        if signed(a[k]) == signed(b[k]) {
            assert(a[k] == b[k]);
        }
    }
    assert(zip_lanes(LaneOp::SignedMin, a, b) =~= zip_lanes(LaneOp::SignedMin, b, a));
}

/// Blending in `b` where `b` is greater than `a` gives the signed maximum of
/// each pair of lanes, and the signed minimum gives the other lane of the pair.
pub proof fn law_blend_greater_is_max(a: Seq<u8>, b: Seq<u8>)
    requires
        a.len() == b.len(),
    ensures
        forall|k: int|
            0 <= k < a.len() ==> {
                let mx = #[trigger] blend_lanes(a, b, zip_lanes(LaneOp::GreaterMask, b, a))[k];
                let mn = zip_lanes(LaneOp::SignedMin, a, b)[k];
                &&& signed(mx) >= signed(a[k])
                &&& signed(mx) >= signed(b[k])
                &&& (mx == a[k] || mx == b[k])
                &&& (mx == a[k] && mn == b[k] || mx == b[k] && mn == a[k])
            },
{
}

/// A byte string agrees with itself everywhere.
pub proof fn law_no_mismatch_with_self(a: Seq<u8>, len: int)
    requires
        0 <= len <= a.len(),
    ensures
        count_matches(a, a, len) == len,
        count_mismatched(a, a, len) == 0,
    decreases len,
{
    if len > 0 {
        law_no_mismatch_with_self(a, len - 1);
    }
}

/// The count of agreeing positions does not depend on the order of the strings.
pub proof fn law_count_symmetric(a: Seq<u8>, b: Seq<u8>, len: int)
    requires
        0 <= len,
    ensures
        count_matches(a, b, len) == count_matches(b, a, len),
        count_mismatched(a, b, len) == count_mismatched(b, a, len),
    decreases len,
{
    if len > 0 {
        law_count_symmetric(a, b, len - 1);
    }
}

/// Reading a lane as a signed byte is Rust's reinterpretation of `u8` as `i8`.
pub proof fn law_signed_is_i8(a: u8)
    ensures
        signed(a) == (a as i8) as int,
{
    if a < 128 {
        assert((a as i8) as int == a as int) by (bit_vector)
            requires
                a < 128u8,
        ;
    } else {
        assert((a as i8) as int == a as int - 256) by (bit_vector)
            requires
                a >= 128u8,
        ;
    }
}

/// Bitwise and is the greatest common lower bound of its operands in the
/// bit order: its result has only bits of both, and every byte whose bits
/// lie in both lies in it. Hence and with itself, or with all ones, is the
/// identity, and it does not depend on the order of its operands.
pub proof fn law_bit_and(a: u8, b: u8, c: u8)
    ensures
        lane_op(LaneOp::BitAnd, a, b) & a == lane_op(LaneOp::BitAnd, a, b),
        lane_op(LaneOp::BitAnd, a, b) & b == lane_op(LaneOp::BitAnd, a, b),
        (c & a == c && c & b == c) ==> c & lane_op(LaneOp::BitAnd, a, b) == c,
        lane_op(LaneOp::BitAnd, a, a) == a,
        lane_op(LaneOp::BitAnd, a, 255u8) == a,
        lane_op(LaneOp::BitAnd, a, 0u8) == 0,
        lane_op(LaneOp::BitAnd, a, b) == lane_op(LaneOp::BitAnd, b, a),
{
    let r = lane_op(LaneOp::BitAnd, a, b);
    let ra = lane_op(LaneOp::BitAnd, a, a);
    let r255 = lane_op(LaneOp::BitAnd, a, 255u8);
    let r0 = lane_op(LaneOp::BitAnd, a, 0u8);
    let rb = lane_op(LaneOp::BitAnd, b, a);
    assert(r & a == r && r & b == r && ((c & a == c && c & b == c) ==> c & r == c)) by (bit_vector)
        requires
            r == a & b,
    ;
    assert(ra == a && r255 == a && r0 == 0 && r == rb) by (bit_vector)
        requires
            ra == a & a,
            r255 == a & 255u8,
            r0 == a & 0u8,
            r == a & b,
            rb == b & a,
    ;
}

/// `and` of a vector with itself leaves it unchanged, and `and` with a
/// vector of all-ones lanes is the identity.
pub proof fn law_and_identities(a: Seq<u8>)
    ensures
        zip_lanes(LaneOp::BitAnd, a, a) == a,
        zip_lanes(LaneOp::BitAnd, a, Seq::new(a.len(), |k: int| 255u8)) == a,
{
    assert forall|k: int| 0 <= k < a.len() implies #[trigger] zip_lanes(LaneOp::BitAnd, a, a)[k]
        == a[k] by {
        law_bit_and(a[k], a[k], 0);
    }
    let ones = Seq::new(a.len(), |k: int| 255u8);
    let r = zip_lanes(LaneOp::BitAnd, a, ones);
    assert forall|k: int| 0 <= k < a.len() implies #[trigger] r[k] == a[k] by {
        law_bit_and(a[k], 255u8, 0);
    }
    assert(zip_lanes(LaneOp::BitAnd, a, a) =~= a);
    assert(r =~= a);
}

/// The equality mask is all ones exactly where the bytes are equal and zero
/// exactly where they differ.
pub proof fn law_equal_mask(a: u8, b: u8)
    ensures
        lane_op(LaneOp::EqualMask, a, b) != 0 ==> a == b,
        a == b ==> lane_op(LaneOp::EqualMask, a, b) == 255,
        a != b ==> lane_op(LaneOp::EqualMask, a, b) == 0,
{
}

/// Wrapping addition: the result plus 256 times the carry out of the byte
/// is the true sum; it does not depend on the order of the operands, adding
/// zero changes nothing, and adding one steps to the next byte, 255 to 0.
pub proof fn law_wrapping_add(a: u8, b: u8)
    ensures
        lane_op(LaneOp::WrappingAdd, a, b) + 256 * (if a + b >= 256 {
            1int
        } else {
            0int
        }) == a + b,
        lane_op(LaneOp::WrappingAdd, a, b) == lane_op(LaneOp::WrappingAdd, b, a),
        lane_op(LaneOp::WrappingAdd, a, 0u8) == a,
        lane_op(LaneOp::WrappingAdd, a, 1u8) == (if a == 255 {
            0
        } else {
            a + 1
        }),
{
}

/// Wrapping subtraction: the result is the true difference plus 256 times
/// the borrow into the byte; subtracting zero changes nothing, and
/// subtracting a byte from itself gives zero.
pub proof fn law_wrapping_sub(a: u8, b: u8)
    ensures
        lane_op(LaneOp::WrappingSub, a, b) == a - b + 256 * (if a < b {
            1int
        } else {
            0int
        }),
        lane_op(LaneOp::WrappingSub, a, 0u8) == a,
        lane_op(LaneOp::WrappingSub, a, a) == 0,
{
}

/// Saturating signed addition, over Rust's `i8` reading of the lanes: a sum
/// that fits in `i8` is exact, one above it gives 127, one below gives -128.
pub proof fn law_saturating_add(a: u8, b: u8)
    ensures
        ({
            let s = (a as i8) as int + (b as i8) as int;
            let r = (lane_op(LaneOp::SaturatingAdd, a, b) as i8) as int;
            &&& (-128 <= s <= 127 ==> r == s)
            &&& (s >= 127 ==> r == 127)
            &&& (s <= -128 ==> r == -128)
        }),
{
    law_signed_is_i8(a);
    law_signed_is_i8(b);
    law_signed_is_i8(lane_op(LaneOp::SaturatingAdd, a, b));
}

/// The signed minimum is one of its operands and no greater than either,
/// over Rust's `i8` reading of the lanes.
pub proof fn law_signed_min(a: u8, b: u8)
    ensures
        ({
            let r = lane_op(LaneOp::SignedMin, a, b);
            &&& (r == a || r == b)
            &&& (r as i8) <= (a as i8)
            &&& (r as i8) <= (b as i8)
        }),
{
    law_signed_is_i8(a);
    law_signed_is_i8(b);
}

/// The greater mask is all ones exactly where the first lane is greater
/// than the second as an `i8`, and zero elsewhere.
pub proof fn law_greater_mask(a: u8, b: u8)
    ensures
        (a as i8) > (b as i8) ==> lane_op(LaneOp::GreaterMask, a, b) == 255,
        (a as i8) <= (b as i8) ==> lane_op(LaneOp::GreaterMask, a, b) == 0,
{
    law_signed_is_i8(a);
    law_signed_is_i8(b);
}

/// A blend takes the lane of the second vector exactly where the mask lane
/// has its top bit (0x80) set, and the lane of the first elsewhere.
pub proof fn law_blend(a: Seq<u8>, b: Seq<u8>, mask: Seq<u8>, k: int)
    requires
        0 <= k < a.len(),
        a.len() <= b.len(),
        a.len() <= mask.len(),
    ensures
        blend_lanes(a, b, mask).len() == a.len(),
        mask[k] & 0x80u8 != 0 ==> blend_lanes(a, b, mask)[k] == b[k],
        mask[k] & 0x80u8 == 0 ==> blend_lanes(a, b, mask)[k] == a[k],
{
    let m = mask[k];
    assert((m & 0x80u8 != 0) == (m >= 128u8)) by (bit_vector);
}

/// The lane-wise operations act lane by lane: each lane of the result is the
/// operation on the two lanes at the same index, and the length is kept.
pub proof fn law_zip_is_lane_wise(op: LaneOp, a: Seq<u8>, b: Seq<u8>, k: int)
    requires
        0 <= k < a.len(),
    ensures
        zip_lanes(op, a, b).len() == a.len(),
        zip_lanes(op, a, b)[k] == lane_op(op, a[k], b[k]),
{
}

/// The decimal value of a column of the three-column text, a blank being 0.
pub open spec fn column_value(c: char) -> int {
    if c == ' ' {
        0
    } else {
        c as int - 48
    }
}

/// A byte's three-column text is its decimal numeral, right-aligned: each
/// column is a blank or an ASCII digit, the columns read back as the byte,
/// the last column is always a digit, and blanks stand exactly where the
/// numeral has no digit.
pub proof fn law_pad3_is_decimal(b: u8)
    ensures
        pad3(b).len() == 3,
        forall|j: int|
            0 <= j < 3 ==> pad3(b)[j] == ' ' || ('0' <= #[trigger] pad3(b)[j] <= '9'),
        100 * column_value(pad3(b)[0]) + 10 * column_value(pad3(b)[1]) + column_value(pad3(b)[2])
            == b,
        pad3(b)[2] != ' ',
        (pad3(b)[1] == ' ') == (b < 10),
        (pad3(b)[0] == ' ') == (b < 100),
{
}

/// One byte renders as its three-column text in brackets.
pub proof fn law_render_single(x: u8)
    ensures
        render(seq![x]) == seq!['['] + pad3(x) + seq![']'],
{
    assert(render_items(seq![x]) == pad3(seq![x][0]));
    assert(render(seq![x]) =~= seq!['['] + pad3(x) + seq![']']);
}

/// Rendering one more byte puts ", " and that byte's text before the
/// closing bracket, after the text of the bytes before it.
pub proof fn law_render_push(s: Seq<u8>, x: u8)
    requires
        s.len() > 0,
    ensures
        render(s.push(x)) == render(s).drop_last() + seq![',', ' '] + pad3(x) + seq![']'],
{
    assert(s.push(x).drop_last() =~= s);
    assert(s.push(x).last() == x);
    assert(render(s.push(x)) =~= render(s).drop_last() + seq![',', ' '] + pad3(x) + seq![']']);
}

/// The bytes render in order: the text of `s + t` is that of `s`, then ", "
/// and the items of `t`, inside one pair of brackets.
pub proof fn law_render_concat(s: Seq<u8>, t: Seq<u8>)
    requires
        s.len() > 0,
        t.len() > 0,
    ensures
        render(s + t) == render(s).drop_last() + seq![',', ' '] + render_items(t) + seq![']'],
    decreases t.len(),
{
    if t.len() == 1 {
        assert(s + t =~= s.push(t[0]));
        law_render_push(s, t[0]);
        assert(render_items(t) == pad3(t[0]));
    } else {
        let t0 = t.drop_last();
        law_render_concat(s, t0);
        assert(s + t =~= (s + t0).push(t.last()));
        law_render_push(s + t0, t.last());
        assert(render(s + t0).drop_last() =~= render(s).drop_last() + seq![',', ' ']
            + render_items(t0));
        assert(render(s + t) =~= render(s).drop_last() + seq![',', ' '] + render_items(t) + seq![
            ']',
        ]);
    }
}

/// Two byte strings agree at every index below `len` exactly when the count
/// of agreeing indices is `len`, and differ somewhere exactly when the count
/// of mismatches is positive.
pub proof fn law_all_match_iff_equal(a: Seq<u8>, b: Seq<u8>, len: int)
    requires
        0 <= len <= a.len(),
        len <= b.len(),
    ensures
        (count_matches(a, b, len) == len) == (a.subrange(0, len) == b.subrange(0, len)),
        (count_mismatched(a, b, len) > 0) == (a.subrange(0, len) != b.subrange(0, len)),
    decreases len,
{
    crate::count::lemma_matches_plus_mismatches(a, b, len);
    if len > 0 {
        law_all_match_iff_equal(a, b, len - 1);
        crate::count::lemma_count_bound(a, b, 0, len - 1);
        if a.subrange(0, len - 1) == b.subrange(0, len - 1) && a[len - 1] == b[len - 1] {
            assert(a.subrange(0, len) =~= b.subrange(0, len));
        }
        if a.subrange(0, len) == b.subrange(0, len) {
            assert(a.subrange(0, len - 1) =~= b.subrange(0, len - 1));
            assert(a.subrange(0, len)[len - 1] == a[len - 1]);
            assert(b.subrange(0, len)[len - 1] == b[len - 1]);
        }
    } else {
        assert(a.subrange(0, 0) =~= b.subrange(0, 0));
    }
}

} // verus!
