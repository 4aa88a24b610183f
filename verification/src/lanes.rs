//! The byte lanes: their mathematical model and the per-lane operations.
use vstd::prelude::*;

verus! {

/// Number of 32-lane words needed to hold `len` bytes.
pub open spec fn num_words(len: nat) -> nat {
    (len + 31) / 32
}

/// Number of stored lanes (bytes) for a vector of `len` logical bytes.
pub open spec fn storage_len(len: nat) -> nat {
    32 * num_words(len)
}

/// The lane read as a two's-complement signed byte.
pub open spec fn signed(b: u8) -> int {
    if b < 128 { b as int } else { b - 256 }
}

/// The byte whose two's-complement reading is `x`, for `-128 <= x < 128`.
pub open spec fn from_signed(x: int) -> u8 {
    if x < 0 { (x + 256) as u8 } else { x as u8 }
}

/// Clamps a sum into the range of a signed byte.
pub open spec fn saturate(x: int) -> int {
    if x > 127 { 127 } else if x < -128 { -128 } else { x }
}

/// The lane-wise binary operations of the vector.
#[derive(Clone, Copy, PartialEq, Eq, Structural)]
pub enum LaneOp {
    /// Addition modulo 256.
    WrappingAdd,
    /// Signed addition, clamped to `-128..=127`.
    SaturatingAdd,
    /// Subtraction modulo 256.
    WrappingSub,
    /// The smaller of the two lanes, read as signed bytes.
    SignedMin,
    /// Bitwise and.
    BitAnd,
    /// All ones where the lanes are equal, zero elsewhere.
    EqualMask,
    /// All ones where the first lane is greater (signed), zero elsewhere.
    GreaterMask,
}

/// What one operation gives on one pair of lanes.
pub open spec fn lane_op(op: LaneOp, a: u8, b: u8) -> u8 {
    match op {
        LaneOp::WrappingAdd => ((a + b) % 256) as u8,
        LaneOp::SaturatingAdd => from_signed(saturate(signed(a) + signed(b))),
        LaneOp::WrappingSub => ((a - b + 256) % 256) as u8,
        LaneOp::SignedMin => if signed(a) <= signed(b) { a } else { b },
        LaneOp::BitAnd => a & b,
        LaneOp::EqualMask => if a == b { 255u8 } else { 0u8 },
        LaneOp::GreaterMask => if signed(a) > signed(b) { 255u8 } else { 0u8 },
    }
}

/// Applies `op` to each lane of `a` with the lane of `b` at the same index.
pub open spec fn zip_lanes(op: LaneOp, a: Seq<u8>, b: Seq<u8>) -> Seq<u8> {
    Seq::new(a.len(), |k: int| lane_op(op, a[k], b[k]))
}

/// Takes the lane of `b` where the mask lane has its high bit set, else that of `a`.
pub open spec fn blend_lanes(a: Seq<u8>, b: Seq<u8>, mask: Seq<u8>) -> Seq<u8> {
    Seq::new(a.len(), |k: int| if mask[k] >= 128 { b[k] } else { a[k] })
}

/// Every lane moves one place toward the front; a zero enters at the back.
pub open spec fn shift_down(s: Seq<u8>) -> Seq<u8> {
    s.subrange(1, s.len() as int).push(0u8)
}

/// Every lane moves one place toward the back; a zero enters at the front.
pub open spec fn shift_up(s: Seq<u8>) -> Seq<u8> {
    seq![0u8] + s.subrange(0, s.len() - 1)
}

/// Computes `lane_op(op, a, b)`.
pub fn apply_lane_op(op: LaneOp, a: u8, b: u8) -> (r: u8)
    ensures
        r == lane_op(op, a, b),
{
    match op {
        LaneOp::WrappingAdd => ((a as u16 + b as u16) % 256) as u8,
        LaneOp::SaturatingAdd => {
            let sa: i16 = if a < 128 { a as i16 } else { a as i16 - 256 };
            let sb: i16 = if b < 128 { b as i16 } else { b as i16 - 256 };
            let s: i16 = sa + sb;
            let c: i16 = if s > 127 { 127 } else if s < -128 { -128 } else { s };
            if c < 0 { (c + 256) as u8 } else { c as u8 }
        },
        LaneOp::WrappingSub => ((a as u16 + 256 - b as u16) % 256) as u8,
        LaneOp::SignedMin => {
            let sa: i16 = if a < 128 { a as i16 } else { a as i16 - 256 };
            let sb: i16 = if b < 128 { b as i16 } else { b as i16 - 256 };
            if sa <= sb { a } else { b }
        },
        LaneOp::BitAnd => a & b,
        LaneOp::EqualMask => if a == b { 255 } else { 0 },
        LaneOp::GreaterMask => {
            let sa: i16 = if a < 128 { a as i16 } else { a as i16 - 256 };
            let sb: i16 = if b < 128 { b as i16 } else { b as i16 - 256 };
            if sa > sb { 255 } else { 0 }
        },
    }
}

/// Replaces each lane of `dst` by `op` of it and the lane of `src` at the same index.
pub fn zip_in_place(dst: &mut Vec<u8>, src: &Vec<u8>, op: LaneOp)
    requires
        old(dst)@.len() <= src@.len(),
    ensures
        final(dst)@ == zip_lanes(op, old(dst)@, src@),
{
    let ghost d0 = dst@;
    let n = dst.len();
    let mut i: usize = 0;
    while i < n
        invariant
            n == dst@.len(),
            d0.len() == n,
            n <= src@.len(),
            i <= n,
            forall|k: int| 0 <= k < i ==> dst@[k] == lane_op(op, d0[k], src@[k]),
            forall|k: int| i <= k < n ==> dst@[k] == d0[k],
        decreases n - i,
    {
        let x = apply_lane_op(op, dst[i], src[i]);
        dst.set(i, x);
        i = i + 1;
    }
    assert(dst@ =~= zip_lanes(op, d0, src@));
}

} // verus!
