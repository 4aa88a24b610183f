use jewel::{AvxNx32x8, Jewel};

fn lanes_of(v: &AvxNx32x8, n: usize) -> Vec<u32> {
    (0..n).map(|i| v.extract(i)).collect()
}

fn from_bytes(bytes: &[u8]) -> AvxNx32x8 {
    AvxNx32x8::loadu(bytes, bytes.len())
}

#[test]
fn repeating_fills_every_stored_lane_with_low_byte() {
    let v = AvxNx32x8::repeating(300, 40);
    assert_eq!(lanes_of(&v, 64), vec![44u32; 64]);
}

#[test]
fn repeating_whole_word() {
    let v = AvxNx32x8::repeating(7, 32);
    assert_eq!(lanes_of(&v, 32), vec![7u32; 32]);
    assert_eq!(v.to_string().matches(',').count(), 31);
}

#[test]
fn loadu_pads_last_word_with_zeros() {
    let data: Vec<u8> = (1..=40).collect();
    let v = AvxNx32x8::loadu(&data, 35);
    let got = lanes_of(&v, 64);
    for i in 0..35 {
        assert_eq!(got[i], (i + 1) as u32);
    }
    for i in 35..64 {
        assert_eq!(got[i], 0);
    }
}

#[test]
fn add_wraps_modulo_256() {
    let mut a = from_bytes(&[200, 1, 255]);
    let b = from_bytes(&[100, 2, 1]);
    a.add(b);
    assert_eq!(lanes_of(&a, 3), vec![44, 3, 0]);
}

#[test]
fn adds_saturates_signed() {
    let mut a = from_bytes(&[100, 156, 10, 250]);
    let b = from_bytes(&[100, 156, 20, 3]);
    a.adds(b);
    // 100 + 100 clamps to 127; -100 + -100 clamps to -128 (128); -6 + 3 = -3 (253)
    assert_eq!(lanes_of(&a, 4), vec![127, 128, 30, 253]);
}

#[test]
fn sub_wraps_modulo_256() {
    let mut a = from_bytes(&[5, 10, 0]);
    let b = from_bytes(&[10, 5, 1]);
    a.sub(b);
    assert_eq!(lanes_of(&a, 3), vec![251, 5, 255]);
}

#[test]
fn min_is_signed() {
    let mut a = from_bytes(&[200, 10, 127, 128]);
    let b = from_bytes(&[10, 200, 128, 127]);
    a.min(b);
    assert_eq!(lanes_of(&a, 4), vec![200, 200, 128, 128]);
}

#[test]
fn and_is_bitwise() {
    let mut a = from_bytes(&[0b1100, 0xff, 0x0f]);
    let b = from_bytes(&[0b1010, 0x3c, 0xf0]);
    a.and(b);
    assert_eq!(lanes_of(&a, 3), vec![0b1000, 0x3c, 0]);
}

#[test]
fn cmpeq_gives_all_ones_mask() {
    let mut a = from_bytes(&[1, 2, 3]);
    let b = from_bytes(&[1, 5, 3]);
    a.cmpeq(b);
    assert_eq!(lanes_of(&a, 3), vec![255, 0, 255]);
    // padding lanes are zero in both, hence equal
    assert_eq!(a.extract(31), 255);
}

#[test]
fn cmpgt_is_signed() {
    let mut a = from_bytes(&[200, 10, 5, 127]);
    let b = from_bytes(&[10, 200, 5, 128]);
    a.cmpgt(b);
    assert_eq!(lanes_of(&a, 4), vec![0, 255, 0, 255]);
}

#[test]
fn blendv_takes_other_where_mask_high_bit_set() {
    let mut a = from_bytes(&[1, 2, 3, 4]);
    let b = from_bytes(&[10, 20, 30, 40]);
    let mask = from_bytes(&[0x80, 0x7f, 0xff, 0]);
    a.blendv(b, mask);
    assert_eq!(lanes_of(&a, 4), vec![10, 2, 30, 4]);
}

#[test]
fn shift_left_crosses_words_and_zero_fills_last() {
    let data: Vec<u8> = (1..=64).collect();
    let mut v = AvxNx32x8::loadu(&data, 64);
    v.shift_left_1();
    let got = lanes_of(&v, 64);
    for i in 0..63 {
        assert_eq!(got[i], (i + 2) as u32);
    }
    assert_eq!(got[31], 33);
    assert_eq!(got[63], 0);
}

#[test]
fn shift_right_crosses_words_and_zero_fills_first() {
    let data: Vec<u8> = (1..=64).collect();
    let mut v = AvxNx32x8::loadu(&data, 64);
    v.shift_right_1();
    let got = lanes_of(&v, 64);
    assert_eq!(got[0], 0);
    for i in 1..64 {
        assert_eq!(got[i], i as u32);
    }
    assert_eq!(got[32], 32);
}

#[test]
fn inserts_write_the_named_lanes() {
    let mut v = AvxNx32x8::repeating(0, 40);
    v.insert_last_0(1);
    v.insert_last_1(258);
    v.insert_last_2(3);
    v.insert_first(511);
    assert_eq!(v.extract(63), 1);
    assert_eq!(v.extract(62), 2);
    assert_eq!(v.extract(61), 3);
    assert_eq!(v.extract(0), 255);
    assert_eq!(v.extract(39), 0);
    v.insert_last_max();
    v.insert_first_max();
    assert_eq!(v.extract(63), 127);
    assert_eq!(v.extract(0), 127);
}

#[test]
fn slow_loadu_forward_across_word_boundary() {
    let mut v = AvxNx32x8::repeating(9, 64);
    v.slow_loadu(30, &[1, 2, 3, 4], 4, false);
    let got = lanes_of(&v, 64);
    assert_eq!(&got[28..35], &[9, 9, 1, 2, 3, 4, 9]);
}

#[test]
fn slow_loadu_reverse_within_word() {
    let mut v = AvxNx32x8::repeating(9, 64);
    v.slow_loadu(40, &[1, 2, 3], 3, true);
    let got = lanes_of(&v, 64);
    assert_eq!(&got[37..42], &[9, 3, 2, 1, 9]);
}

#[test]
fn slow_loadu_reverse_refills_buffer_at_first_lane_of_word() {
    // Lanes 33, 32, 31: the buffer is refilled from the stored word at lane 32
    // and written back into the lower word at lane 31.
    let mut v = AvxNx32x8::repeating(0, 64);
    v.slow_loadu(33, &[1, 2, 3], 3, true);
    let got = lanes_of(&v, 64);
    assert_eq!(got[0], 2);
    assert_eq!(got[31], 3);
    assert_eq!(got[32], 0);
    assert_eq!(got[33], 0);
}

#[test]
fn slow_loadu_with_zero_len_changes_nothing() {
    let mut v = AvxNx32x8::repeating(5, 32);
    v.slow_loadu(0, &[], 0, true);
    assert_eq!(lanes_of(&v, 32), vec![5u32; 32]);
}

#[test]
fn fast_loadu_replaces_all_lanes() {
    let mut v = AvxNx32x8::repeating(5, 40);
    let data: Vec<u8> = (0..70).collect();
    v.fast_loadu(&data);
    let got = lanes_of(&v, 64);
    for i in 0..64 {
        assert_eq!(got[i], i as u32);
    }
}

#[test]
fn to_string_right_aligns_logical_bytes() {
    let v = from_bytes(&[1, 20, 255]);
    assert_eq!(v.to_string(), "[  1,  20, 255]");
    let w = AvxNx32x8::repeating(3, 33);
    let s = w.to_string();
    assert!(s.starts_with("[  3,   3,"));
    assert!(s.ends_with("  3]"));
    assert_eq!(s.matches(',').count(), 32);
}

fn naive_mismatches(a: &[u8], b: &[u8], len: usize) -> u32 {
    (0..len).filter(|&i| a[i] != b[i]).count() as u32
}

#[test]
fn count_mismatches_short() {
    let a = [1u8, 2, 3, 4, 5];
    let b = [1u8, 0, 3, 0, 0];
    assert_eq!(AvxNx32x8::mm_count_mismatches(&a, &b, 5), 3);
    assert_eq!(AvxNx32x8::count_mismatches(&a, &b, 5), 3);
    assert_eq!(AvxNx32x8::count_mismatches(&a, &b, 0), 0);
    assert_eq!(AvxNx32x8::mm_count_mismatches(&a, &b, 3), 1);
}

#[test]
fn count_mismatches_long_crosses_refresh_blocks() {
    let len = 20000;
    let a: Vec<u8> = (0..len).map(|i| (i % 251) as u8).collect();
    let b: Vec<u8> = (0..len).map(|i| if i % 7 == 0 { 0 } else { (i % 251) as u8 }).collect();
    let expected = naive_mismatches(&a, &b, len);
    assert_eq!(AvxNx32x8::mm_count_mismatches(&a, &b, len), expected);
    assert_eq!(AvxNx32x8::count_mismatches(&a, &b, len), expected);
    assert_eq!(AvxNx32x8::count_mismatches(&a, &a, len), 0);
    assert_eq!(AvxNx32x8::count_mismatches(&a, &b, 8160), naive_mismatches(&a, &b, 8160));
    assert_eq!(AvxNx32x8::count_mismatches(&a, &b, 8191), naive_mismatches(&a, &b, 8191));
}

#[test]
fn law_shift_round_trips_on_values() {
    let data: Vec<u8> = (1..=32).collect();
    let mut v = AvxNx32x8::loadu(&data, 32);
    v.shift_left_1();
    v.shift_right_1();
    let got = lanes_of(&v, 32);
    assert_eq!(got[0], 0);
    for i in 1..32 {
        assert_eq!(got[i], (i + 1) as u32);
    }
    let mut w = AvxNx32x8::loadu(&data, 32);
    w.shift_right_1();
    w.shift_left_1();
    let got = lanes_of(&w, 32);
    assert_eq!(got[31], 0);
    for i in 0..31 {
        assert_eq!(got[i], (i + 1) as u32);
    }
}

#[test]
fn law_sub_undoes_add_on_values() {
    let a_bytes = [0u8, 100, 200, 255, 17];
    let b_bytes = [255u8, 200, 100, 1, 17];
    let mut a = from_bytes(&a_bytes);
    a.add(from_bytes(&b_bytes));
    a.sub(from_bytes(&b_bytes));
    assert_eq!(lanes_of(&a, 5), vec![0, 100, 200, 255, 17]);
}

#[test]
fn law_cmpeq_with_self_is_all_ones() {
    let a = from_bytes(&[3, 0, 255, 128]);
    let mut b = a.clone();
    b.cmpeq(a);
    assert_eq!(lanes_of(&b, 32), vec![255u32; 32]);
}

#[test]
fn law_adds_and_min_commute_on_values() {
    let x = [100u8, 156, 3, 200];
    let y = [100u8, 1, 250, 90];
    let mut p = from_bytes(&x);
    p.adds(from_bytes(&y));
    let mut q = from_bytes(&y);
    q.adds(from_bytes(&x));
    assert_eq!(lanes_of(&p, 4), lanes_of(&q, 4));
    let mut p = from_bytes(&x);
    p.min(from_bytes(&y));
    let mut q = from_bytes(&y);
    q.min(from_bytes(&x));
    assert_eq!(lanes_of(&p, 4), lanes_of(&q, 4));
}

#[test]
fn law_blend_with_greater_mask_is_signed_max() {
    let x = [100u8, 156, 3, 200];
    let y = [100u8, 1, 250, 90];
    let mut mask = from_bytes(&y);
    mask.cmpgt(from_bytes(&x));
    let mut m = from_bytes(&x);
    m.blendv(from_bytes(&y), mask);
    assert_eq!(lanes_of(&m, 4), vec![100, 1, 3, 90]);
}

#[test]
fn law_count_symmetric_on_values() {
    let a = [1u8, 2, 3, 4, 5, 6];
    let b = [1u8, 9, 3, 9, 5, 9];
    assert_eq!(
        AvxNx32x8::count_mismatches(&a, &b, 6),
        AvxNx32x8::count_mismatches(&b, &a, 6)
    );
    assert_eq!(AvxNx32x8::mm_count_mismatches(&b, &a, 6), 3);
}
