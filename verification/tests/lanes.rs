use faster_utf8_validator::chunk::z_validate_vec;
use faster_utf8_validator::vector::{
    v_and, v_load, v_lookup_0, v_lookup_4, v_set1, v_shift_lanes_left, v_table_16, v_test_bit_4,
    v_test_bit_5, v_test_bit_6, v_test_bit_7, v_testz, VecT,
};

fn counting() -> VecT<16> {
    let data: Vec<u8> = (0..40u8).collect();
    v_load(&data, 3)
}

#[test]
fn wide_load_takes_thirty_two_bytes() {
    let data: Vec<u8> = (0..40u8).collect();
    let v: VecT<32> = v_load(&data, 8);
    let expected: Vec<u8> = (8..40u8).collect();
    assert_eq!(v.lanes.to_vec(), expected);
}

#[test]
fn wide_table_repeats_its_entries() {
    let t: VecT<32> = v_table_16(0, 1, 2, 3, 4, 5, 6, 7, 8, 9, 10, 11, 12, 13, 14, 15);
    for i in 0..32usize {
        assert_eq!(t.lanes[i], (i % 16) as u8);
    }
}

#[test]
fn wide_bit_mask_reaches_lane_thirty_one() {
    let mut lanes = [0u8; 32];
    lanes[0] = 0x80;
    lanes[16] = 0xC0;
    lanes[31] = 0xFF;
    let v = VecT { lanes };
    assert_eq!(v_test_bit_7(v), 0x8001_0001);
    assert_eq!(v_test_bit_6(v), 0x8001_0000);
    assert_eq!(v_test_bit_4(v), 0x8000_0000);
}

#[test]
fn wide_shift_moves_lane_fifteen_into_lane_sixteen() {
    let data: Vec<u8> = (1..33u8).collect();
    let v: VecT<32> = v_shift_lanes_left(v_load(&data, 0));
    assert_eq!(v.lanes[0], 0);
    for i in 1..32usize {
        assert_eq!(v.lanes[i], i as u8);
    }
}

#[test]
fn wide_chunk_hands_on_what_its_last_leader_owes() {
    let mut bytes = [b'a'; 32];
    bytes[31] = 0xE2;
    let mut shifted = [b'a'; 32];
    shifted[0] = 0;
    let mut last_cont: u32 = 0;
    assert!(z_validate_vec(VecT { lanes: bytes }, VecT { lanes: shifted }, &mut last_cont));
    assert_eq!(last_cont, 3);
    bytes[30] = 0xF0;
    bytes[31] = 0x90;
    shifted[31] = 0xF0;
    last_cont = 0;
    assert!(z_validate_vec(VecT { lanes: bytes }, VecT { lanes: shifted }, &mut last_cont));
    assert_eq!(last_cont, 3);
    bytes[31] = 0x8F;
    last_cont = 0;
    assert!(!z_validate_vec(VecT { lanes: bytes }, VecT { lanes: shifted }, &mut last_cont));
    assert_eq!(last_cont, 0);
}

#[test]
fn load_takes_sixteen_bytes_from_the_offset() {
    let v = counting();
    let expected: Vec<u8> = (3..19u8).collect();
    assert_eq!(v.lanes.to_vec(), expected);
}

#[test]
fn set1_fills_every_lane() {
    assert_eq!(v_set1::<16>(0x5A).lanes, [0x5A; 16]);
    assert_eq!(v_set1::<32>(0xA5).lanes, [0xA5; 32]);
}

#[test]
fn and_is_lane_wise() {
    let v = v_and(counting(), v_set1(0x05));
    for i in 0..16usize {
        assert_eq!(v.lanes[i], (i as u8 + 3) & 0x05);
    }
}

#[test]
fn testz_sees_a_single_common_bit() {
    let mut a = [0u8; 16];
    let b = v_set1(0x10);
    assert!(v_testz(VecT { lanes: a }, b));
    a[15] = 0x10;
    assert!(!v_testz(VecT { lanes: a }, b));
    a[15] = 0xEF;
    assert!(v_testz(VecT { lanes: a }, b));
}

#[test]
fn bit_masks_follow_lane_order() {
    let mut lanes = [0u8; 16];
    lanes[0] = 0x80;
    lanes[1] = 0x40;
    lanes[2] = 0x20;
    lanes[3] = 0x10;
    lanes[15] = 0xF0;
    let v = VecT { lanes };
    assert_eq!(v_test_bit_7(v), 0x8001);
    assert_eq!(v_test_bit_6(v), 0x8002);
    assert_eq!(v_test_bit_5(v), 0x8004);
    assert_eq!(v_test_bit_4(v), 0x8008);
}

#[test]
fn lookups_select_by_nibble() {
    let table: VecT<16> = v_table_16(100, 101, 102, 103, 104, 105, 106, 107, 108, 109, 110, 111, 112, 113, 114, 115);
    let mut lanes = [0u8; 16];
    lanes[0] = 0x3C;
    lanes[1] = 0xF0;
    lanes[2] = 0x0F;
    let index = VecT { lanes };
    let high = v_lookup_4(table, index);
    let low = v_lookup_0(table, index);
    assert_eq!(&high.lanes[..4], &[103, 115, 100, 100]);
    assert_eq!(&low.lanes[..4], &[112, 100, 115, 100]);
}

#[test]
fn table_keeps_entry_order() {
    let t: VecT<16> = v_table_16(0, 1, 2, 3, 4, 5, 6, 7, 8, 9, 10, 11, 12, 13, 14, 15);
    let expected: Vec<u8> = (0..16u8).collect();
    assert_eq!(t.lanes.to_vec(), expected);
}

#[test]
fn shift_moves_lanes_up_by_one() {
    let v = v_shift_lanes_left(counting());
    assert_eq!(v.lanes[0], 0);
    for i in 1..16usize {
        assert_eq!(v.lanes[i], i as u8 + 2);
    }
}

fn chunk(bytes: &[u8; 16], prev: u8, carry: u32) -> (bool, u32) {
    let mut shifted = [0u8; 16];
    shifted[0] = prev;
    shifted[1..].copy_from_slice(&bytes[..15]);
    let mut last_cont = carry;
    let ok = z_validate_vec(VecT { lanes: *bytes }, VecT { lanes: shifted }, &mut last_cont);
    (ok, last_cont)
}

#[test]
fn ascii_chunk_passes_only_without_carry() {
    let bytes = [b'a'; 16];
    assert_eq!(chunk(&bytes, 0, 0), (true, 0));
    assert_eq!(chunk(&bytes, 0xC3, 1), (false, 1));
}

#[test]
fn chunk_hands_on_what_its_last_leader_owes() {
    let mut bytes = [b'a'; 16];
    bytes[15] = 0xC3;
    assert_eq!(chunk(&bytes, 0, 0), (true, 1));
    bytes[15] = 0xE2;
    assert_eq!(chunk(&bytes, 0, 0), (true, 3));
    bytes[15] = 0xF1;
    assert_eq!(chunk(&bytes, 0, 0), (true, 7));
    bytes[14] = 0xF1;
    bytes[15] = 0x80;
    assert_eq!(chunk(&bytes, 0, 0), (true, 3));
    bytes[13] = 0xF1;
    bytes[14] = 0x80;
    assert_eq!(chunk(&bytes, 0, 0), (true, 1));
}

#[test]
fn chunk_consumes_the_carry() {
    let mut bytes = [b'a'; 16];
    bytes[0] = 0x82;
    bytes[1] = 0xAC;
    assert_eq!(chunk(&bytes, 0xE2, 3), (true, 0));
    assert_eq!(chunk(&bytes, 0xE2, 1), (false, 1));
    assert_eq!(chunk(&bytes, b'a', 0), (false, 0));
}

#[test]
fn chunk_rejects_forbidden_pairs_and_keeps_the_carry() {
    let mut bytes = [b'a'; 16];
    bytes[0] = 0xA0;
    bytes[1] = 0x80;
    assert_eq!(chunk(&bytes, 0xED, 3), (false, 3));
    assert_eq!(chunk(&bytes, 0xE0, 3), (true, 0));
    bytes[0] = 0x80;
    assert_eq!(chunk(&bytes, 0xE0, 3), (false, 3));
    assert_eq!(chunk(&bytes, 0xED, 3), (true, 0));
}
