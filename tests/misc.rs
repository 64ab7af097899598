use nucloid::misc::{align_up, first_bit_pos};

#[test]
fn test_first_bit_pos() {
    assert_eq!(first_bit_pos(0b0001_0101), 4);
    assert_eq!(first_bit_pos(0b1001_0101), 7);
    assert_eq!(first_bit_pos(0b11100000_10010101), 15);
    assert_eq!(first_bit_pos(0), 0);
}

#[test]
fn first_bit_pos_of_top_bit() {
    assert_eq!(first_bit_pos(1), 0);
    assert_eq!(first_bit_pos(usize::MAX), (usize::BITS - 1) as u8);
}

#[test]
fn align_up_rounds_to_the_next_multiple() {
    assert_eq!(align_up(0, 4096), 0);
    assert_eq!(align_up(1, 4096), 4096);
    assert_eq!(align_up(4096, 4096), 4096);
    assert_eq!(align_up(4097, 4096), 8192);
    assert_eq!(align_up(17, 16), 32);
    assert_eq!(align_up(10, 3), 12);
}
