use ch_imp::bitboard::Bitboard;

#[test]
pub fn occupied_h2_is_occupied() {
    let bitboard = 0b1111111110u64;
    assert!(bitboard.occupied(8));
}

#[test]
pub fn set_h1() {
    let bitboard = 0u64;
    let expected = 0b1;
    assert_eq!(bitboard.set(0), expected);
}

#[test]
pub fn set_g1() {
    let bitboard = 0u64;
    let expected = u64::pow(2, 1);
    assert_eq!(bitboard.set(1), expected);
}

#[test]
pub fn set_e6() {
    let bitboard = 0u64;
    let expected = u64::pow(2, 41);
    assert_eq!(bitboard.set(41), expected);
}

#[test]
pub fn mirror_horizontally_tests() {
    let bb = 0u64.set_rank(6).flip(6 * 8);
    println!("{}", bb.to_board_format());
    println!("{}", bb.reverse_bits().mirror_horizontally().to_board_format());
    let e = 0u64.set_rank(1).flip(8);
    println!("{}", e.to_board_format());
    assert_eq!(bb.reverse_bits().mirror_horizontally(), e);
}

#[test]
pub fn rotate_180_twice_gives_the_board_back() {
    let bb = 0x0123_4567_89ab_cdefu64;
    assert_eq!(bb.rotate_180().rotate_180(), bb);
    assert_eq!(1u64.rotate_180(), 1u64 << 63);
}

#[test]
pub fn mirror_twice_gives_the_board_back() {
    let bb = 0x00ff_0f0f_3c3c_a5a5u64;
    assert_eq!(bb.mirror_horizontally().mirror_horizontally(), bb);
    assert_eq!(1u64.mirror_horizontally(), 1u64 << 7);
}

#[test]
pub fn count_occupied_counts_squares() {
    assert_eq!(0u64.count_occupied(), 0);
    assert_eq!(0xFFFFu64.count_occupied(), 16);
    assert_eq!(u64::MAX.count_occupied(), 64);
}
