use kritisch::bitboard::Bitboard;
use kritisch::Square;

#[test]
fn bb_from_sq() {
    let sq = vec![Square::A4, Square::G3, Square::D7];
    let bb = Bitboard::from_squares(sq);
    assert_eq!(bb.0, 2251799834656768);
}

#[test]
fn bb_and_bb() {
    // a2 and b2 set
    let lhs = Bitboard::from_u64(768);
    // c2 and d2 set
    let rhs = Bitboard::from_u64(3072);
    let res = Bitboard::empty();

    assert_eq!(lhs & rhs, res);
}

#[test]
fn bb_and_u64() {
    // a2 and b2 set
    let lhs = Bitboard::from_u64(768);
    // c2 and d2 set
    let rhs = 3072;
    let res = Bitboard::empty();

    assert_eq!(lhs & rhs, res);
}

#[test]
fn bb_or_bb() {
    // a2 and b2 set
    let lhs = Bitboard::from_u64(768);
    // c2 and d2 set
    let rhs = Bitboard::from_u64(3072);
    let res = Bitboard::from_u64(3840);

    assert_eq!(lhs | rhs, res);
}

#[test]
fn bb_or_u64() {
    // a2 and b2 set
    let lhs = Bitboard::from_u64(768);
    // c2 and d2 set
    let rhs = 3072;
    let res = Bitboard::from_u64(3840);

    assert_eq!(lhs | rhs, res);
}

#[test]
fn bb_xor_bb() {
    // a2, b2 and c2 set
    let lhs = Bitboard::from_u64(1792);
    // c2 and d2 set
    let rhs = Bitboard::from_u64(3072);
    let res = Bitboard::from_u64(2816);

    assert_eq!(lhs ^ rhs, res);
}

#[test]
fn bb_xor_u64() {
    // a2, b2 and c2 set
    let lhs = Bitboard::from_u64(1792);
    // c2 and d2 set
    let rhs = 3072;
    let res = Bitboard::from_u64(2816);

    assert_eq!(lhs ^ rhs, res);
}

#[test]
fn bb_and_assign_bb() {
    // a2 and b2 set
    let mut lhs = Bitboard::from_u64(768);
    // c2 and d2 set
    let rhs = Bitboard::from_u64(3072);
    lhs &= rhs;
    assert_eq!(lhs.0, 0);
}

#[test]
fn bb_and_assign_u64() {
    // a2 and b2 set
    let mut lhs = Bitboard::from_u64(768);
    // c2 and d2 set
    let rhs = 3072;
    lhs &= rhs;
    assert_eq!(lhs.0, 0);
}

#[test]
fn bb_or_assign_bb() {
    // a2 and b2 set
    let mut lhs = Bitboard::from_u64(768);
    // c2 and d2 set
    let rhs = Bitboard::from_u64(3072);
    lhs |= rhs;
    let res = 3840;

    assert_eq!(lhs.0, res);
}

#[test]
fn bb_or_assign_u64() {
    // a2 and b2 set
    let mut lhs = Bitboard::from_u64(768);
    // c2 and d2 set
    let rhs = 3072;
    lhs |= rhs;
    let res = 3840;

    assert_eq!(lhs.0, res);
}

#[test]
fn bb_xor_assign_bb() {
    // a2, b2 and c2 set
    let mut lhs = Bitboard::from_u64(1792);
    // c2 and d2 set
    let rhs = Bitboard::from_u64(3072);
    lhs ^= rhs;
    let res = 2816;

    assert_eq!(lhs.0, res);
}

#[test]
fn bb_xor_assign_u64() {
    // a2, b2 and c2 set
    let mut lhs = Bitboard::from_u64(1792);
    // c2 and d2 set
    let rhs = 3072;
    lhs ^= rhs;
    let res = 2816;

    assert_eq!(lhs.0, res);
}

#[test]
fn bb_ops_with_square() {
    let e4 = Bitboard::from_square(Square::E4);
    assert_eq!(e4.0, 1 << 28);
    assert_eq!((Bitboard::empty() | Square::E4).0, 1 << 28);
    assert_eq!((e4 & Square::E4).0, 1 << 28);
    assert_eq!((e4 & Square::E5).0, 0);
    assert_eq!((e4 ^ Square::E4).0, 0);
    let mut bb = Bitboard::empty();
    bb |= Square::A1;
    bb |= Square::H8;
    assert_eq!(bb.0, 0x8000_0000_0000_0001);
    bb ^= Square::A1;
    assert_eq!(bb.0, 0x8000_0000_0000_0000);
    bb &= Square::A1;
    assert_eq!(bb.0, 0);
    assert_eq!((!Bitboard::from_u64(0xff)).0, 0xffff_ffff_ffff_ff00);
}

#[test]
fn bb_queries() {
    let bb = Bitboard::from_squares(vec![Square::C3, Square::F6, Square::H8]);
    assert!(bb.contains(Square::C3));
    assert!(bb.contains(Square::H8));
    assert!(!bb.contains(Square::C4));
    assert!(!bb.is_empty());
    assert!(bb.any());
    assert!(Bitboard::empty().is_empty());
    assert!(!Bitboard::empty().any());
    assert_eq!(bb.count_ones(), 3);
    assert_eq!(Bitboard::empty().count_ones(), 0);
    assert_eq!(Bitboard::from_u64(u64::MAX).count_ones(), 64);
    assert_eq!(bb.trailing_zeros(), 18);
    assert_eq!(Bitboard::empty().trailing_zeros(), 64);
    assert_eq!(bb.first_square(), Square::C3);
}

#[test]
fn bb_clear_lsb_walks_the_squares_upwards() {
    let mut bb = Bitboard::from_squares(vec![Square::H8, Square::C3, Square::F6]);
    let mut seen = Vec::new();
    while !bb.is_empty() {
        seen.push(Square::from_u8(bb.trailing_zeros() as u8));
        bb.clear_lsb();
    }
    assert_eq!(seen, vec![Square::C3, Square::F6, Square::H8]);
    // an empty set stays empty
    bb.clear_lsb();
    assert_eq!(bb.0, 0);
}

#[test]
fn bb_from_squares_ignores_repeats() {
    let bb = Bitboard::from_squares(vec![Square::A1, Square::A1, Square::B1]);
    assert_eq!(bb.0, 3);
    assert_eq!(Bitboard::from_squares(vec![]).0, 0);
}
