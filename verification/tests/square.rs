use kritisch::{
    try_square_offset, Color, File, Piece, Rank, Square, SquareError,
};

#[test]
fn square_display() {
    let square = Square::from_u8(15);
    let display = square.to_string();
    assert_eq!(display, String::from("h2"));
}

#[test]
fn square_parse() {
    let square = Square::from_u8(15);
    assert_eq!(square as u8, 15);
}

#[test]
fn square_from_parts() {
    let file = 'e';
    let rank = '2';
    let square = Square::from_parts(&file, &rank).unwrap();
    assert_eq!(square, Square::E2);

    let file = 'h';
    let rank = '7';
    let square = Square::from_parts(&file, &rank).unwrap();
    assert_eq!(square, Square::H7);
}

#[test]
#[should_panic]
fn square_from_parts_file_oob() {
    let file = 'i';
    let rank = '2';
    let _ = Square::from_parts(&file, &rank).unwrap();
}

#[test]
#[should_panic]
fn square_from_parts_rank_oob() {
    let file = 'e';
    let rank = '9';
    let _ = Square::from_parts(&file, &rank).unwrap();
}

#[test]
fn square_from_parts_errors() {
    assert_eq!(Square::from_parts(&'i', &'2'), Err(SquareError::FileOutOfBounds));
    assert_eq!(Square::from_parts(&'E', &'2'), Err(SquareError::FileOutOfBounds));
    assert_eq!(Square::from_parts(&'e', &'9'), Err(SquareError::RankOutOfBounds));
    assert_eq!(Square::from_parts(&'e', &'0'), Err(SquareError::RankOutOfBounds));
    // the file is looked at first
    assert_eq!(Square::from_parts(&'z', &'0'), Err(SquareError::FileOutOfBounds));
}

#[test]
fn square_names_round_trip() {
    for v in 0..64u8 {
        let square = Square::from_u8(v);
        assert_eq!(square.to_u8(), v);
        assert_eq!(square as u8, v);
        assert_eq!(square.to_u64(), 1u64 << v);
        assert_eq!(square.get_file() as u8, v % 8);
        assert_eq!(square.get_rank() as u8, v / 8);
        let name: Vec<char> = square.to_string().chars().collect();
        assert_eq!(name.len(), 2);
        assert_eq!(Square::from_parts(&name[0], &name[1]), Ok(square));
    }
    assert_eq!(Square::A1.to_string(), "a1");
    assert_eq!(Square::E4.to_string(), "e4");
    assert_eq!(Square::H8.to_string(), "h8");
}

#[test]
fn square_file_and_rank() {
    assert_eq!(Square::E2.get_file(), File::E);
    assert_eq!(Square::E2.get_rank(), Rank::SECOND);
    assert_eq!(Square::A8.get_file(), File::A);
    assert_eq!(Square::A8.get_rank(), Rank::EIGHTH);
    assert_eq!(File::from_u8(7), File::H);
    assert_eq!(Rank::from_u8(0), Rank::FIRST);
}

#[test]
fn square_offsets_stay_on_the_board() {
    let square = Square::H7;
    assert!(try_square_offset(square, 1, 0).is_none());
    assert_eq!(try_square_offset(square, 0, 1).unwrap(), Square::H8);
    assert_eq!(try_square_offset(Square::A1, -1, 0), None);
    assert_eq!(try_square_offset(Square::A1, 0, -1), None);
    assert_eq!(try_square_offset(Square::H8, 0, 1), None);
    assert_eq!(try_square_offset(Square::E4, 1, -1), Some(Square::F3));
    assert_eq!(try_square_offset(Square::E4, -4, 4), Some(Square::A8));
    // no wrapping across ranks, and no overflow for large offsets
    assert_eq!(try_square_offset(Square::H1, 1, 0), None);
    assert_eq!(try_square_offset(Square::E4, 127, 127), None);
    assert_eq!(try_square_offset(Square::E4, -128, -128), None);
}

#[test]
fn colors_and_pieces_from_numbers() {
    assert_eq!(Color::from_u8(0), Color::WHITE);
    assert_eq!(Color::from_u8(1), Color::BLACK);
    assert_eq!(Color::WHITE ^ 1, Color::BLACK);
    assert_eq!(Color::BLACK ^ 1, Color::WHITE);
    assert_eq!(Color::BLACK ^ 0, Color::BLACK);
    assert_eq!(Color::WHITE.opposite(), Color::BLACK);
    assert_eq!(Piece::from_u8(0), Piece::PAWN);
    assert_eq!(Piece::from_u8(3), Piece::ROOK);
    assert_eq!(Piece::from_u8(5), Piece::KING);
    assert_eq!(Piece::from_char(&'n'), Piece::KNIGHT);
    assert_eq!(Piece::from_char(&'Q'), Piece::QUEEN);
    assert_eq!(Piece::from_char(&'k'), Piece::KING);
}
