use kritisch::bitboard::Bitboard;
use kritisch::fen::FenError;
use kritisch::game::Game;
use kritisch::magics::{MagicTables, BISHOP_MAGICS, ROOK_MAGICS};
use kritisch::position::{IllegalMove, InvalidPosition};
use kritisch::{CastlingRights, Color, Move, Piece, Square};

fn tables() -> MagicTables {
    MagicTables::new(&ROOK_MAGICS, &BISHOP_MAGICS).unwrap()
}

fn mv(start: Square, end: Square) -> Move {
    Move { start, end }
}

/// No square in two piece bitboards or in both color bitboards, and the
/// colors hold the same squares as the pieces.
fn bitboards_agree(game: &Game) -> bool {
    let mut pieces = 0u64;
    for i in 0..6 {
        if pieces & game.piece_bitboards[i].0 != 0 {
            return false;
        }
        pieces |= game.piece_bitboards[i].0;
    }
    game.color_bitboards[0].0 & game.color_bitboards[1].0 == 0
        && game.color_bitboards[0].0 | game.color_bitboards[1].0 == pieces
}

#[test]
fn game_from_fen() {
    let from_fen =
        Game::from_fen("rnbqkbnr/pppppppp/8/8/8/8/PPPPPPPP/RNBQKBNR w KQkq - 0 1").unwrap();

    let default_game = Game::default();
    assert_eq!(from_fen, default_game);
}

#[test]
fn game_display() {
    let game = Game::default();
    let str = game.to_string();
    let expected = String::from(
        "\nr n b q k b n r \np p p p p p p p \n. . . . . . . . \n. . . . . . . . \n. . . . . . . . \n. . . . . . . . \nP P P P P P P P \nR N B Q K B N R \n");
    assert_eq!(str, expected);
}

#[test]
fn piece_type() {
    let game = Game::default();
    let black_king = game.type_at(Square::E8).unwrap();
    assert_eq!(black_king, Piece::KING);
}

#[test]
#[should_panic]
fn piece_type_empty_square() {
    let game = Game::default();
    let _ = game.type_at(Square::E6).unwrap();
}

#[test]
fn all_pieces() {
    let game = Game::default();
    let all = game.all_pieces();
    let expected = Bitboard::from_u64(0xffff00000000ffff);
    assert_eq!(all, expected);
}

#[test]
fn is_square_empty_false() {
    let game = Game::default();
    assert!(!game.is_square_empty(Square::E2));
}

#[test]
fn is_square_empty_true() {
    let game = Game::default();
    assert!(game.is_square_empty(Square::E3));
}

#[test]
fn piece_color() {
    let game = Game::default();
    let black_king = game.color_at(Square::E8).unwrap();
    assert_eq!(black_king, Color::BLACK);
}

#[test]
#[should_panic]
fn piece_color_empty_square() {
    let game = Game::default();
    let _ = game.color_at(Square::E6).unwrap();
}

#[test]
fn make_move_legal() {
    let mut game = Game::default();
    let m = Move {
        start: Square::E2,
        end: Square::E3,
    };
    game.make_move(m).unwrap();
    assert_eq!(game.all_pieces().0, 0xffff00000010efff);
    assert_eq!(game.to_move, Color::BLACK);
    assert_eq!(game.en_passant_square, None);
    assert_eq!(game.halfmove_clock, 0);
    assert_eq!(game.fullmove_clock, 1);
}

#[test]
fn make_move_capture() {
    let mut game = Game::default();
    let m = Move {
        start: Square::E2,
        end: Square::E7,
    };
    game.make_move(m).unwrap();
    assert_eq!(game.all_pieces().0, 18446462598732902399);
    assert_eq!(game.to_move, Color::BLACK);
    assert_eq!(game.en_passant_square, None);
    assert_eq!(game.halfmove_clock, 0);
    assert_eq!(game.fullmove_clock, 1);
}

#[test]
fn attackers_from_fen() {
    let game =
        Game::from_fen("rnbqkbnr/p1pppppp/8/1p6/4P3/8/PPPP1PPP/RNBQKBNR w KQkq - 0 2").unwrap();
    assert!(game.is_attacked_by(&tables(), Color::WHITE, Square::B5));
}

#[test]
fn empty_squares_have_no_piece_and_no_color() {
    let game = Game::default();
    assert_eq!(game.type_at(Square::E6), None);
    assert_eq!(game.color_at(Square::E6), None);
    assert_eq!(game.type_at(Square::A1), Some(Piece::ROOK));
    assert_eq!(game.color_at(Square::A1), Some(Color::WHITE));
    assert_eq!(game.type_at(Square::D8), Some(Piece::QUEEN));
    assert_eq!(game.color_at(Square::D8), Some(Color::BLACK));
}

#[test]
fn default_position_fields() {
    let game = Game::default();
    assert_eq!(game.color_bitboards[0].0, 0x0000_0000_0000_ffff);
    assert_eq!(game.color_bitboards[1].0, 0xffff_0000_0000_0000);
    assert_eq!(
        game.piece_bitboards[Piece::PAWN as usize],
        Bitboard::from_squares(vec![
            Square::A2, Square::B2, Square::C2, Square::D2, Square::E2, Square::F2, Square::G2,
            Square::H2, Square::A7, Square::B7, Square::C7, Square::D7, Square::E7, Square::F7,
            Square::G7, Square::H7,
        ])
    );
    assert_eq!(
        game.piece_bitboards[Piece::KNIGHT as usize],
        Bitboard::from_squares(vec![Square::B1, Square::G1, Square::B8, Square::G8])
    );
    assert_eq!(
        game.piece_bitboards[Piece::BISHOP as usize],
        Bitboard::from_squares(vec![Square::C1, Square::F1, Square::C8, Square::F8])
    );
    assert_eq!(
        game.piece_bitboards[Piece::ROOK as usize],
        Bitboard::from_squares(vec![Square::A1, Square::H1, Square::A8, Square::H8])
    );
    assert_eq!(
        game.piece_bitboards[Piece::QUEEN as usize],
        Bitboard::from_squares(vec![Square::D1, Square::D8])
    );
    assert_eq!(
        game.piece_bitboards[Piece::KING as usize],
        Bitboard::from_squares(vec![Square::E1, Square::E8])
    );
    assert_eq!(game.to_move, Color::WHITE);
    assert_eq!(game.castling_rights, CastlingRights::ALL_LEGAL);
    assert_eq!(game.castling_rights, 15);
    assert_eq!(game.en_passant_square, None);
    assert_eq!(game.halfmove_clock, 0);
    assert_eq!(game.fullmove_clock, 1);
    assert!(bitboards_agree(&game));
}

#[test]
fn empty_game_has_no_pieces() {
    let game = Game::empty();
    assert_eq!(game.all_pieces().0, 0);
    assert_eq!(game.to_move, Color::WHITE);
    assert_eq!(game.castling_rights, 15);
    assert_eq!(game.fullmove_clock, 1);
}

#[test]
fn capture_removes_one_piece_and_puts_the_mover_there() {
    let mut game = Game::default();
    game.make_move(mv(Square::E2, Square::E7)).unwrap();
    assert_eq!(game.type_at(Square::E7), Some(Piece::PAWN));
    assert_eq!(game.color_at(Square::E7), Some(Color::WHITE));
    assert_eq!(game.type_at(Square::E2), None);
    assert_eq!(game.all_pieces().count_ones(), 31);
    assert_eq!(game.color_bitboards[1].count_ones(), 15);
    assert_eq!(game.color_bitboards[0].count_ones(), 16);
    assert_eq!(game.halfmove_clock, 0);
    assert!(bitboards_agree(&game));
}

#[test]
fn is_capture_needs_an_enemy_on_the_target() {
    let game = Game::default();
    assert!(game.is_capture(mv(Square::E2, Square::E7)));
    assert!(!game.is_capture(mv(Square::E2, Square::E4)));
    assert!(!game.is_capture(mv(Square::E2, Square::D2)));
    // nothing moves from an empty square
    assert!(!game.is_capture(mv(Square::E4, Square::E7)));
}

#[test]
fn is_castle_knows_the_four_king_moves() {
    let game = Game::default();
    assert!(game.is_castle(mv(Square::E1, Square::G1), Piece::KING, Color::WHITE));
    assert!(game.is_castle(mv(Square::E1, Square::C1), Piece::KING, Color::WHITE));
    assert!(game.is_castle(mv(Square::E8, Square::G8), Piece::KING, Color::BLACK));
    assert!(game.is_castle(mv(Square::E8, Square::C8), Piece::KING, Color::BLACK));
    assert!(!game.is_castle(mv(Square::E1, Square::G1), Piece::KING, Color::BLACK));
    assert!(!game.is_castle(mv(Square::E8, Square::G8), Piece::KING, Color::WHITE));
    assert!(!game.is_castle(mv(Square::E1, Square::G1), Piece::QUEEN, Color::WHITE));
    assert!(!game.is_castle(mv(Square::E1, Square::F1), Piece::KING, Color::WHITE));
    assert!(!game.is_castle(mv(Square::D1, Square::G1), Piece::KING, Color::WHITE));
}

#[test]
fn is_en_passant_needs_the_target_and_a_pawn() {
    let mut game = Game::default();
    assert!(!game.is_en_passant(mv(Square::D4, Square::E3), Piece::PAWN));
    game.en_passant_square = Some(Square::E3);
    assert!(game.is_en_passant(mv(Square::D4, Square::E3), Piece::PAWN));
    assert!(!game.is_en_passant(mv(Square::D4, Square::E3), Piece::KNIGHT));
    assert!(!game.is_en_passant(mv(Square::D4, Square::C3), Piece::PAWN));
}

#[test]
fn illegal_moves_leave_the_position_alone() {
    let mut game = Game::default();
    let before = game;
    assert_eq!(game.make_move(mv(Square::E4, Square::E5)), Err(IllegalMove::NoPiece));
    assert_eq!(game, before);
    assert_eq!(game.make_move(mv(Square::E2, Square::F2)), Err(IllegalMove::OwnPieceOnTarget));
    assert_eq!(game, before);
    assert_eq!(game.make_move(mv(Square::E1, Square::E1)), Err(IllegalMove::OwnPieceOnTarget));
    assert_eq!(game, before);

    // the king castles, but the square where the rook lands is taken
    let mut game = Game::from_fen("4k3/8/8/8/8/8/8/4KB1R w K - 0 1").unwrap();
    let before = game;
    assert_eq!(game.make_move(mv(Square::E1, Square::G1)), Err(IllegalMove::NoRookToCastle));
    assert_eq!(game, before);
    // the king castles, but there is no rook in the corner
    let mut game = Game::from_fen("4k3/8/8/8/8/8/8/4K3 w - - 0 1").unwrap();
    let before = game;
    assert_eq!(game.make_move(mv(Square::E1, Square::C1)), Err(IllegalMove::NoRookToCastle));
    assert_eq!(game, before);
}

#[test]
fn double_step_sets_the_en_passant_target_for_one_ply() {
    let mut game = Game::default();
    game.make_move(mv(Square::E2, Square::E4)).unwrap();
    assert_eq!(game.en_passant_square, Some(Square::E3));
    assert_eq!(game.to_move, Color::BLACK);
    game.make_move(mv(Square::G8, Square::F6)).unwrap();
    assert_eq!(game.en_passant_square, None);
    assert_eq!(game.halfmove_clock, 1);
    assert_eq!(game.fullmove_clock, 2);
    game.make_move(mv(Square::D2, Square::D3)).unwrap();
    assert_eq!(game.en_passant_square, None);
    game.make_move(mv(Square::C7, Square::C5)).unwrap();
    assert_eq!(game.en_passant_square, Some(Square::C6));
    assert_eq!(game.fullmove_clock, 3);
    // a double step needs the home rank
    game.make_move(mv(Square::E4, Square::E6)).unwrap();
    assert_eq!(game.en_passant_square, None);
}

#[test]
fn clocks_count_quiet_moves_and_black_moves() {
    let mut game = Game::default();
    game.make_move(mv(Square::G1, Square::F3)).unwrap();
    assert_eq!((game.halfmove_clock, game.fullmove_clock), (1, 1));
    game.make_move(mv(Square::G8, Square::F6)).unwrap();
    assert_eq!((game.halfmove_clock, game.fullmove_clock), (2, 2));
    game.make_move(mv(Square::F3, Square::G1)).unwrap();
    assert_eq!((game.halfmove_clock, game.fullmove_clock), (3, 2));
    game.make_move(mv(Square::F6, Square::G8)).unwrap();
    assert_eq!((game.halfmove_clock, game.fullmove_clock), (4, 3));
    game.make_move(mv(Square::E2, Square::E4)).unwrap();
    assert_eq!((game.halfmove_clock, game.fullmove_clock), (0, 3));
}

#[test]
fn en_passant_removes_the_pawn_behind_the_target() {
    // white has just played e2-e4, black takes d4xe3
    let mut game =
        Game::from_fen("rnbqkbnr/ppp1pppp/8/8/3pP3/8/PPPP1PPP/RNBQKBNR b KQkq e3 0 3").unwrap();
    assert_eq!(game.en_passant_square, Some(Square::E3));
    game.make_move(mv(Square::D4, Square::E3)).unwrap();
    assert_eq!(game.type_at(Square::E3), Some(Piece::PAWN));
    assert_eq!(game.color_at(Square::E3), Some(Color::BLACK));
    assert_eq!(game.type_at(Square::E4), None);
    assert_eq!(game.color_at(Square::E4), None);
    assert_eq!(game.type_at(Square::D4), None);
    assert_eq!(game.color_bitboards[0].count_ones(), 15);
    assert_eq!(game.color_bitboards[1].count_ones(), 16);
    assert_eq!(game.en_passant_square, None);
    assert_eq!(game.halfmove_clock, 0);
    assert!(bitboards_agree(&game));

    // black has just played d7-d5, white takes e5xd6
    let mut game =
        Game::from_fen("rnbqkbnr/ppp1pppp/8/3pP3/8/8/PPPP1PPP/RNBQKBNR w KQkq d6 0 3").unwrap();
    game.make_move(mv(Square::E5, Square::D6)).unwrap();
    assert_eq!(game.type_at(Square::D6), Some(Piece::PAWN));
    assert_eq!(game.color_at(Square::D6), Some(Color::WHITE));
    assert_eq!(game.type_at(Square::D5), None);
    assert_eq!(game.color_bitboards[1].count_ones(), 15);
    assert!(bitboards_agree(&game));

    // a knight that lands on the target takes nothing
    let mut game =
        Game::from_fen("rnbqkbnr/ppp1pppp/8/8/3pP3/8/PPPP1PPP/RNBQKBNR b KQkq e3 0 3").unwrap();
    game.make_move(mv(Square::G8, Square::E3)).unwrap();
    assert_eq!(game.type_at(Square::E4), Some(Piece::PAWN));
    assert_eq!(game.all_pieces().count_ones(), 32);
}

#[test]
fn castling_moves_the_rook_and_gives_up_the_rights() {
    let fen = "r3k2r/pppppppp/8/8/8/8/PPPPPPPP/R3K2R w KQkq - 0 1";
    let mut game = Game::from_fen(fen).unwrap();
    game.make_move(mv(Square::E1, Square::G1)).unwrap();
    assert_eq!(game.type_at(Square::G1), Some(Piece::KING));
    assert_eq!(game.type_at(Square::F1), Some(Piece::ROOK));
    assert_eq!(game.type_at(Square::H1), None);
    assert_eq!(game.type_at(Square::E1), None);
    assert_eq!(game.castling_rights, CastlingRights::BLACK_CASTLING);
    assert_eq!(game.halfmove_clock, 1);
    assert!(bitboards_agree(&game));
    game.make_move(mv(Square::E8, Square::C8)).unwrap();
    assert_eq!(game.type_at(Square::C8), Some(Piece::KING));
    assert_eq!(game.type_at(Square::D8), Some(Piece::ROOK));
    assert_eq!(game.color_at(Square::D8), Some(Color::BLACK));
    assert_eq!(game.type_at(Square::A8), None);
    assert_eq!(game.castling_rights, CastlingRights::NO_LEGAL);
    assert!(bitboards_agree(&game));

    let mut game = Game::from_fen(fen).unwrap();
    game.make_move(mv(Square::E1, Square::C1)).unwrap();
    assert_eq!(game.type_at(Square::C1), Some(Piece::KING));
    assert_eq!(game.type_at(Square::D1), Some(Piece::ROOK));
    assert_eq!(game.type_at(Square::A1), None);
    game.make_move(mv(Square::E8, Square::G8)).unwrap();
    assert_eq!(game.type_at(Square::G8), Some(Piece::KING));
    assert_eq!(game.type_at(Square::F8), Some(Piece::ROOK));
    assert_eq!(game.type_at(Square::H8), None);
    assert_eq!(game.castling_rights, 0);
}

#[test]
fn rights_are_lost_with_the_rook_or_king_that_held_them() {
    let fen = "r3k2r/pppppppp/8/8/8/8/PPPPPPPP/R3K2R w KQkq - 0 1";
    // a rook leaves its corner
    let mut game = Game::from_fen(fen).unwrap();
    game.make_move(mv(Square::H1, Square::G1)).unwrap();
    assert_eq!(game.castling_rights, 15 & !CastlingRights::WHITE_KINGSIDE);
    game.make_move(mv(Square::A8, Square::B8)).unwrap();
    assert_eq!(game.castling_rights, CastlingRights::WHITE_QUEENSIDE | CastlingRights::BLACK_KINGSIDE);
    // a king leaves its square
    let mut game = Game::from_fen(fen).unwrap();
    game.make_move(mv(Square::E1, Square::D1)).unwrap();
    assert_eq!(game.castling_rights, CastlingRights::BLACK_CASTLING);
    game.make_move(mv(Square::E8, Square::F8)).unwrap();
    assert_eq!(game.castling_rights, CastlingRights::NO_LEGAL);
    // a rook is captured on its corner
    let mut game = Game::from_fen(fen).unwrap();
    game.make_move(mv(Square::A1, Square::A8)).unwrap();
    assert_eq!(game.castling_rights, CastlingRights::WHITE_KINGSIDE | CastlingRights::BLACK_KINGSIDE);
    game.make_move(mv(Square::H8, Square::H1)).unwrap();
    assert_eq!(game.castling_rights, 0);
    // other pieces hold no rights
    let mut game = Game::default();
    game.make_move(mv(Square::B1, Square::C3)).unwrap();
    game.make_move(mv(Square::E7, Square::E5)).unwrap();
    assert_eq!(game.castling_rights, 15);
}

#[test]
fn moving_there_and_back_restores_the_bitboards() {
    let start = Game::default();
    let mut game = start;
    game.make_move(mv(Square::G1, Square::F3)).unwrap();
    assert_ne!(game.color_bitboards, start.color_bitboards);
    game.make_move(mv(Square::F3, Square::G1)).unwrap();
    assert_eq!(game.color_bitboards, start.color_bitboards);
    assert_eq!(game.piece_bitboards, start.piece_bitboards);

    // a capture is undone by moving back and putting the captured piece back
    let mut game = start;
    game.make_move(mv(Square::E2, Square::E7)).unwrap();
    game.make_move(mv(Square::E7, Square::E2)).unwrap();
    game.color_bitboards[1] |= Square::E7;
    game.piece_bitboards[Piece::PAWN as usize] |= Square::E7;
    assert_eq!(game.color_bitboards, start.color_bitboards);
    assert_eq!(game.piece_bitboards, start.piece_bitboards);
}

#[test]
fn attacks_of_every_piece_kind() {
    let tables = tables();
    let game = Game::from_fen("4k3/8/8/3p4/8/2N2Q2/1K6/R6B w - - 0 1").unwrap();
    // pawn: d5 attacks c4 and e4, not d4
    assert!(game.is_attacked_by(&tables, Color::BLACK, Square::C4));
    assert!(game.is_attacked_by(&tables, Color::BLACK, Square::E4));
    assert!(!game.is_attacked_by(&tables, Color::BLACK, Square::D4));
    assert!(!game.is_attacked_by(&tables, Color::BLACK, Square::C6));
    // knight
    assert!(game.is_attacked_by(&tables, Color::WHITE, Square::D5));
    assert!(game.is_attacked_by(&tables, Color::WHITE, Square::B5));
    // king, with the step to the upper right
    assert!(game.is_attacked_by(&tables, Color::WHITE, Square::C3));
    assert!(game.is_attacked_by(&tables, Color::WHITE, Square::A3));
    assert!(game.is_attacked_by(&tables, Color::BLACK, Square::F7));
    assert!(!game.is_attacked_by(&tables, Color::BLACK, Square::E6));
    // rook along the file, blocked along the rank by nothing up to h1 itself
    assert!(game.is_attacked_by(&tables, Color::WHITE, Square::A8));
    assert!(game.is_attacked_by(&tables, Color::WHITE, Square::G1));
    // the bishop on h1 sees g2, the queen's diagonal ends on the pawn on d5
    assert!(game.is_attacked_by(&tables, Color::WHITE, Square::G2));
    assert!(!game.is_attacked_by(&tables, Color::WHITE, Square::C6));
    assert!(!game.is_attacked_by(&tables, Color::WHITE, Square::B8));
    // queen on lines and diagonals
    assert!(game.is_attacked_by(&tables, Color::WHITE, Square::F8));
    assert!(game.is_attacked_by(&tables, Color::WHITE, Square::H5));
    assert!(game.is_attacked_by(&tables, Color::WHITE, Square::D5));
    assert!(!game.is_attacked_by(&tables, Color::WHITE, Square::H8));
    // a rook does not attack along diagonals, a bishop not along lines
    let game = Game::from_fen("4k3/8/8/8/8/2R5/8/B3K3 w - - 0 1").unwrap();
    assert!(!game.is_attacked_by(&tables, Color::WHITE, Square::E5));
    assert!(!game.is_attacked_by(&tables, Color::WHITE, Square::A8));
    assert!(game.is_attacked_by(&tables, Color::WHITE, Square::C8));
    assert!(game.is_attacked_by(&tables, Color::WHITE, Square::B2));
}

#[test]
fn check_is_found_from_the_king_square() {
    let tables = tables();
    let game =
        Game::from_fen("rnb1kbnr/pppp1ppp/8/4p3/1P3P1q/8/P1PPP1PP/RNBQKBNR w KQkq - 1 3").unwrap();
    assert_eq!(game.king_square(Color::WHITE), Some(Square::E1));
    assert_eq!(game.king_square(Color::BLACK), Some(Square::E8));
    assert_eq!(game.in_check(&tables, Color::WHITE), Ok(true));
    assert_eq!(game.in_check(&tables, Color::BLACK), Ok(false));
    let game = Game::from_fen("8/8/8/8/8/8/8/4K3 w - - 0 1").unwrap();
    assert_eq!(game.king_square(Color::BLACK), None);
    assert_eq!(game.in_check(&tables, Color::BLACK), Err(InvalidPosition::NoKing));
    assert_eq!(game.in_check(&tables, Color::WHITE), Ok(false));
}

#[test]
fn fen_fields_are_read() {
    let game =
        Game::from_fen("r3k2r/1ppn1ppp/p2bbn2/3p2B1/3P4/2NBPN1P/PP3PP1/R2QK2R b Kq - 12 34")
            .unwrap();
    assert_eq!(game.to_move, Color::BLACK);
    assert_eq!(game.castling_rights, CastlingRights::WHITE_KINGSIDE | CastlingRights::BLACK_QUEENSIDE);
    assert_eq!(game.en_passant_square, None);
    assert_eq!(game.halfmove_clock, 12);
    assert_eq!(game.fullmove_clock, 34);
    assert_eq!(game.type_at(Square::G5), Some(Piece::BISHOP));
    assert_eq!(game.color_at(Square::G5), Some(Color::WHITE));
    assert_eq!(game.type_at(Square::A6), Some(Piece::PAWN));
    assert_eq!(game.color_at(Square::A6), Some(Color::BLACK));
    assert_eq!(game.type_at(Square::A7), None);
    assert!(bitboards_agree(&game));
    // the rest of the record is not read
    let game = Game::from_fen("8/8/8/8/8/8/8/8 w - h6 7 8 and more").unwrap();
    assert_eq!(game.all_pieces().0, 0);
    assert_eq!(game.castling_rights, 0);
    assert_eq!(game.en_passant_square, Some(Square::H6));
    assert_eq!(game.halfmove_clock, 7);
    assert_eq!(game.fullmove_clock, 8);
    // a rank may be written with several digits
    let game = Game::from_fen("rnbq1bnr/pppp1ppp/6k1/4p3/4P3/26/PPPP1PPP/RNBQ1BNR b - - 7 5")
        .unwrap();
    assert_eq!(game.piece_bitboards[Piece::KING as usize].0, 1 << 46);
}

#[test]
fn fen_errors_name_the_field() {
    let err = |fen: &str| Game::from_fen(fen).unwrap_err();
    assert_eq!(err(""), FenError::Placement);
    assert_eq!(err("rnbqkbnr/pppppppp/8/8/8/8/PPPPPPPP/RNBQKBNX w KQkq - 0 1"), FenError::Placement);
    assert_eq!(err("rnbqkbnr/pppppppp/9/8/8/8/PPPPPPPP/RNBQKBNR w KQkq - 0 1"), FenError::Placement);
    assert_eq!(err("rnbqkbnr/pppppppp/44p/8/8/8/PPPPPPPP/RNBQKBNR w KQkq - 0 1"), FenError::Placement);
    assert_eq!(err("rnbqkbnr/pppppppp/7/8/8/8/PPPPPPPP/RNBQKBNR w KQkq - 0 1"), FenError::Placement);
    assert_eq!(err("rnbqkbnr/pppppppp/8/8/8/8/PPPPPPPP w KQkq - 0 1"), FenError::Placement);
    assert_eq!(err("8/8/8/8/8/8/8/8/8 w - - 0 1"), FenError::Placement);
    assert_eq!(err("8/8/8/8/8/8/8/8"), FenError::SideToMove);
    assert_eq!(err("8/8/8/8/8/8/8/8 x - - 0 1"), FenError::SideToMove);
    assert_eq!(err("8/8/8/8/8/8/8/8 wb - - 0 1"), FenError::SideToMove);
    assert_eq!(err("8/8/8/8/8/8/8/8 w"), FenError::Castling);
    assert_eq!(err("8/8/8/8/8/8/8/8 w KX - 0 1"), FenError::Castling);
    assert_eq!(err("8/8/8/8/8/8/8/8 w K- - 0 1"), FenError::Castling);
    assert_eq!(err("8/8/8/8/8/8/8/8 w KQ"), FenError::EnPassant);
    assert_eq!(err("8/8/8/8/8/8/8/8 w KQ e 0 1"), FenError::EnPassant);
    assert_eq!(err("8/8/8/8/8/8/8/8 w KQ e9 0 1"), FenError::EnPassant);
    assert_eq!(err("8/8/8/8/8/8/8/8 w KQ i3 0 1"), FenError::EnPassant);
    assert_eq!(err("8/8/8/8/8/8/8/8 w KQ e3x 0 1"), FenError::EnPassant);
    assert_eq!(err("8/8/8/8/8/8/8/8 w KQ -"), FenError::HalfmoveClock);
    assert_eq!(err("8/8/8/8/8/8/8/8 w KQ - x 1"), FenError::HalfmoveClock);
    assert_eq!(err("8/8/8/8/8/8/8/8 w KQ -  1"), FenError::HalfmoveClock);
    assert_eq!(err("8/8/8/8/8/8/8/8 w KQ - 1x 1"), FenError::HalfmoveClock);
    assert_eq!(
        err("8/8/8/8/8/8/8/8 w KQ - 99999999999999999999999999 1"),
        FenError::HalfmoveClock
    );
    assert_eq!(err("8/8/8/8/8/8/8/8 w KQ - 0"), FenError::FullmoveClock);
    assert_eq!(err("8/8/8/8/8/8/8/8 w KQ - 0 "), FenError::FullmoveClock);
    assert_eq!(err("8/8/8/8/8/8/8/8 w KQ - 0 one"), FenError::FullmoveClock);
    assert_eq!(err("8/8/8/8/8/8/8/8 w KQ - 0 -1"), FenError::FullmoveClock);
    // the first unreadable field is named
    assert_eq!(err("8/8/8/8/8/8/8 x y z"), FenError::Placement);
}

#[test]
fn fen_clocks_up_to_the_word_size() {
    let max = usize::MAX;
    let game = Game::from_fen(&format!("8/8/8/8/8/8/8/8 w - - {} 007", max)).unwrap();
    assert_eq!(game.halfmove_clock, max);
    assert_eq!(game.fullmove_clock, 7);
}

#[test]
fn board_text_shows_every_square() {
    let game = Game::from_fen("4k3/8/8/3p4/8/2N2Q2/1K6/R6B w - - 0 1").unwrap();
    assert_eq!(
        game.to_string(),
        "\n. . . . k . . . \n. . . . . . . . \n. . . . . . . . \n. . . p . . . . \n. . . . . . . . \n. . N . . Q . . \n. K . . . . . . \nR . . . . . . B \n"
    );
}

#[test]
fn well_formed_games_are_told_from_broken_ones() {
    assert!(Game::default().is_well_formed());
    assert!(Game::empty().is_well_formed());
    let game = Game::from_fen("4k3/8/8/3p4/8/2N2Q2/1K6/R6B w - - 0 1").unwrap();
    assert!(game.is_well_formed());
    // a square of both colors
    let mut game = Game::default();
    game.color_bitboards[1] |= Square::E2;
    assert!(!game.is_well_formed());
    // a square with two pieces
    let mut game = Game::default();
    game.piece_bitboards[Piece::QUEEN as usize] |= Square::E2;
    assert!(!game.is_well_formed());
    let mut game = Game::default();
    game.piece_bitboards[Piece::KING as usize] |= Square::A1;
    assert!(!game.is_well_formed());
    // a piece without a color
    let mut game = Game::default();
    game.piece_bitboards[Piece::KNIGHT as usize] |= Square::E4;
    assert!(!game.is_well_formed());
    // a color without a piece
    let mut game = Game::default();
    game.color_bitboards[0] |= Square::E4;
    assert!(!game.is_well_formed());
    assert!(bitboards_agree(&Game::default()));
}

#[test]
fn rights_left_are_backed_by_king_and_rook_along_a_game() {
    let backed = |game: &Game| {
        let has = |s: Square, c: Color, p: Piece| {
            game.color_at(s) == Some(c) && game.type_at(s) == Some(p)
        };
        let r = game.castling_rights;
        (r & 1 == 0 || (has(Square::E1, Color::WHITE, Piece::KING) && has(Square::H1, Color::WHITE, Piece::ROOK)))
            && (r & 2 == 0 || (has(Square::E1, Color::WHITE, Piece::KING) && has(Square::A1, Color::WHITE, Piece::ROOK)))
            && (r & 4 == 0 || (has(Square::E8, Color::BLACK, Piece::KING) && has(Square::A8, Color::BLACK, Piece::ROOK)))
            && (r & 8 == 0 || (has(Square::E8, Color::BLACK, Piece::KING) && has(Square::H8, Color::BLACK, Piece::ROOK)))
    };
    let tables = tables();
    let mut game =
        Game::from_fen("r3k2r/p1ppqpb1/bn2pnp1/3PN3/1p2P3/2N2Q1p/PPPBBPPP/R3K2R w KQkq - 0 1")
            .unwrap();
    assert!(backed(&game));
    for ply in 0..40 {
        let moves = kritisch::movegen::all_legal_moves(&game, &tables).unwrap();
        if moves.is_empty() {
            break;
        }
        let m = moves[(ply * 7) % moves.len()];
        game.make_move(m).unwrap();
        assert!(backed(&game));
        assert!(game.is_well_formed());
    }
}
