use kritisch::attacks::{bishop_mask, bishop_rays, rook_mask, rook_rays};
use kritisch::bitboard::Bitboard;
use kritisch::game::Game;
use kritisch::magics::{MagicTables, BISHOP_MAGICS, ROOK_MAGICS};
use kritisch::movegen::{self, all_legal_moves};
use kritisch::position::InvalidPosition;
use kritisch::{Color, MagicTableEntry, Move, Piece, Square};

fn tables() -> MagicTables {
    MagicTables::new(&ROOK_MAGICS, &BISHOP_MAGICS).unwrap()
}

fn mv(start: Square, end: Square) -> Move {
    Move { start, end }
}

fn bitboards_agree(game: &Game) -> bool {
    let mut pieces = 0u64;
    for i in 0..6 {
        if pieces & game.piece_bitboards[i].0 != 0 {
            return false;
        }
        pieces |= game.piece_bitboards[i].0;
    }
    game.color_bitboards[0].0 & game.color_bitboards[1].0 == 0
        && game.color_bitboards[0].0 | game.color_bitboards[1].0 == pieces
}

/// The number of positions after `depth` plies of legal moves.
fn count_lines(game: &Game, tables: &MagicTables, depth: u32) -> u64 {
    if depth == 0 {
        return 1;
    }
    let mut total = 0;
    for m in all_legal_moves(game, tables).unwrap() {
        let mut next = *game;
        next.make_move(m).unwrap();
        assert!(bitboards_agree(&next));
        total += count_lines(&next, tables, depth - 1);
    }
    total
}

#[test]
fn pseudolegal_knight_moves() {
    let moves = movegen::pseudolegal_knight_moves(Square::C3);
    assert_eq!(moves.0, 43234889994);
}

#[test]
fn slider_moves() {
    // Position after 1. e2 e4
    let game =
        Game::from_fen("rnbqkbnr/pppp1ppp/8/4p3/4P3/8/PPPP1PPP/RNBQKBNR w KQkq - 0 2").unwrap();
    let moves = movegen::slider_moves(&game, &tables(), Square::F1);
    assert_eq!(moves.0, 1108169199616);
}

#[test]
fn pseudolegal_slider_moves() {
    let game = Game::default();
    let moves = movegen::pseudolegal_slider_moves(&game, &tables(), Square::F1);
    assert_eq!(moves.0, 20480);
}

#[test]
fn king_moves() {
    let game =
        Game::from_fen("rnbq1bnr/pppp1ppp/6k1/4p3/4P3/1K6/PPPP1PPP/RNBQ1BNR b - - 7 5").unwrap();
    let moves = movegen::king_moves(&game, &tables(), Color::WHITE).unwrap();
    assert_eq!(moves.0, 117768192);
}

#[test]
#[should_panic]
fn king_moves_no_king() {
    let game =
        Game::from_fen("rnbq1bnr/pppp1ppp/6k1/4p3/4P3/26/PPPP1PPP/RNBQ1BNR b - - 7 5").unwrap();
    let _ = movegen::king_moves(&game, &tables(), Color::WHITE).unwrap();
}

#[test]
fn king_moves_without_a_king_are_an_error() {
    let game =
        Game::from_fen("rnbq1bnr/pppp1ppp/6k1/4p3/4P3/26/PPPP1PPP/RNBQ1BNR b - - 7 5").unwrap();
    assert_eq!(
        movegen::king_moves(&game, &tables(), Color::WHITE),
        Err(InvalidPosition::NoKing)
    );
    assert!(movegen::king_moves(&game, &tables(), Color::BLACK).is_ok());
}

#[test]
fn all_legal_from_initial() {
    let game = Game::default();
    let moves = all_legal_moves(&game, &tables()).unwrap();
    assert!(!moves.is_empty());
    assert_eq!(
        moves,
        [
            Move {
                start: Square::B1,
                end: Square::A3
            },
            Move {
                start: Square::B1,
                end: Square::C3
            },
            Move {
                start: Square::G1,
                end: Square::F3
            },
            Move {
                start: Square::G1,
                end: Square::H3
            },
            Move {
                start: Square::A2,
                end: Square::A3
            },
            Move {
                start: Square::A2,
                end: Square::A4
            },
            Move {
                start: Square::B2,
                end: Square::B3
            },
            Move {
                start: Square::B2,
                end: Square::B4
            },
            Move {
                start: Square::C2,
                end: Square::C3
            },
            Move {
                start: Square::C2,
                end: Square::C4
            },
            Move {
                start: Square::D2,
                end: Square::D3
            },
            Move {
                start: Square::D2,
                end: Square::D4
            },
            Move {
                start: Square::E2,
                end: Square::E3
            },
            Move {
                start: Square::E2,
                end: Square::E4
            },
            Move {
                start: Square::F2,
                end: Square::F3
            },
            Move {
                start: Square::F2,
                end: Square::F4
            },
            Move {
                start: Square::G2,
                end: Square::G3
            },
            Move {
                start: Square::G2,
                end: Square::G4
            },
            Move {
                start: Square::H2,
                end: Square::H3
            },
            Move {
                start: Square::H2,
                end: Square::H4
            }
        ]
    );
}

#[test]
fn all_legal_with_possible_check() {
    let game =
        Game::from_fen("rnbqkbnr/pppp1ppp/8/4p2Q/4P3/8/PPPP1PPP/RNB1KBNR b KQkq - 1 2").unwrap();
    let moves = all_legal_moves(&game, &tables()).unwrap();
    for m in &moves {
        println!("{:?}", m);
    }
    assert!(!moves.is_empty());
}

#[test]
fn all_legal_from_check() {
    let game =
        Game::from_fen("rnb1kbnr/pppp1ppp/8/4p3/1P3P1q/8/P1PPP1PP/RNBQKBNR w KQkq - 1 3").unwrap();
    let moves = all_legal_moves(&game, &tables()).unwrap();
    assert_eq!(
        moves,
        vec![Move {
            start: Square::G2,
            end: Square::G3
        }]
    );
}

#[test]
fn all_legal_with_castling() {
    let game =
        Game::from_fen("r2qk2r/1ppn1ppp/p2bbn2/3p2B1/3P4/2NBPN1P/PP3PP1/R2QK2R b KQkq - 2 9")
            .unwrap();
    let moves = all_legal_moves(&game, &tables()).unwrap();
    for m in &moves {
        println!("{:?}", m);
    }
    assert!(!moves.is_empty());
    assert!(moves.contains(&mv(Square::E8, Square::G8)));
    assert!(!moves.contains(&mv(Square::E8, Square::C8)));
}

#[test]
fn slider_blockers() {
    let game = Game::default();
    let blockers =
        movegen::get_blockers_from_position(&game, &tables(), Piece::BISHOP, Square::F1);
    assert_eq!(blockers.0, 20480);
}

#[test]
fn starting_position_has_twenty_legal_moves() {
    let game = Game::default();
    assert_eq!(all_legal_moves(&game, &tables()).unwrap().len(), 20);
}

#[test]
fn legal_moves_come_in_rising_order() {
    let tables = tables();
    for fen in [
        "r3k2r/p1ppqpb1/bn2pnp1/3PN3/1p2P3/2N2Q1p/PPPBBPPP/R3K2R w KQkq - 0 1",
        "r2qk2r/1ppn1ppp/p2bbn2/3p2B1/3P4/2NBPN1P/PP3PP1/R2QK2R b KQkq - 2 9",
        "8/2p5/3p4/KP5r/1R3p1k/8/4P1P1/8 w - - 0 1",
    ] {
        let game = Game::from_fen(fen).unwrap();
        let moves = all_legal_moves(&game, &tables).unwrap();
        for pair in moves.windows(2) {
            let a = (pair[0].start as u8, pair[0].end as u8);
            let b = (pair[1].start as u8, pair[1].end as u8);
            assert!(a < b);
        }
    }
}

#[test]
fn legal_move_counts_of_known_positions() {
    let tables = tables();
    let start = Game::default();
    assert_eq!(count_lines(&start, &tables, 1), 20);
    assert_eq!(count_lines(&start, &tables, 2), 400);
    assert_eq!(count_lines(&start, &tables, 3), 8902);
    let game =
        Game::from_fen("r3k2r/p1ppqpb1/bn2pnp1/3PN3/1p2P3/2N2Q1p/PPPBBPPP/R3K2R w KQkq - 0 1")
            .unwrap();
    assert_eq!(count_lines(&game, &tables, 1), 48);
    assert_eq!(count_lines(&game, &tables, 2), 2039);
    let game = Game::from_fen("8/2p5/3p4/KP5r/1R3p1k/8/4P1P1/8 w - - 0 1").unwrap();
    assert_eq!(count_lines(&game, &tables, 1), 14);
    assert_eq!(count_lines(&game, &tables, 2), 191);
    assert_eq!(count_lines(&game, &tables, 3), 2812);
}

#[test]
fn invariants_hold_along_a_game() {
    let tables = tables();
    let mut game = Game::default();
    // always play the middle legal move
    for _ in 0..60 {
        let moves = all_legal_moves(&game, &tables).unwrap();
        if moves.is_empty() {
            break;
        }
        let m = moves[moves.len() / 2];
        game.make_move(m).unwrap();
        assert!(bitboards_agree(&game));
        assert_eq!(game.piece_bitboards[Piece::KING as usize].count_ones(), 2);
    }
}

#[test]
fn no_king_is_an_invalid_position() {
    let tables = tables();
    let game = Game::from_fen("4k3/8/8/8/8/8/PPPPPPPP/RNBQ1BNR w - - 0 1").unwrap();
    assert_eq!(all_legal_moves(&game, &tables), Err(InvalidPosition::NoKing));
    let game = Game::from_fen("8/8/8/8/8/8/8/8 w - - 0 1").unwrap();
    assert_eq!(all_legal_moves(&game, &tables), Err(InvalidPosition::NoKing));
    // the side that is not to move may lack its king
    let game = Game::from_fen("8/8/8/8/8/8/8/4K3 w - - 0 1").unwrap();
    assert_eq!(all_legal_moves(&game, &tables).unwrap().len(), 5);
}

#[test]
fn mate_and_stalemate_have_no_legal_moves() {
    let tables = tables();
    // fool's mate
    let game =
        Game::from_fen("rnb1kbnr/pppp1ppp/8/4p3/6Pq/5P2/PPPPP2P/RNBQKBNR w KQkq - 1 3").unwrap();
    assert!(all_legal_moves(&game, &tables).unwrap().is_empty());
    assert_eq!(game.in_check(&tables, Color::WHITE), Ok(true));
    let game = Game::from_fen("7k/5Q2/6K1/8/8/8/8/8 b - - 0 1").unwrap();
    assert!(all_legal_moves(&game, &tables).unwrap().is_empty());
    assert_eq!(game.in_check(&tables, Color::BLACK), Ok(false));
}

#[test]
fn pinned_pieces_stay_on_the_line() {
    let tables = tables();
    let game = Game::from_fen("4k3/8/8/8/4r3/8/4N3/4K3 w - - 0 1").unwrap();
    let moves = all_legal_moves(&game, &tables).unwrap();
    assert!(moves.iter().all(|m| m.start != Square::E2));
    assert_eq!(moves.len(), 4);
    let game = Game::from_fen("4k3/8/8/8/4r3/8/4R3/4K3 w - - 0 1").unwrap();
    let moves = all_legal_moves(&game, &tables).unwrap();
    let rook: Vec<Square> = moves.iter().filter(|m| m.start == Square::E2).map(|m| m.end).collect();
    assert_eq!(rook, vec![Square::E3, Square::E4]);
}

#[test]
fn knight_moves_avoid_own_pieces() {
    let game = Game::default();
    let moves = movegen::knight_moves(&game, Square::G1);
    assert_eq!(moves.0, 10485760);
    let moves = movegen::knight_moves(&game, Square::B8);
    assert_eq!(moves, Bitboard::from_squares(vec![Square::A6, Square::C6]));
    assert_eq!(
        movegen::pseudolegal_knight_moves(Square::A1),
        Bitboard::from_squares(vec![Square::B3, Square::C2])
    );
    assert_eq!(movegen::pseudolegal_knight_moves(Square::H8).0, 9077567998918656);
    assert_eq!(movegen::pseudolegal_knight_moves(Square::E4).count_ones(), 8);
}

#[test]
fn king_steps_stay_on_the_board() {
    assert_eq!(
        movegen::pseudolegal_king_moves(Square::A1),
        Bitboard::from_squares(vec![Square::A2, Square::B1, Square::B2])
    );
    assert_eq!(movegen::pseudolegal_king_moves(Square::E4).count_ones(), 8);
    assert_eq!(movegen::pseudolegal_king_moves(Square::H5).count_ones(), 5);
}

#[test]
fn pawn_attack_patterns() {
    let attacks = movegen::pawn_attacks(Square::E2, Color::WHITE);
    assert_eq!(attacks.0, 2621440);
    assert_eq!(
        movegen::pawn_attacks(Square::A2, Color::WHITE),
        Bitboard::from_square(Square::B3)
    );
    assert_eq!(
        movegen::pawn_attacks(Square::H7, Color::BLACK),
        Bitboard::from_square(Square::G6)
    );
    assert_eq!(
        movegen::pawn_attacks(Square::D5, Color::BLACK),
        Bitboard::from_squares(vec![Square::C4, Square::E4])
    );
    assert_eq!(movegen::pawn_attacks(Square::D8, Color::WHITE).0, 0);
    assert_eq!(movegen::pawn_attacks(Square::D1, Color::BLACK).0, 0);
}

#[test]
fn pawn_moves_push_and_capture() {
    let game = Game::default();
    let moves = movegen::pawn_moves(&game, Square::E2);
    assert_eq!(moves.0, 269484032);
    assert_eq!(
        movegen::pawn_moves(&game, Square::A7),
        Bitboard::from_squares(vec![Square::A6, Square::A5])
    );
    // blocked pawns: one step blocked blocks the double step too
    let game = Game::from_fen("4k3/8/8/8/8/4n3/4P3/4K3 w - - 0 1").unwrap();
    assert_eq!(movegen::pawn_moves(&game, Square::E2).0, 0);
    let game = Game::from_fen("4k3/8/8/8/4n3/8/4P3/4K3 w - - 0 1").unwrap();
    assert_eq!(movegen::pawn_moves(&game, Square::E2), Bitboard::from_square(Square::E3));
    // captures to both sides, not onto own pieces
    let game = Game::from_fen("4k3/8/8/8/8/3n1N2/4P3/4K3 w - - 0 1").unwrap();
    assert_eq!(
        movegen::pawn_moves(&game, Square::E2),
        Bitboard::from_squares(vec![Square::D3, Square::E3, Square::E4])
    );
    // a pawn off its home rank steps once
    let game = Game::from_fen("4k3/8/8/8/8/4P3/8/4K3 w - - 0 1").unwrap();
    assert_eq!(movegen::pawn_moves(&game, Square::E3), Bitboard::from_square(Square::E4));
    // the en-passant target can be taken
    let game =
        Game::from_fen("rnbqkbnr/ppp1pppp/8/8/3pP3/8/PPPP1PPP/RNBQKBNR b KQkq e3 0 3").unwrap();
    assert_eq!(
        movegen::pawn_moves(&game, Square::D4),
        Bitboard::from_squares(vec![Square::D3, Square::E3])
    );
    // a pawn on the last rank has nowhere to go
    let game = Game::from_fen("4k2P/8/8/8/8/8/8/4K3 w - - 0 1").unwrap();
    assert_eq!(movegen::pawn_moves(&game, Square::H8).0, 0);
}

#[test]
fn en_passant_is_legal_only_when_it_leaves_the_king_safe() {
    let tables = tables();
    let game =
        Game::from_fen("rnbqkbnr/ppp1pppp/8/8/3pP3/8/PPPP1PPP/RNBQKBNR b KQkq e3 0 3").unwrap();
    let moves = all_legal_moves(&game, &tables).unwrap();
    assert!(moves.contains(&mv(Square::D4, Square::E3)));
    // taking en passant would open the fourth rank for the rook
    let game = Game::from_fen("8/8/8/8/k2pP2R/8/8/4K3 b - e3 0 1").unwrap();
    let moves = all_legal_moves(&game, &tables).unwrap();
    assert!(!moves.contains(&mv(Square::D4, Square::E3)));
    assert!(moves.contains(&mv(Square::D4, Square::D3)));
}

#[test]
fn castling_needs_rights_room_and_safe_squares() {
    let tables = tables();
    let castles = |fen: &str| -> Vec<Square> {
        let game = Game::from_fen(fen).unwrap();
        let king = if game.to_move == Color::WHITE {
            Square::E1
        } else {
            Square::E8
        };
        all_legal_moves(&game, &tables)
            .unwrap()
            .iter()
            .filter(|m| game.is_castle(**m, game.type_at(m.start).unwrap(), game.to_move))
            .filter(|m| m.start == king)
            .map(|m| m.end)
            .collect()
    };
    // both sides are offered at once
    assert_eq!(castles("r3k2r/8/8/8/8/8/8/R3K2R w KQkq - 0 1"), vec![Square::C1, Square::G1]);
    assert_eq!(castles("r3k2r/8/8/8/8/8/8/R3K2R b KQkq - 0 1"), vec![Square::C8, Square::G8]);
    // rights
    assert_eq!(castles("r3k2r/8/8/8/8/8/8/R3K2R w Kkq - 0 1"), vec![Square::G1]);
    assert_eq!(castles("r3k2r/8/8/8/8/8/8/R3K2R w Qkq - 0 1"), vec![Square::C1]);
    assert_eq!(castles("r3k2r/8/8/8/8/8/8/R3K2R w kq - 0 1"), vec![]);
    assert_eq!(castles("r3k2r/8/8/8/8/8/8/R3K2R b KQ - 0 1"), vec![]);
    // room between king and rook
    assert_eq!(castles("r3k2r/8/8/8/8/8/8/RN2K1NR w KQkq - 0 1"), vec![]);
    assert_eq!(castles("r3k2r/8/8/8/8/8/8/R2QKB1R w KQkq - 0 1"), vec![]);
    assert_eq!(castles("rn2k2r/8/8/8/8/8/8/R3K2R b KQkq - 0 1"), vec![Square::G8]);
    // the king is in check
    assert_eq!(castles("r3k2r/8/8/8/8/8/4r3/R3K2R w KQ - 0 1"), vec![]);
    // the king would pass an attacked square
    assert_eq!(castles("4k3/8/8/8/8/8/5r2/R3K2R w KQ - 0 1"), vec![Square::C1]);
    assert_eq!(castles("4k3/8/8/8/8/8/3r4/R3K2R w KQ - 0 1"), vec![Square::G1]);
    // the king would land on an attacked square
    assert_eq!(castles("4k3/8/8/8/8/8/6r1/R3K2R w KQ - 0 1"), vec![Square::C1]);
    assert_eq!(castles("4k3/8/8/8/8/8/2r5/R3K2R w KQ - 0 1"), vec![Square::G1]);
    // the rook may pass an attacked square
    assert_eq!(castles("4k3/8/8/8/8/8/1r6/R3K2R w KQ - 0 1"), vec![Square::C1, Square::G1]);
    // rights without the rook offer nothing
    assert_eq!(castles("4k3/8/8/8/8/8/8/4K2R w KQ - 0 1"), vec![Square::G1]);
    assert_eq!(castles("4k3/8/8/8/8/8/8/4K3 w KQ - 0 1"), vec![]);
    // the king steps next to its home square are not castling moves
    let game = Game::from_fen("4k3/8/8/8/8/8/8/R3K2R w - - 0 1").unwrap();
    let moves = movegen::king_moves(&game, &tables, Color::WHITE).unwrap();
    assert_eq!(
        moves,
        Bitboard::from_squares(vec![Square::D1, Square::F1, Square::D2, Square::E2, Square::F2])
    );
}

#[test]
fn queen_moves_join_lines_and_diagonals() {
    let tables = tables();
    let game = Game::from_fen("4k3/8/8/8/3Q4/8/8/4K3 w - - 0 1").unwrap();
    let moves = movegen::slider_moves(&game, &tables, Square::D4);
    assert_eq!(moves.count_ones(), 27);
    assert_eq!(moves, rook_rays(Square::D4, game.all_pieces().0) | bishop_rays(Square::D4, game.all_pieces().0));
    let blockers =
        movegen::get_blockers_from_position(&game, &tables, Piece::QUEEN, Square::D4);
    assert_eq!(blockers.0, 0);
    let game = Game::default();
    let blockers =
        movegen::get_blockers_from_position(&game, &tables, Piece::ROOK, Square::A1);
    assert_eq!(blockers, Bitboard::from_squares(vec![Square::B1, Square::C1, Square::D1, Square::E1, Square::F1, Square::G1, Square::A2, Square::A7]));
    assert_eq!(movegen::pseudolegal_slider_moves(&game, &tables, Square::A1), Bitboard::from_squares(vec![Square::B1, Square::A2]));
    assert_eq!(movegen::slider_moves(&game, &tables, Square::A1).0, 0);
    assert_eq!(movegen::slider_moves(&game, &tables, Square::D8).0, 0);
}

#[test]
fn magic_index_hashes_the_masked_blockers() {
    let entry = MagicTableEntry { mask: 0x0000_0000_0000_ff00, magic: 0x0101_0101_0101_0101, shift: 56, offset: 1000 };
    // blockers outside the mask do not count
    assert_eq!(movegen::magic_index(&entry, Bitboard::from_u64(0xffff_0000_0000_00ff)), 1000);
    // 0x0300 * magic = 0x0303..0300 modulo 2^64, top byte 3
    assert_eq!(movegen::magic_index(&entry, Bitboard::from_u64(0x0300)), 1003);
    // the product wraps
    assert_eq!(movegen::magic_index(&entry, Bitboard::from_u64(0xff00)), 1000 + 0xff);
    let entry = MagicTableEntry { mask: u64::MAX, magic: 3, shift: 0, offset: 0 };
    assert_eq!(movegen::magic_index(&entry, Bitboard::from_u64(5)), 15);
    let entry = MagicTableEntry { mask: u64::MAX, magic: 1 << 63, shift: 63, offset: 2 };
    assert_eq!(movegen::magic_index(&entry, Bitboard::from_u64(3)), 3);
    assert_eq!(movegen::magic_index(&entry, Bitboard::from_u64(2)), 2);
}

#[test]
fn table_lookups_equal_the_ray_walk() {
    let tables = tables();
    for v in 0..64u8 {
        let square = Square::from_u8(v);
        for (mask, rook) in [(rook_mask(square).0, true), (bishop_mask(square).0, false)] {
            assert_eq!(
                mask,
                if rook { tables.rook_entry(square).mask } else { tables.bishop_entry(square).mask }
            );
            // every set of blockers inside the mask
            let mut blockers = 0u64;
            loop {
                // together with pieces that cannot block
                for occ in [blockers, blockers | !mask] {
                    if rook {
                        assert_eq!(tables.rook_attacks(square, Bitboard(occ)), rook_rays(square, occ));
                    } else {
                        assert_eq!(
                            tables.bishop_attacks(square, Bitboard(occ)),
                            bishop_rays(square, occ)
                        );
                    }
                }
                blockers = blockers.wrapping_sub(mask) & mask;
                if blockers == 0 {
                    break;
                }
            }
        }
    }
}

#[test]
fn ray_walks_stop_at_the_first_piece() {
    assert_eq!(rook_rays(Square::A1, 0).0, 0x0101_0101_0101_01fe);
    assert_eq!(bishop_rays(Square::A1, 0).0, 0x8040_2010_0804_0200);
    let occ = Bitboard::from_squares(vec![Square::D6, Square::F4, Square::D3, Square::B4]).0;
    assert_eq!(
        rook_rays(Square::D4, occ),
        Bitboard::from_squares(vec![
            Square::D5, Square::D6, Square::E4, Square::F4, Square::D3, Square::C4, Square::B4
        ])
    );
    let occ = Bitboard::from_squares(vec![Square::F6, Square::B2]).0;
    assert_eq!(
        bishop_rays(Square::D4, occ),
        Bitboard::from_squares(vec![
            Square::E5, Square::F6, Square::C3, Square::B2, Square::E3, Square::F2, Square::G1,
            Square::C5, Square::B6, Square::A7
        ])
    );
    assert_eq!(rook_mask(Square::A1).0, 0x0001_0101_0101_017e);
    assert_eq!(bishop_mask(Square::F1).0, 0x0000_0002_0408_5000);
    assert_eq!(rook_mask(Square::D4).count_ones(), 10);
    assert_eq!(bishop_mask(Square::D4).count_ones(), 9);
}

#[test]
fn tables_refuse_colliding_multipliers() {
    let mut rook = ROOK_MAGICS;
    rook[0] = 0;
    assert!(MagicTables::new(&rook, &BISHOP_MAGICS).is_none());
    let mut bishop = BISHOP_MAGICS;
    bishop[27] = 1;
    assert!(MagicTables::new(&ROOK_MAGICS, &bishop).is_none());
}
