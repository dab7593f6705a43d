//! Move generation: per-piece destinations and the legal moves of a position.
use crate::attacks::{
    bishop_reaches, bishop_relevant, forward, king_step, knight_step, lemma_bishop_masked,
    lemma_rook_masked, pawn_attack_step, rook_reaches, rook_relevant,
};
use crate::bitboard::Bitboard;
use crate::bits::{lemma_bit_and, lemma_bit_or, lemma_bit_zero};
use crate::game::Game;
use crate::laws::lemma_pseudo_legal_applies;
use crate::magics::{MagicTables, Slider};
use crate::position::{piece_attacks, InvalidPosition};
use crate::{try_square_offset, CastlingRights, Color, MagicTableEntry, Move, Piece, Square};
use vstd::prelude::*;

verus! {

/// The slot of the flat attack table that `entry` assigns to an occupancy:
/// the blockers inside the mask are multiplied by the multiplier modulo
/// 2^64, the product is shifted right and the block's start is added.
pub fn magic_index(entry: &MagicTableEntry, blockers: Bitboard) -> (index: usize)
    requires
        entry.wf(),
    ensures
        index == entry.slot(blockers.0),
{
    let masked: u64 = blockers.0 & entry.mask;
    let hash: u64 = masked.wrapping_mul(entry.magic);
    let shift: u8 = entry.shift;
    proof {
        assert(shift < 64 ==> (hash >> shift) <= (0xffff_ffff_ffff_ffffu64 >> shift))
            by (bit_vector);
    }
    let index: u64 = hash >> shift;
    entry.offset as usize + index as usize
}

/// The set `acc` with the square `dx` files and `dy` ranks from `square`
/// added, when that square is on the board.
fn with_offset(acc: Bitboard, square: Square, dx: i8, dy: i8) -> (r: Bitboard)
    ensures
        forall|t: Square|
            #[trigger] r.has(t) == (acc.has(t) || (t.file() == square.file() + dx && t.rank()
                == square.rank() + dy)),
{
    match try_square_offset(square, dx, dy) {
        Some(target) => {
            proof {
                Bitboard::lemma_insert(acc, target);
            }
            Bitboard(acc.0 | target.to_u64())
        },
        None => acc,
    }
}

/// The squares a knight's step away from `square`, whatever stands on them.
pub fn pseudolegal_knight_moves(square: Square) -> (r: Bitboard)
    ensures
        forall|t: Square| #[trigger] r.has(t) == knight_step(square, t),
{
    proof {
        lemma_bit_zero();
    }
    let r = Bitboard::empty();
    let r = with_offset(r, square, 1, 2);
    let r = with_offset(r, square, 2, 1);
    let r = with_offset(r, square, 2, -1);
    let r = with_offset(r, square, 1, -2);
    let r = with_offset(r, square, -1, -2);
    let r = with_offset(r, square, -2, -1);
    let r = with_offset(r, square, -2, 1);
    let r = with_offset(r, square, -1, 2);
    r
}

/// The squares a king's step away from `square`, whatever stands on them.
pub fn pseudolegal_king_moves(square: Square) -> (r: Bitboard)
    ensures
        forall|t: Square| #[trigger] r.has(t) == king_step(square, t),
{
    proof {
        lemma_bit_zero();
    }
    let r = Bitboard::empty();
    let r = with_offset(r, square, 1, 1);
    let r = with_offset(r, square, 1, 0);
    let r = with_offset(r, square, 1, -1);
    let r = with_offset(r, square, 0, 1);
    let r = with_offset(r, square, 0, -1);
    let r = with_offset(r, square, -1, 1);
    let r = with_offset(r, square, -1, 0);
    let r = with_offset(r, square, -1, -1);
    r
}

/// The squares that a pawn of `color` on `square` attacks, whatever stands
/// on them.
pub fn pawn_attacks(square: Square, color: Color) -> (r: Bitboard)
    ensures
        forall|t: Square| #[trigger] r.has(t) == pawn_attack_step(color, square, t),
{
    proof {
        lemma_bit_zero();
    }
    let direction: i8 = match color {
        Color::WHITE => 1,
        Color::BLACK => -1,
    };
    let r = Bitboard::empty();
    let r = with_offset(r, square, -1, direction);
    let r = with_offset(r, square, 1, direction);
    r
}

/// The squares a knight on `square` may go to: a knight's step away and not
/// held by a piece of the color of the piece on `square`.
pub fn knight_moves(game: &Game, square: Square) -> (r: Bitboard)
    requires
        game.wf(),
        game@.occupied(square),
    ensures
        forall|t: Square|
            #[trigger] r.has(t) == game@.knight_target(game@.board[square].0, square, t),
{
    let color = match game.color_at(square) {
        Some(color) => color,
        None => {
            return Bitboard::empty();
        },
    };
    let moves = pseudolegal_knight_moves(square);
    without_own(game, color, moves)
}

/// The set `moves` without the squares that hold a piece of `color`.
fn without_own(game: &Game, color: Color, moves: Bitboard) -> (r: Bitboard)
    requires
        game.wf(),
    ensures
        forall|t: Square| #[trigger] r.has(t) == (moves.has(t) && !game@.own(color, t)),
{
    let own = game.color_bitboards[color as usize];
    proof {
        Bitboard::lemma_and_not(moves, own);
        assert forall|t: Square| own.has(t) == game@.own(color, t) by {
            game.lemma_holds(t, color, Piece::PAWN);
        }
    }
    Bitboard(moves.0 & !own.0)
}

/// The squares a pawn on `square` may go to: one step forward onto an empty
/// square, two steps from its home rank when both squares are empty, and
/// diagonally forward onto an occupied square or the en-passant target; not
/// onto a piece of its own color.
pub fn pawn_moves(game: &Game, square: Square) -> (r: Bitboard)
    requires
        game.wf(),
        game@.occupied(square),
    ensures
        forall|t: Square|
            #[trigger] r.has(t) == game@.pawn_target(game@.board[square].0, square, t),
{
    let color = match game.color_at(square) {
        Some(color) => color,
        None => {
            return Bitboard::empty();
        },
    };
    let direction: i8 = match color {
        Color::WHITE => 1,
        Color::BLACK => -1,
    };
    let home: u8 = match color {
        Color::WHITE => 1,
        Color::BLACK => 6,
    };
    proof {
        lemma_bit_zero();
    }
    let mut moves = Bitboard::empty();
    let ghost pos = game@;
    let ghost takes = |t: Square|
        pawn_attack_step(color, square, t) && (pos.occupied(t) || pos.en_passant_square == Some(
            t,
        ));
    match try_square_offset(square, 0, direction) {
        Some(ahead) => {
            if game.is_square_empty(ahead) {
                proof {
                    Bitboard::lemma_insert(moves, ahead);
                }
                moves = Bitboard(moves.0 | ahead.to_u64());
                if square.to_u8() / 8 == home {
                    match try_square_offset(square, 0, 2 * direction) {
                        Some(two_ahead) => {
                            if game.is_square_empty(two_ahead) {
                                proof {
                                    Bitboard::lemma_insert(moves, two_ahead);
                                }
                                moves = Bitboard(moves.0 | two_ahead.to_u64());
                            }
                        },
                        None => {},
                    }
                }
            }
        },
        None => {},
    }
    let attacked = pawn_attacks(square, color);
    let occupied = game.all_pieces();
    let target: u64 = match game.en_passant_square {
        Some(target) => target.to_u64(),
        None => 0,
    };
    let capturable = Bitboard(attacked.0 & (occupied.0 | target));
    proof {
        Bitboard::lemma_and(attacked, Bitboard(occupied.0 | target));
        lemma_bit_or(occupied.0, target);
        Bitboard::lemma_or(moves, capturable);
        match game.en_passant_square {
            Some(target_square) => {
                Bitboard::lemma_insert(Bitboard(0), target_square);
                assert(0u64 | target_square.mask() == target_square.mask()) by (bit_vector);
            },
            None => {},
        }
        assert forall|t: Square| #[trigger] capturable.has(t) == takes(t) by {
            assert(Bitboard(occupied.0 | target).has(t) == (occupied.has(t) || Bitboard(
                target,
            ).has(t)));
        }
    }
    let all = Bitboard(moves.0 | capturable.0);
    without_own(game, color, all)
}

/// Whether `color` may castle to the given side.
fn can_castle(game: &Game, tables: &MagicTables, color: Color, kingside: bool) -> (r: bool)
    requires
        game.wf(),
    ensures
        r == game@.can_castle(color, kingside),
{
    let flag: u8 = match (color, kingside) {
        (Color::WHITE, true) => CastlingRights::WHITE_KINGSIDE,
        (Color::WHITE, false) => CastlingRights::WHITE_QUEENSIDE,
        (Color::BLACK, false) => CastlingRights::BLACK_QUEENSIDE,
        (Color::BLACK, true) => CastlingRights::BLACK_KINGSIDE,
    };
    let king = match color {
        Color::WHITE => Square::E1,
        Color::BLACK => Square::E8,
    };
    let rook = match (color, kingside) {
        (Color::WHITE, true) => Square::H1,
        (Color::WHITE, false) => Square::A1,
        (Color::BLACK, true) => Square::H8,
        (Color::BLACK, false) => Square::A8,
    };
    let pass = match (color, kingside) {
        (Color::WHITE, true) => Square::F1,
        (Color::WHITE, false) => Square::D1,
        (Color::BLACK, true) => Square::F8,
        (Color::BLACK, false) => Square::D8,
    };
    let land = match (color, kingside) {
        (Color::WHITE, true) => Square::G1,
        (Color::WHITE, false) => Square::C1,
        (Color::BLACK, true) => Square::G8,
        (Color::BLACK, false) => Square::C8,
    };
    let knight = match color {
        Color::WHITE => Square::B1,
        Color::BLACK => Square::B8,
    };
    proof {
        game.lemma_holds(king, color, Piece::KING);
        game.lemma_holds(rook, color, Piece::ROOK);
    }
    let own = game.color_bitboards[color as usize];
    let other = color.opposite();
    game.castling_rights & flag != 0 && own.contains(king) && game.piece_bitboards[5].contains(
        king,
    ) && own.contains(rook) && game.piece_bitboards[3].contains(rook) && game.is_square_empty(
        pass,
    ) && game.is_square_empty(land) && (kingside || game.is_square_empty(knight))
        && !game.is_attacked_by(tables, other, king) && !game.is_attacked_by(tables, other, pass)
        && !game.is_attacked_by(tables, other, land)
}

/// The squares a king of `color` on `square` may go to: a king's step away,
/// or the landing square of a castling move that is allowed; not onto a piece
/// of its own color.
pub fn king_moves_from(game: &Game, tables: &MagicTables, color: Color, square: Square) -> (r:
    Bitboard)
    requires
        game.wf(),
    ensures
        forall|t: Square| #[trigger] r.has(t) == game@.king_target(color, square, t),
{
    let mut moves = pseudolegal_king_moves(square);
    let home = match color {
        Color::WHITE => Square::E1,
        Color::BLACK => Square::E8,
    };
    if square == home {
        if can_castle(game, tables, color, true) {
            let land = match color {
                Color::WHITE => Square::G1,
                Color::BLACK => Square::G8,
            };
            proof {
                Bitboard::lemma_insert(moves, land);
            }
            moves = Bitboard(moves.0 | land.to_u64());
        }
        if can_castle(game, tables, color, false) {
            let land = match color {
                Color::WHITE => Square::C1,
                Color::BLACK => Square::C8,
            };
            proof {
                Bitboard::lemma_insert(moves, land);
            }
            moves = Bitboard(moves.0 | land.to_u64());
        }
    }
    without_own(game, color, moves)
}

/// The squares the king of `color` may go to, or an error when `color` has no
/// king. With several kings of one color the lowest one is meant.
pub fn king_moves(game: &Game, tables: &MagicTables, color: Color) -> (r: Result<
    Bitboard,
    InvalidPosition,
>)
    requires
        game.wf(),
    ensures
        match r {
            Ok(moves) => exists|king: Square|
                game@.is_king_square(color, king) && forall|t: Square|
                    #[trigger] moves.has(t) == game@.king_target(color, king, t),
            Err(InvalidPosition::NoKing) => !game@.has_king(color),
        },
{
    match game.king_square(color) {
        Some(king) => Ok(king_moves_from(game, tables, color, king)),
        None => Err(InvalidPosition::NoKing),
    }
}

/// Whether the occupancy of `to` can change what a slider of the given kind
/// attacks from `from`.
pub open spec fn slider_relevant(piece: Piece, from: Square, to: Square) -> bool {
    match piece {
        Piece::ROOK => rook_relevant(from, to),
        Piece::BISHOP => bishop_relevant(from, to),
        Piece::QUEEN => rook_relevant(from, to) || bishop_relevant(from, to),
        _ => false,
    }
}

/// The pieces that can block a slider of the given kind on `square`: the
/// occupied squares among those that matter for it.
pub fn get_blockers_from_position(
    game: &Game,
    tables: &MagicTables,
    piece: Piece,
    square: Square,
) -> (r: Bitboard)
    requires
        piece.is_slider(),
    ensures
        forall|t: Square|
            #[trigger] r.has(t) == (game.color_on(t) is Some && slider_relevant(piece, square, t)),
        r.0 == game.all_pieces_spec().0 & slider_mask(tables, piece, square),
{
    let rook = tables.rook_entry(square).mask;
    let bishop = tables.bishop_entry(square).mask;
    let mask: u64 = match piece {
        Piece::ROOK => rook,
        Piece::BISHOP => bishop,
        _ => rook | bishop,
    };
    let occupied = game.all_pieces();
    proof {
        lemma_bit_or(rook, bishop);
        lemma_bit_and(occupied.0, mask);
        assert forall|t: Square| #[trigger]
            Bitboard(occupied.0 & mask).has(t) == (game.color_on(t) is Some && slider_relevant(
                piece,
                square,
                t,
            )) by {
            assert(occupied.has(t) == (game.color_on(t) is Some));
        }
    }
    Bitboard(occupied.0 & mask)
}

/// The mask that the tables hold for a slider of the given kind on `square`.
pub open spec fn slider_mask(tables: &MagicTables, piece: Piece, square: Square) -> u64 {
    match piece {
        Piece::ROOK => tables.entry(Slider::Rook, square).mask,
        Piece::BISHOP => tables.entry(Slider::Bishop, square).mask,
        _ => tables.entry(Slider::Rook, square).mask | tables.entry(Slider::Bishop, square).mask,
    }
}

/// The squares that the slider on `square` attacks, read from the tables:
/// every square along its lines up to and with the first occupied one,
/// whatever stands on it.
pub fn pseudolegal_slider_moves(game: &Game, tables: &MagicTables, square: Square) -> (r:
    Bitboard)
    requires
        game.wf(),
        game@.occupied(square),
        game@.board[square].1.is_slider(),
    ensures
        forall|t: Square|
            #[trigger] r.has(t) == piece_attacks(
                game@.board[square].1,
                game@.board[square].0,
                game@.board.dom(),
                square,
                t,
            ),
{
    let piece = match game.type_at(square) {
        Some(piece) => piece,
        None => {
            return Bitboard::empty();
        },
    };
    let blockers = get_blockers_from_position(game, tables, piece, square);
    let ghost occupied = game.all_pieces_spec();
    let ghost mask = slider_mask(tables, piece, square);
    proof {
        let rook = tables.entry(Slider::Rook, square).mask;
        let bishop = tables.entry(Slider::Bishop, square).mask;
        use_type_invariant(tables);
        tables.lemma_entry(Slider::Rook, square);
        tables.lemma_entry(Slider::Bishop, square);
        lemma_bit_or(rook, bishop);
        game.lemma_all_pieces();
        assert forall|t: Square|
            piece != Piece::BISHOP implies #[trigger] rook_reaches(blockers@, square, t)
                == rook_reaches(occupied@, square, t) by {
            if piece != Piece::BISHOP {
                lemma_rook_masked(occupied.0, mask, square, t);
            }
        }
        assert forall|t: Square|
            piece != Piece::ROOK implies #[trigger] bishop_reaches(blockers@, square, t)
                == bishop_reaches(occupied@, square, t) by {
            if piece != Piece::ROOK {
                lemma_bishop_masked(occupied.0, mask, square, t);
            }
        }
    }
    match piece {
        Piece::ROOK => tables.rook_attacks(square, blockers),
        Piece::BISHOP => tables.bishop_attacks(square, blockers),
        _ => {
            let straight = tables.rook_attacks(square, blockers);
            let diagonal = tables.bishop_attacks(square, blockers);
            proof {
                Bitboard::lemma_or(straight, diagonal);
            }
            Bitboard(straight.0 | diagonal.0)
        },
    }
}

/// The squares the slider on `square` may go to: the squares it attacks that
/// hold no piece of its own color.
pub fn slider_moves(game: &Game, tables: &MagicTables, square: Square) -> (r: Bitboard)
    requires
        game.wf(),
        game@.occupied(square),
        game@.board[square].1.is_slider(),
    ensures
        forall|t: Square|
            #[trigger] r.has(t) == game@.slider_target(
                game@.board[square].1,
                game@.board[square].0,
                square,
                t,
            ),
{
    let moves = pseudolegal_slider_moves(game, tables, square);
    let color = match game.color_at(square) {
        Some(color) => color,
        None => {
            return Bitboard::empty();
        },
    };
    without_own(game, color, moves)
}

/// The place of a move in the order of generated moves: by start square,
/// then by end square.
pub open spec fn move_key(m: Move) -> int {
    64 * m.start.index() + m.end.index()
}

/// Whether the moves are in strictly rising order.
pub open spec fn strictly_ordered(moves: Seq<Move>) -> bool {
    forall|i: int, j: int| 0 <= i < j < moves.len() ==> move_key(moves[i]) < move_key(moves[j])
}

/// The squares that the piece of the side to move on `square` may go to by
/// the way it moves.
fn targets_from(game: &Game, tables: &MagicTables, square: Square) -> (r: Bitboard)
    requires
        game.wf(),
        game@.own(game@.to_move, square),
    ensures
        forall|t: Square| #[trigger] r.has(t) == game@.pseudo_legal(Move { start: square, end: t }),
{
    match game.type_at(square) {
        Some(Piece::PAWN) => pawn_moves(game, square),
        Some(Piece::KNIGHT) => knight_moves(game, square),
        Some(Piece::KING) => king_moves_from(game, tables, game.to_move, square),
        Some(_) => slider_moves(game, tables, square),
        None => Bitboard::empty(),
    }
}

/// Whether the king of the side to move is safe after `m`. The move is tried
/// on a copy of the position.
fn leaves_king_safe(game: &Game, tables: &MagicTables, m: Move) -> (r: bool)
    requires
        game.wf(),
        game@.pseudo_legal(m),
    ensures
        r == !game@.after(m).in_check(game@.to_move),
{
    let color = game.to_move;
    let mut game_copy = *game;
    game_copy.halfmove_clock = 0;
    game_copy.fullmove_clock = 0;
    match game_copy.make_move(m) {
        Ok(()) => {
            match game_copy.in_check(tables, color) {
                Ok(attacked) => !attacked,
                Err(_) => {
                    true
                },
            }
        },
        Err(_) => false,
    }
}

/// Adding a move at the end of a list adds it to what the list contains.
proof fn lemma_push_contains(moves: Seq<Move>, m: Move)
    ensures
        forall|x: Move| #[trigger] moves.push(m).contains(x) == (moves.contains(x) || x == m),
{
    assert forall|x: Move| #[trigger] moves.push(m).contains(x) == (moves.contains(x) || x
        == m) by {
        if moves.contains(x) {
            let i = choose|i: int| 0 <= i < moves.len() && moves[i] == x;
            assert(moves.push(m)[i] == x);
        }
        if x == m {
            assert(moves.push(m)[moves.len() as int] == x);
        }
        if moves.push(m).contains(x) {
            let i = choose|i: int| 0 <= i < moves.push(m).len() && moves.push(m)[i] == x;
            if i < moves.len() {
                assert(moves[i] == x);
            }
        }
    }
}

/// Appends the legal moves from `square` to `targets` in rising order of the
/// end square.
fn push_legal_from(
    game: &Game,
    tables: &MagicTables,
    square: Square,
    targets: Bitboard,
    moves: &mut Vec<Move>,
)
    requires
        game.wf(),
        forall|t: Square|
            #[trigger] targets.has(t) == game@.pseudo_legal(Move { start: square, end: t }),
        strictly_ordered(old(moves)@),
        forall|i: int|
            0 <= i < old(moves).len() ==> move_key(#[trigger] old(moves)[i]) < 64 * square.index(),
    ensures
        strictly_ordered(final(moves)@),
        forall|i: int|
            0 <= i < final(moves).len() ==> move_key(#[trigger] final(moves)[i]) < 64 * (
            square.index() + 1),
        forall|m: Move|
            #[trigger] final(moves)@.contains(m) == (old(moves)@.contains(m) || (m.start == square
                && game@.legal(m))),
{
    let mut move_bb = targets;
    let ghost mut low: int = 0;
    while move_bb.any()
        invariant
            game.wf(),
            0 <= low <= 64,
            0 <= square.index() < 64,
            forall|t: Square|
                #[trigger] targets.has(t) == game@.pseudo_legal(Move { start: square, end: t }),
            forall|t: Square| #[trigger] move_bb.has(t) == (targets.has(t) && t.index() >= low),
            strictly_ordered(moves@),
            forall|i: int|
                0 <= i < moves.len() ==> move_key(#[trigger] moves[i]) < 64 * square.index() + low,
            forall|m: Move|
                #[trigger] moves@.contains(m) == (old(moves)@.contains(m) || (m.start == square
                    && game@.legal(m) && m.end.index() < low)),
        decreases 64 - low,
    {
        let sq = move_bb.first_square();
        let mv = Move { start: square, end: sq };
        let ghost before = moves@;
        proof {
            lemma_push_contains(before, mv);
        }
        if leaves_king_safe(game, tables, mv) {
            moves.push(mv);
        }
        let ghost rest = move_bb;
        move_bb.clear_lsb();
        proof {
            assert forall|m: Move|
                #[trigger] moves@.contains(m) == (old(moves)@.contains(m) || (m.start == square
                    && game@.legal(m) && m.end.index() < sq.index() + 1)) by {
                if m.start == square && game@.legal(m) && low <= m.end.index() < sq.index() + 1 {
                    assert(rest.has(m.end));
                    Square::lemma_index_injective(m.end, sq);
                }
            }
            low = sq.index() + 1;
        }
    }
    proof {
        assert forall|m: Move|
            #[trigger] moves@.contains(m) == (old(moves)@.contains(m) || (m.start == square
                && game@.legal(m))) by {
            if m.start == square && game@.legal(m) {
                assert(!move_bb.has(m.end));
            }
        }
    }
}

/// The legal moves of the side to move, ordered by start square and then by
/// end square, or an error when that side has no king.
///
/// Every piece of the side to move is asked for the squares it may go to;
/// each such move is tried on a copy of the position and kept when it does
/// not leave the king of the side that moved attacked.
pub fn all_legal_moves(game: &Game, tables: &MagicTables) -> (r: Result<
    Vec<Move>,
    InvalidPosition,
>)
    requires
        game.wf(),
    ensures
        match r {
            Ok(moves) => {
                &&& game@.has_king(game@.to_move)
                &&& forall|m: Move| #[trigger] moves@.contains(m) == game@.legal(m)
                &&& forall|m: Move| moves@.contains(m) ==> game@.check_move(m) is Ok
                &&& strictly_ordered(moves@)
            },
            Err(InvalidPosition::NoKing) => !game@.has_king(game@.to_move),
        },
{
    let color = game.to_move;
    match game.king_square(color) {
        Some(_) => {},
        None => {
            return Err(InvalidPosition::NoKing);
        },
    }
    let own = game.color_bitboards[color as usize];
    let mut pieces = own;
    let mut moves: Vec<Move> = Vec::new();
    let ghost mut low: int = 0;
    proof {
        assert forall|s: Square| #[trigger] own.has(s) == game@.own(color, s) by {
            game.lemma_holds(s, color, Piece::PAWN);
        }
    }
    while pieces.any()
        invariant
            game.wf(),
            color == game@.to_move,
            0 <= low <= 64,
            forall|s: Square| #[trigger] own.has(s) == game@.own(color, s),
            forall|s: Square| #[trigger] pieces.has(s) == (own.has(s) && s.index() >= low),
            strictly_ordered(moves@),
            forall|i: int| 0 <= i < moves.len() ==> move_key(#[trigger] moves[i]) < 64 * low,
            forall|m: Move|
                #[trigger] moves@.contains(m) == (game@.legal(m) && m.start.index() < low),
        decreases 64 - low,
    {
        let s = pieces.first_square();
        let targets = targets_from(game, tables, s);
        push_legal_from(game, tables, s, targets, &mut moves);
        let ghost rest = pieces;
        pieces.clear_lsb();
        proof {
            assert forall|m: Move|
                #[trigger] moves@.contains(m) == (game@.legal(m) && m.start.index() < s.index()
                    + 1) by {
                if game@.legal(m) && low <= m.start.index() < s.index() + 1 {
                    assert(rest.has(m.start));
                }
            }
            low = s.index() + 1;
        }
    }
    proof {
        assert forall|m: Move| #[trigger] moves@.contains(m) == game@.legal(m) by {
            if game@.legal(m) {
                assert(!pieces.has(m.start));
            }
        }
        assert forall|m: Move| moves@.contains(m) implies game@.check_move(m) is Ok by {
            lemma_pseudo_legal_applies(game@, m);
        }
    }
    Ok(moves)
}

} // verus!
