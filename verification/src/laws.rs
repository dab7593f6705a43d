//! What holds of every position and every move that can be applied to it.
use crate::attacks::{forward, king_step};
use crate::game::{start_position, Game};
use crate::position::{
    castle_flag, castle_king_home, castle_rook_home, castle_rook_move, has_right, home_rights,
    is_castle_move, square_behind, without_rights, Board, Position,
};
use crate::{Color, Move, Piece, Square};
use vstd::prelude::*;

verus! {

/// The move that takes the piece of `m` back to where it came from.
pub open spec fn reversed(m: Move) -> Move {
    Move { start: m.end, end: m.start }
}

/// Whether `m` only moves one piece: it can be applied, takes nothing, and
/// neither it nor its reverse is a castling move.
pub open spec fn is_quiet(pos: Position, m: Move) -> bool {
    &&& pos.check_move(m) is Ok
    &&& pos.captured_square(m) is None
    &&& !is_castle_move(m, pos.board[m.start].1, pos.board[m.start].0)
    &&& !is_castle_move(reversed(m), pos.board[m.start].1, pos.board[m.start].0)
}

/// Whether the right of `color` to castle to a side, if it is left, is
/// backed by the king and the rook on their home squares.
pub open spec fn right_is_backed(pos: Position, color: Color, kingside: bool) -> bool {
    has_right(pos.castling_rights, castle_flag(color, kingside)) ==> pos.holds(
        castle_king_home(color),
        color,
        Piece::KING,
    ) && pos.holds(castle_rook_home(color, kingside), color, Piece::ROOK)
}

/// Whether every castling right that is left is backed by its king and
/// rook: once one of them has left its home square or was captured there,
/// the right is gone.
pub open spec fn rights_are_backed(pos: Position) -> bool {
    &&& right_is_backed(pos, Color::WHITE, true)
    &&& right_is_backed(pos, Color::WHITE, false)
    &&& right_is_backed(pos, Color::BLACK, true)
    &&& right_is_backed(pos, Color::BLACK, false)
}

/// A move that changes the board changes it on the start and end square, on
/// the squares of a castling rook and on the square of a captured piece, and
/// nowhere else.
pub proof fn lemma_move_is_local(pos: Position, m: Move, s: Square)
    requires
        pos.check_move(m) is Ok,
        s != m.start,
        s != m.end,
        pos.captured_square(m) != Some(s),
        !(is_castle_move(m, pos.board[m.start].1, pos.board[m.start].0) && (s == castle_rook_move(
            m.end,
        ).start || s == castle_rook_move(m.end).end)),
    ensures
        pos.after(m).occupied(s) == pos.occupied(s),
        pos.occupied(s) ==> pos.after(m).board[s] == pos.board[s],
{
}

/// A capture takes the piece on the end square off the board and puts the
/// moving piece there: the start square is empty afterwards, the end square
/// holds the mover, and the halfmove clock starts again.
pub proof fn lemma_capture(pos: Position, m: Move)
    requires
        pos.check_move(m) is Ok,
        pos.is_capture(m),
    ensures
        pos.after(m).board[m.end] == pos.board[m.start],
        pos.after(m).occupied(m.end),
        !pos.after(m).occupied(m.start),
        pos.after(m).halfmove_clock == 0,
        pos.after(m).en_passant_square is None,
{
}

/// A pawn that captures en passant removes the pawn one rank behind the
/// square it lands on, not a piece on that square: the landing square was
/// empty and holds the capturing pawn afterwards, the square behind it held
/// a pawn of the other side and is empty afterwards.
pub proof fn lemma_en_passant_capture(pos: Position, m: Move, victim: Square)
    requires
        pos.check_move(m) is Ok,
        pos.en_passant_victim(m) == Some(victim),
    ensures
        victim.file() == m.end.file(),
        victim.rank() == m.end.rank() - forward(pos.board[m.start].0),
        victim != m.end,
        !pos.occupied(m.end),
        pos.holds(victim, pos.board[m.start].0.other(), Piece::PAWN),
        !pos.after(m).occupied(victim),
        !pos.after(m).occupied(m.start),
        pos.after(m).holds(m.end, pos.board[m.start].0, Piece::PAWN),
        pos.after(m).halfmove_clock == 0,
{
    let color = pos.board[m.start].0;
    m.end.lemma_index();
    let rank = m.end.rank() - forward(color);
    assert(square_behind(m.end, color) == Some(victim));
    Square::lemma_every_index(8 * rank + m.end.file());
    assert(victim.index() == 8 * rank + m.end.file());
    assert(victim != m.start);
}

/// Whether `m` moves one piece and at most takes one: it can be applied,
/// and neither it nor its reverse is a castling move.
pub open spec fn is_simple(pos: Position, m: Move) -> bool {
    &&& pos.check_move(m) is Ok
    &&& !is_castle_move(m, pos.board[m.start].1, pos.board[m.start].0)
    &&& !is_castle_move(reversed(m), pos.board[m.start].1, pos.board[m.start].0)
}

/// The board after `m` was applied, the piece was moved back, and the piece
/// that `m` took, if any, was put back on its square.
pub open spec fn undone(pos: Position, m: Move) -> Board {
    let back = pos.after(m).after(reversed(m)).board;
    match pos.captured_square(m) {
        Some(v) => back.insert(v, pos.board[v]),
        None => back,
    }
}

/// Applying a move and then its inverse gives the board from before: the
/// piece can be moved back, and with the captured piece put back on the
/// square it was taken from, be it the end square or the square behind the
/// en-passant target, every square holds what it held.
pub proof fn lemma_move_and_inverse(pos: Position, m: Move)
    requires
        is_simple(pos, m),
    ensures
        pos.after(m).check_move(reversed(m)) is Ok,
        undone(pos, m) == pos.board,
{
}

/// Moving a piece to an empty square and back gives the board from which
/// the piece set out.
pub proof fn lemma_there_and_back(pos: Position, m: Move)
    requires
        is_quiet(pos, m),
    ensures
        pos.after(m).check_move(reversed(m)) is Ok,
        pos.after(m).after(reversed(m)).board == pos.board,
{
}

/// Moving a piece to an empty square and back restores every bitboard, bit
/// for bit.
pub proof fn lemma_there_and_back_bitboards(before: Game, there: Game, back: Game, m: Move)
    requires
        before.wf(),
        there.wf(),
        back.wf(),
        is_quiet(before@, m),
        there@ == before@.after(m),
        back@ == there@.after(reversed(m)),
    ensures
        back.color_bitboards == before.color_bitboards,
        back.piece_bitboards == before.piece_bitboards,
{
    lemma_there_and_back(before@, m);
    Game::lemma_board_decides_bitboards(back, before);
}

proof fn lemma_rights_bits(rights: u8, lost: u8, flag: u8)
    by (bit_vector)
    ensures
        (rights & !lost) & flag != 0 ==> rights & flag != 0,
        (flag == 1 || flag == 2 || flag == 4 || flag == 8) && lost & flag != 0 ==> (rights
            & !lost) & flag == 0,
        3u8 & 1u8 != 0,
        3u8 & 2u8 != 0,
        12u8 & 4u8 != 0,
        12u8 & 8u8 != 0,
        1u8 & 1u8 != 0,
        2u8 & 2u8 != 0,
        4u8 & 4u8 != 0,
        8u8 & 8u8 != 0,
{
}

/// A right that is left after flags were taken away was there before, and
/// its flag was not among those taken away.
proof fn lemma_right_survives(rights: u8, lost: u8, color: Color, kingside: bool)
    requires
        has_right(without_rights(rights, lost), castle_flag(color, kingside)),
    ensures
        has_right(rights, castle_flag(color, kingside)),
        lost & castle_flag(color, kingside) == 0,
{
    let flag = castle_flag(color, kingside);
    lemma_rights_bits(rights, lost, flag);
    if lost == 0 {
        assert(0u8 & flag == 0) by (bit_vector);
    }
}

/// What a piece holds of castling rights for its home square includes every
/// right that needs it there.
proof fn lemma_home_rights_cover(color: Color, kingside: bool)
    ensures
        home_rights(castle_king_home(color), color, Piece::KING) & castle_flag(color, kingside)
            != 0,
        home_rights(castle_rook_home(color, kingside), color, Piece::ROOK) & castle_flag(
            color,
            kingside,
        ) != 0,
{
    lemma_rights_bits(0, 0, 0);
}

proof fn lemma_right_stays_backed(pos: Position, m: Move, color: Color, kingside: bool)
    requires
        pos.check_move(m) is Ok,
        right_is_backed(pos, color, kingside),
    ensures
        right_is_backed(pos.after(m), color, kingside),
{
    let next = pos.after(m);
    let flag = castle_flag(color, kingside);
    if has_right(next.castling_rights, flag) {
        let mover = pos.board[m.start];
        let by_mover = home_rights(m.start, mover.0, mover.1);
        let kept = match pos.captured_square(m) {
            Some(v) => without_rights(
                pos.castling_rights,
                home_rights(v, pos.board[v].0, pos.board[v].1),
            ),
            None => pos.castling_rights,
        };
        lemma_right_survives(kept, by_mover, color, kingside);
        match pos.captured_square(m) {
            Some(v) => {
                lemma_right_survives(
                    pos.castling_rights,
                    home_rights(v, pos.board[v].0, pos.board[v].1),
                    color,
                    kingside,
                );
            },
            None => {},
        }
        // so neither the king nor the rook moved or was captured
        lemma_home_rights_cover(color, kingside);
    }
}

/// Applying a move keeps every castling right that is left backed by its
/// king and rook on their home squares: a right whose king or rook moves
/// away or is captured is given up with that move.
pub proof fn lemma_rights_stay_backed(pos: Position, m: Move)
    requires
        pos.check_move(m) is Ok,
        rights_are_backed(pos),
    ensures
        rights_are_backed(pos.after(m)),
{
    lemma_right_stays_backed(pos, m, Color::WHITE, true);
    lemma_right_stays_backed(pos, m, Color::WHITE, false);
    lemma_right_stays_backed(pos, m, Color::BLACK, true);
    lemma_right_stays_backed(pos, m, Color::BLACK, false);
}

/// After a move the en-passant target is set exactly when the move was a
/// pawn's double step, and then it is the square the pawn passed over.
pub proof fn lemma_en_passant_target(pos: Position, m: Move)
    requires
        pos.check_move(m) is Ok,
    ensures
        pos.after(m).en_passant_square is Some <==> pos.is_double_step(m),
        pos.is_double_step(m) ==> {
            let target = pos.after(m).en_passant_square->0;
            &&& target.file() == m.start.file()
            &&& target.rank() == m.start.rank() + forward(pos.board[m.start].0)
        },
{
}

/// Whether the moves can be applied one after the other, starting from `pos`.
pub open spec fn playable(pos: Position, moves: Seq<Move>) -> bool
    decreases moves.len(),
{
    moves.len() == 0 || (pos.check_move(moves[0]) is Ok && playable(
        pos.after(moves[0]),
        moves.drop_first(),
    ))
}

/// The position after the moves were applied one after the other.
pub open spec fn played(pos: Position, moves: Seq<Move>) -> Position
    decreases moves.len(),
{
    if moves.len() == 0 {
        pos
    } else {
        played(pos.after(moves[0]), moves.drop_first())
    }
}

/// However many moves are applied, the castling rights that are left stay
/// backed by their kings and rooks.
pub proof fn lemma_rights_stay_backed_along(pos: Position, moves: Seq<Move>)
    requires
        rights_are_backed(pos),
        playable(pos, moves),
    ensures
        rights_are_backed(played(pos, moves)),
    decreases moves.len(),
{
    if moves.len() > 0 {
        lemma_rights_stay_backed(pos, moves[0]);
        lemma_rights_stay_backed_along(pos.after(moves[0]), moves.drop_first());
    }
}

/// In the position from which a game starts every castling right is backed.
pub proof fn lemma_start_rights_are_backed()
    ensures
        rights_are_backed(start_position()),
{
}

/// A move that follows the way its piece moves can be applied: the moves
/// that move generation offers are never refused.
pub proof fn lemma_pseudo_legal_applies(pos: Position, m: Move)
    requires
        pos.pseudo_legal(m),
    ensures
        pos.check_move(m) is Ok,
{
    let color = pos.to_move;
    let piece = pos.board[m.start].1;
    assert(!pos.own(color, m.end));
    if is_castle_move(m, piece, color) {
        assert(!king_step(m.start, m.end));
    }
}

} // verus!
