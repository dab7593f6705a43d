//! The geometry of attacks: which squares a piece on one square reaches.
//!
//! Step patterns (knight, king, pawn) are stated over file and rank
//! differences. Sliding attacks are stated ray by ray: a slider reaches the
//! `k`-th square of a ray when that square is on the board and the squares
//! before it are empty. [`rook_rays`] and [`bishop_rays`] compute these sets by
//! walking the rays, and are the reference that table lookups are held to.
use crate::bitboard::Bitboard;
use crate::bits::{bit, lemma_bit_and, lemma_bit_or, lemma_bit_zero, test_bit, with_bit};
use crate::{on_board, Color, Square};
use vstd::prelude::*;

verus! {

/// Distance covered along one axis after `k` steps in direction `d`.
pub open spec fn steps(d: int, k: int) -> int {
    if d > 0 {
        k
    } else if d < 0 {
        -k
    } else {
        0
    }
}

/// One of the eight directions: each component is -1, 0 or 1, not both 0.
pub open spec fn is_direction(df: int, dr: int) -> bool {
    -1 <= df <= 1 && -1 <= dr <= 1 && !(df == 0 && dr == 0)
}

/// File of the `k`-th square of a ray that leaves `from` with file direction `df`.
pub open spec fn ray_file(from: Square, df: int, k: int) -> int {
    from.file() + steps(df, k)
}

/// Rank of the `k`-th square of a ray that leaves `from` with rank direction `dr`.
pub open spec fn ray_rank(from: Square, dr: int, k: int) -> int {
    from.rank() + steps(dr, k)
}

/// Whether the `k`-th square of the ray from `from` in direction `(df, dr)` is
/// on the board.
pub open spec fn ray_on_board(from: Square, df: int, dr: int, k: int) -> bool {
    on_board(ray_file(from, df, k), ray_rank(from, dr, k))
}

/// Number of the `k`-th square of the ray.
pub open spec fn ray_index(from: Square, df: int, dr: int, k: int) -> int {
    8 * ray_rank(from, dr, k) + ray_file(from, df, k)
}

/// The `k`-th square of the ray, where it is on the board.
pub open spec fn ray_square(from: Square, df: int, dr: int, k: int) -> Square {
    Square::at(ray_index(from, df, dr, k))
}

/// Whether the first `k - 1` squares of the ray are empty in `occ`.
pub open spec fn ray_clear(occ: Set<Square>, from: Square, df: int, dr: int, k: int) -> bool {
    forall|j: int| 1 <= j < k ==> !occ.contains(#[trigger] ray_square(from, df, dr, j))
}

/// Whether a slider on `from` moving in direction `(df, dr)` over the
/// occupied squares `occ` reaches `to`: `to` lies on the ray and nothing stands
/// between the two squares. What stands on `to` itself does not matter.
pub open spec fn slides(occ: Set<Square>, from: Square, to: Square, df: int, dr: int) -> bool {
    exists|k: int|
        1 <= k && ray_on_board(from, df, dr, k) && #[trigger] ray_index(from, df, dr, k)
            == to.index() && ray_clear(occ, from, df, dr, k)
}

/// Whether a rook on `from` attacks `to` over the occupancy `occ`.
pub open spec fn rook_reaches(occ: Set<Square>, from: Square, to: Square) -> bool {
    slides(occ, from, to, 1, 0) || slides(occ, from, to, -1, 0) || slides(occ, from, to, 0, 1)
        || slides(occ, from, to, 0, -1)
}

/// Whether a bishop on `from` attacks `to` over the occupancy `occ`.
pub open spec fn bishop_reaches(occ: Set<Square>, from: Square, to: Square) -> bool {
    slides(occ, from, to, 1, 1) || slides(occ, from, to, 1, -1) || slides(occ, from, to, -1, 1)
        || slides(occ, from, to, -1, -1)
}

/// Whether a queen on `from` attacks `to` over the occupancy `occ`.
pub open spec fn queen_reaches(occ: Set<Square>, from: Square, to: Square) -> bool {
    rook_reaches(occ, from, to) || bishop_reaches(occ, from, to)
}

/// Whether `to` lies on the ray from `from` with a further square of the ray
/// behind it. Only such squares can block the ray: the last square of a ray
/// is reached whether or not it is occupied.
pub open spec fn inner_ray_square(from: Square, to: Square, df: int, dr: int) -> bool {
    exists|k: int|
        1 <= k && ray_on_board(from, df, dr, k + 1) && #[trigger] ray_index(from, df, dr, k)
            == to.index()
}

/// The squares whose occupancy decides what a rook on `from` attacks.
pub open spec fn rook_relevant(from: Square, to: Square) -> bool {
    inner_ray_square(from, to, 1, 0) || inner_ray_square(from, to, -1, 0) || inner_ray_square(
        from,
        to,
        0,
        1,
    ) || inner_ray_square(from, to, 0, -1)
}

/// The squares whose occupancy decides what a bishop on `from` attacks.
pub open spec fn bishop_relevant(from: Square, to: Square) -> bool {
    inner_ray_square(from, to, 1, 1) || inner_ray_square(from, to, 1, -1) || inner_ray_square(
        from,
        to,
        -1,
        1,
    ) || inner_ray_square(from, to, -1, -1)
}

/// A knight's step: one file and two ranks away, or two files and one rank.
pub open spec fn knight_step(from: Square, to: Square) -> bool {
    let df = to.file() - from.file();
    let dr = to.rank() - from.rank();
    ((df == 1 || df == -1) && (dr == 2 || dr == -2)) || ((df == 2 || df == -2) && (dr == 1 || dr
        == -1))
}

/// A king's step: a different square at most one file and one rank away.
pub open spec fn king_step(from: Square, to: Square) -> bool {
    let df = to.file() - from.file();
    let dr = to.rank() - from.rank();
    -1 <= df <= 1 && -1 <= dr <= 1 && !(df == 0 && dr == 0)
}

/// The rank direction in which pawns of a color advance.
pub open spec fn forward(color: Color) -> int {
    match color {
        Color::WHITE => 1,
        Color::BLACK => -1,
    }
}

/// Whether a pawn of `color` on `from` attacks `to`: one rank forward and one
/// file to either side.
pub open spec fn pawn_attack_step(color: Color, from: Square, to: Square) -> bool {
    let df = to.file() - from.file();
    (df == 1 || df == -1) && to.rank() - from.rank() == forward(color)
}

/// The square is determined by its file and rank.
pub proof fn lemma_square_by_coordinates(a: Square, b: Square)
    requires
        a.file() == b.file(),
        a.rank() == b.rank(),
    ensures
        a == b,
{
    Square::lemma_index_injective(a, b);
}

/// The squares that a slider on `from` reaches in one direction.
fn cast_ray(occ: u64, from: Square, df: i8, dr: i8) -> (r: u64)
    requires
        is_direction(df as int, dr as int),
    ensures
        forall|t: Square|
            #![trigger bit(r, t.index())]
            #![trigger slides(Bitboard(occ)@, from, t, df as int, dr as int)]
            bit(r, t.index()) <==> slides(Bitboard(occ)@, from, t, df as int, dr as int),
{
    let index: u8 = from.to_u8();
    let mut acc: u64 = 0;
    let mut f: i8 = (index % 8) as i8 + df;
    let mut r: i8 = (index / 8) as i8 + dr;
    let mut blocked = false;
    let ghost mut k: int = 1;
    proof {
        lemma_bit_zero();
    }
    while !blocked && 0 <= f && f < 8 && 0 <= r && r < 8
        invariant
            is_direction(df as int, dr as int),
            1 <= k <= 8,
            f == ray_file(from, df as int, k),
            r == ray_rank(from, dr as int, k),
            forall|j: int| 1 <= j < k ==> ray_on_board(from, df as int, dr as int, j),
            forall|j: int|
                1 <= j < k ==> bit(acc, #[trigger] ray_index(from, df as int, dr as int, j)),
            forall|i: int|
                bit(acc, i) ==> exists|j: int|
                    1 <= j < k && #[trigger] ray_index(from, df as int, dr as int, j) == i,
            !blocked ==> ray_clear(Bitboard(occ)@, from, df as int, dr as int, k),
            blocked ==> k >= 2 && ray_clear(Bitboard(occ)@, from, df as int, dr as int, k - 1)
                && Bitboard(occ)@.contains(ray_square(from, df as int, dr as int, k - 1)),
        decreases 8 - k, if blocked { 0int } else { 1int },
    {
        let i: u8 = (8 * r + f) as u8;
        acc = with_bit(acc, i);
        if test_bit(occ, i) {
            blocked = true;
        }
        f = f + df;
        r = r + dr;
        proof {
            k = k + 1;
        }
    }
    acc
}

/// The squares of one ray that have a further square of the ray behind them.
fn inner_ray(from: Square, df: i8, dr: i8) -> (r: u64)
    requires
        is_direction(df as int, dr as int),
    ensures
        forall|t: Square|
            #![trigger bit(r, t.index())]
            #![trigger inner_ray_square(from, t, df as int, dr as int)]
            bit(r, t.index()) <==> inner_ray_square(from, t, df as int, dr as int),
{
    let index: u8 = from.to_u8();
    let mut acc: u64 = 0;
    let mut f: i8 = (index % 8) as i8 + df;
    let mut r: i8 = (index / 8) as i8 + dr;
    let ghost mut k: int = 1;
    proof {
        lemma_bit_zero();
    }
    while 0 <= f + df && f + df < 8 && 0 <= r + dr && r + dr < 8
        invariant
            is_direction(df as int, dr as int),
            1 <= k <= 8,
            -1 <= f <= 8,
            -1 <= r <= 8,
            f == ray_file(from, df as int, k),
            r == ray_rank(from, dr as int, k),
            forall|j: int| 2 <= j <= k ==> ray_on_board(from, df as int, dr as int, j),
            forall|j: int|
                1 <= j < k ==> bit(acc, #[trigger] ray_index(from, df as int, dr as int, j)),
            forall|i: int|
                bit(acc, i) ==> exists|j: int|
                    1 <= j < k && #[trigger] ray_index(from, df as int, dr as int, j) == i,
        decreases 8 - k,
    {
        let i: u8 = (8 * r + f) as u8;
        proof {
            assert(i == ray_index(from, df as int, dr as int, k));
        }
        acc = with_bit(acc, i);
        f = f + df;
        r = r + dr;
        proof {
            k = k + 1;
        }
    }
    acc
}

/// The squares that a rook on `from` attacks over the occupancy `occ`, found
/// by walking its four rays.
pub fn rook_rays(from: Square, occ: u64) -> (r: Bitboard)
    ensures
        forall|t: Square|
            #![trigger r.has(t)]
            #![trigger rook_reaches(Bitboard(occ)@, from, t)]
            r.has(t) <==> rook_reaches(Bitboard(occ)@, from, t),
{
    let a = cast_ray(occ, from, 1, 0);
    let b = cast_ray(occ, from, -1, 0);
    let c = cast_ray(occ, from, 0, 1);
    let d = cast_ray(occ, from, 0, -1);
    proof {
        lemma_bit_or(a, b);
        lemma_bit_or(a | b, c);
        lemma_bit_or(a | b | c, d);
    }
    Bitboard(a | b | c | d)
}

/// The squares that a bishop on `from` attacks over the occupancy `occ`,
/// found by walking its four rays.
pub fn bishop_rays(from: Square, occ: u64) -> (r: Bitboard)
    ensures
        forall|t: Square|
            #![trigger r.has(t)]
            #![trigger bishop_reaches(Bitboard(occ)@, from, t)]
            r.has(t) <==> bishop_reaches(Bitboard(occ)@, from, t),
{
    let a = cast_ray(occ, from, 1, 1);
    let b = cast_ray(occ, from, 1, -1);
    let c = cast_ray(occ, from, -1, 1);
    let d = cast_ray(occ, from, -1, -1);
    proof {
        lemma_bit_or(a, b);
        lemma_bit_or(a | b, c);
        lemma_bit_or(a | b | c, d);
    }
    Bitboard(a | b | c | d)
}

/// The squares whose occupancy decides a rook's attacks from `from`.
pub fn rook_mask(from: Square) -> (r: Bitboard)
    ensures
        forall|t: Square|
            #![trigger r.has(t)]
            #![trigger rook_relevant(from, t)]
            r.has(t) <==> rook_relevant(from, t),
{
    let a = inner_ray(from, 1, 0);
    let b = inner_ray(from, -1, 0);
    let c = inner_ray(from, 0, 1);
    let d = inner_ray(from, 0, -1);
    proof {
        lemma_bit_or(a, b);
        lemma_bit_or(a | b, c);
        lemma_bit_or(a | b | c, d);
    }
    Bitboard(a | b | c | d)
}

/// The squares whose occupancy decides a bishop's attacks from `from`.
pub fn bishop_mask(from: Square) -> (r: Bitboard)
    ensures
        forall|t: Square|
            #![trigger r.has(t)]
            #![trigger bishop_relevant(from, t)]
            r.has(t) <==> bishop_relevant(from, t),
{
    let a = inner_ray(from, 1, 1);
    let b = inner_ray(from, 1, -1);
    let c = inner_ray(from, -1, 1);
    let d = inner_ray(from, -1, -1);
    proof {
        lemma_bit_or(a, b);
        lemma_bit_or(a | b, c);
        lemma_bit_or(a | b | c, d);
    }
    Bitboard(a | b | c | d)
}

/// Occupancy off the inner squares of a ray does not change what the ray
/// reaches.
pub proof fn lemma_slides_masked(
    occ: u64,
    mask: u64,
    from: Square,
    to: Square,
    df: int,
    dr: int,
)
    requires
        is_direction(df, dr),
        forall|t: Square|
            #![trigger bit(mask, t.index())]
            #![trigger inner_ray_square(from, t, df, dr)]
            inner_ray_square(from, t, df, dr) ==> bit(mask, t.index()),
    ensures
        slides(Bitboard(occ & mask)@, from, to, df, dr) == slides(Bitboard(occ)@, from, to, df, dr),
{
    let full = Bitboard(occ)@;
    let cut = Bitboard(occ & mask)@;
    lemma_bit_and(occ, mask);
    from.lemma_index();
    assert forall|k: int| 1 <= k && ray_on_board(from, df, dr, k) implies ray_clear(
        cut,
        from,
        df,
        dr,
        k,
    ) == ray_clear(full, from, df, dr, k) by {
        assert forall|j: int| 1 <= j < k implies cut.contains(
            #[trigger] ray_square(from, df, dr, j),
        ) == full.contains(ray_square(from, df, dr, j)) by {
            assert(ray_on_board(from, df, dr, j + 1));
            let i = ray_index(from, df, dr, j);
            assert(ray_on_board(from, df, dr, j));
            Square::lemma_every_index(i);
            let t = Square::at(i);
            assert(inner_ray_square(from, t, df, dr));
            assert(bit(occ & mask, t.index()) == (bit(occ, t.index()) && bit(mask, t.index())));
        }
    }
    if slides(cut, from, to, df, dr) {
        let k = choose|k: int|
            1 <= k && ray_on_board(from, df, dr, k) && #[trigger] ray_index(from, df, dr, k)
                == to.index() && ray_clear(cut, from, df, dr, k);
        assert(ray_clear(full, from, df, dr, k));
    }
    if slides(full, from, to, df, dr) {
        let k = choose|k: int|
            1 <= k && ray_on_board(from, df, dr, k) && #[trigger] ray_index(from, df, dr, k)
                == to.index() && ray_clear(full, from, df, dr, k);
        assert(ray_clear(cut, from, df, dr, k));
    }
}

/// A rook's attacks depend on the occupancy of its relevant squares alone.
pub proof fn lemma_rook_masked(occ: u64, mask: u64, from: Square, to: Square)
    requires
        forall|t: Square|
            #![trigger bit(mask, t.index())]
            #![trigger rook_relevant(from, t)]
            rook_relevant(from, t) ==> bit(mask, t.index()),
    ensures
        rook_reaches(Bitboard(occ & mask)@, from, to) == rook_reaches(Bitboard(occ)@, from, to),
{
    lemma_slides_masked(occ, mask, from, to, 1, 0);
    lemma_slides_masked(occ, mask, from, to, -1, 0);
    lemma_slides_masked(occ, mask, from, to, 0, 1);
    lemma_slides_masked(occ, mask, from, to, 0, -1);
}

/// A bishop's attacks depend on the occupancy of its relevant squares alone.
pub proof fn lemma_bishop_masked(occ: u64, mask: u64, from: Square, to: Square)
    requires
        forall|t: Square|
            #![trigger bit(mask, t.index())]
            #![trigger bishop_relevant(from, t)]
            bishop_relevant(from, t) ==> bit(mask, t.index()),
    ensures
        bishop_reaches(Bitboard(occ & mask)@, from, to) == bishop_reaches(Bitboard(occ)@, from, to),
{
    lemma_slides_masked(occ, mask, from, to, 1, 1);
    lemma_slides_masked(occ, mask, from, to, 1, -1);
    lemma_slides_masked(occ, mask, from, to, -1, 1);
    lemma_slides_masked(occ, mask, from, to, -1, -1);
}

/// A ray that reaches `to` from `from` reaches `from` from `to` when walked
/// backwards: the same squares lie between.
pub proof fn lemma_slides_back(occ: Set<Square>, from: Square, to: Square, df: int, dr: int)
    requires
        is_direction(df, dr),
        slides(occ, from, to, df, dr),
    ensures
        slides(occ, to, from, -df, -dr),
{
    let k = choose|k: int|
        1 <= k && ray_on_board(from, df, dr, k) && #[trigger] ray_index(from, df, dr, k)
            == to.index() && ray_clear(occ, from, df, dr, k);
    assert(to.file() == ray_file(from, df, k) && to.rank() == ray_rank(from, dr, k));
    assert forall|j: int| 1 <= j < k implies !occ.contains(
        #[trigger] ray_square(to, -df, -dr, j),
    ) by {
        assert(!occ.contains(ray_square(from, df, dr, k - j)));
    }
    assert(ray_index(to, -df, -dr, k) == from.index());
}

/// Rooks attack along lines that can be walked both ways.
pub proof fn lemma_rook_symmetric(occ: Set<Square>, a: Square, b: Square)
    ensures
        rook_reaches(occ, a, b) == rook_reaches(occ, b, a),
{
    if slides(occ, a, b, 1, 0) {
        lemma_slides_back(occ, a, b, 1, 0);
    }
    if slides(occ, a, b, -1, 0) {
        lemma_slides_back(occ, a, b, -1, 0);
    }
    if slides(occ, a, b, 0, 1) {
        lemma_slides_back(occ, a, b, 0, 1);
    }
    if slides(occ, a, b, 0, -1) {
        lemma_slides_back(occ, a, b, 0, -1);
    }
    if slides(occ, b, a, 1, 0) {
        lemma_slides_back(occ, b, a, 1, 0);
    }
    if slides(occ, b, a, -1, 0) {
        lemma_slides_back(occ, b, a, -1, 0);
    }
    if slides(occ, b, a, 0, 1) {
        lemma_slides_back(occ, b, a, 0, 1);
    }
    if slides(occ, b, a, 0, -1) {
        lemma_slides_back(occ, b, a, 0, -1);
    }
}

/// Bishops attack along lines that can be walked both ways.
pub proof fn lemma_bishop_symmetric(occ: Set<Square>, a: Square, b: Square)
    ensures
        bishop_reaches(occ, a, b) == bishop_reaches(occ, b, a),
{
    if slides(occ, a, b, 1, 1) {
        lemma_slides_back(occ, a, b, 1, 1);
    }
    if slides(occ, a, b, 1, -1) {
        lemma_slides_back(occ, a, b, 1, -1);
    }
    if slides(occ, a, b, -1, 1) {
        lemma_slides_back(occ, a, b, -1, 1);
    }
    if slides(occ, a, b, -1, -1) {
        lemma_slides_back(occ, a, b, -1, -1);
    }
    if slides(occ, b, a, 1, 1) {
        lemma_slides_back(occ, b, a, 1, 1);
    }
    if slides(occ, b, a, 1, -1) {
        lemma_slides_back(occ, b, a, 1, -1);
    }
    if slides(occ, b, a, -1, 1) {
        lemma_slides_back(occ, b, a, -1, 1);
    }
    if slides(occ, b, a, -1, -1) {
        lemma_slides_back(occ, b, a, -1, -1);
    }
}

} // verus!
