//! Sliding-attack tables indexed by a multiplicative hash of the blockers.
//!
//! For each square the table holds a block of attack sets. The occupancy is
//! cut down to the squares that can block a slider there, multiplied by the
//! square's multiplier, and the top bits of the product pick the slot.
//! [`MagicTables::new`] fills the blocks by walking the rays for every set of
//! blockers and refuses multipliers that send two sets of blockers with
//! different attacks to one slot, so a table that exists always answers as
//! the ray walk does.
use crate::attacks::{
    bishop_mask, bishop_rays, bishop_reaches, bishop_relevant, lemma_bishop_masked,
    lemma_rook_masked, rook_mask, rook_rays, rook_reaches, rook_relevant,
};
use crate::bitboard::Bitboard;
use crate::bits::{bit, lemma_bits_equal};
use crate::movegen::magic_index;
use crate::{MagicTableEntry, Square};
use vstd::prelude::*;

verus! {

/// Multipliers for the rook table, one per square from a1 to h8.
pub const ROOK_MAGICS: [u64; 64] = [
    0x008004d08020c000,
    0x5080104020008008,
    0x0a00046020085200,
    0x0a00081022420002,
    0x5028060040201820,
    0x0024000080010200,
    0x0020104201060180,
    0x02000c0020410882,
    0x0004004102008400,
    0x6040240041810c00,
    0xa004080850400400,
    0x0240140880020040,
    0x0a00800248000104,
    0x0502000200041001,
    0x02828000c0004002,
    0x0004101001000aa0,
    0xb08000402000400a,
    0x20a0011004000808,
    0x2200082002042060,
    0x1200020400043200,
    0x0804002800204200,
    0xc200024860480080,
    0x5000004009018332,
    0x2840012000500880,
    0x4400204240020078,
    0x004210000402a100,
    0x40a20820200020ce,
    0xb0008402000844a0,
    0x8808040420800110,
    0x0002038200008a00,
    0x4000a00880104a01,
    0x0c041008008a3104,
    0x1801120418008805,
    0x1002214040041100,
    0x0024010200080400,
    0x2401280002100010,
    0x2692002040044120,
    0x0030040001084010,
    0x7450dd0421800048,
    0x0201008840100220,
    0x0102804000138015,
    0xc120080ac0000800,
    0x08000ca060021001,
    0x0000341811002020,
    0x0800040200460800,
    0x0098008024010808,
    0x2080021080840001,
    0x0000004400200910,
    0x2804a4003241c0a0,
    0x0140000800100020,
    0x0000040008180020,
    0x6400021080480280,
    0x00080002940012c0,
    0x9410108036000320,
    0x2040010a18400098,
    0x0001040830800040,
    0x3180204100800013,
    0x043041120085010a,
    0x11c2001050046822,
    0x004422004102040e,
    0x0406020001218952,
    0x0406000800811002,
    0x2806142082110244,
    0x0001000480320041,
];

/// Multipliers for the bishop table, one per square from a1 to h8.
pub const BISHOP_MAGICS: [u64; 64] = [
    0x1112101021000820,
    0x0080a08220920280,
    0x00820420420000c0,
    0x0004a00409200a08,
    0x0000141002205700,
    0x0000082404100540,
    0x0018471000422840,
    0x088a008401205020,
    0x0000404401042008,
    0x001044224c008020,
    0x0c60088910282024,
    0x080000c204800100,
    0x0808252040000004,
    0x0000050829040000,
    0x0900410240424040,
    0x0c400240ca004508,
    0x2004100820088022,
    0x1105180150211080,
    0x2048020200180460,
    0x1000802400484018,
    0x0e32204400200110,
    0x0801000122804014,
    0x200312802200120a,
    0xa04a080260084800,
    0x0020a81202008090,
    0x0068814820408200,
    0x386040244801c050,
    0x10a2002202008200,
    0x0801001061004001,
    0x0704020c01202024,
    0x1284010000188048,
    0x0051200804140130,
    0x00019010c4404040,
    0x0006622000020810,
    0x0080041008008080,
    0x4000400808048200,
    0x8040004010410100,
    0x90300404a8001082,
    0x0004084088001008,
    0x1600101108020110,
    0x0080820108825822,
    0x4000222064809008,
    0x2980040481e0d000,
    0x4941002008021442,
    0x8010200a085004a0,
    0x06c0080908a4a00a,
    0x9401085058690490,
    0x0001004809040202,
    0x00000800501c0108,
    0x4000350044018008,
    0x00112a0500220000,
    0x1010000504280210,
    0x100020041a002081,
    0x0001128041010080,
    0x0010060020401000,
    0x0080840110520000,
    0x8800801841100200,
    0x0100202010500400,
    0x4801080220200810,
    0x000a00900020a008,
    0x0020400030020090,
    0x8008048081020221,
    0x805001c808480040,
    0x2000500481200820,
];

/// Rook blocks have 4096 slots: the product is shifted right by 52 bits.
pub const ROOK_SHIFT: u8 = 52;

/// Bishop blocks have 512 slots: the product is shifted right by 55 bits.
pub const BISHOP_SHIFT: u8 = 55;

/// Which of the two sliding tables is meant.
#[derive(Debug, Clone, Copy, PartialEq, Eq, Structural)]
pub enum Slider {
    Rook,
    Bishop,
}

impl Slider {
    /// Whether this slider on `from` attacks `to` over the occupancy `occ`.
    pub open spec fn reaches(self, occ: Set<Square>, from: Square, to: Square) -> bool {
        match self {
            Slider::Rook => rook_reaches(occ, from, to),
            Slider::Bishop => bishop_reaches(occ, from, to),
        }
    }

    /// Whether the occupancy of `to` can change what this slider attacks
    /// from `from`.
    pub open spec fn relevant(self, from: Square, to: Square) -> bool {
        match self {
            Slider::Rook => rook_relevant(from, to),
            Slider::Bishop => bishop_relevant(from, to),
        }
    }

    /// The shift that cuts the hash of this slider down to a slot.
    pub open spec fn shift(self) -> u8 {
        match self {
            Slider::Rook => ROOK_SHIFT,
            Slider::Bishop => BISHOP_SHIFT,
        }
    }

    /// Number of slots in the block of one square.
    pub open spec fn block(self) -> int {
        match self {
            Slider::Rook => 4096,
            Slider::Bishop => 512,
        }
    }

    /// Whether `v` is the set of squares this slider attacks from `from`
    /// over the occupancy `occ`.
    pub open spec fn is_attack_set(self, v: u64, from: Square, occ: u64) -> bool {
        forall|t: Square|
            #![trigger bit(v, t.index())]
            #![trigger self.reaches(Bitboard(occ)@, from, t)]
            bit(v, t.index()) <==> self.reaches(Bitboard(occ)@, from, t)
    }

    /// Whether `mask` holds exactly the squares that can block this slider on
    /// `from`.
    pub open spec fn is_mask(self, mask: u64, from: Square) -> bool {
        forall|t: Square|
            #![trigger bit(mask, t.index())]
            #![trigger self.relevant(from, t)]
            bit(mask, t.index()) <==> self.relevant(from, t)
    }

    /// Whether `entry` is the record of `from` in a table built with
    /// `magic`: the mask of the square, the multiplier, the shift of the
    /// slider and the block that starts at the square's number times the
    /// block size.
    pub open spec fn is_entry(self, entry: MagicTableEntry, from: Square, magic: u64) -> bool {
        &&& self.is_mask(entry.mask, from)
        &&& entry.magic == magic
        &&& entry.shift == self.shift()
        &&& entry.offset == from.index() * self.block()
    }

    /// Whether the hash of `entry` tells apart all sets of blockers that give
    /// this slider different attacks from `from`.
    pub open spec fn collision_free(self, entry: MagicTableEntry, from: Square) -> bool {
        forall|a: u64, b: u64|
            a & !entry.mask == 0 && b & !entry.mask == 0 && #[trigger] entry.slot(a)
                == #[trigger] entry.slot(b) ==> forall|t: Square|
                self.reaches(Bitboard(a)@, from, t) == self.reaches(Bitboard(b)@, from, t)
    }

    /// Whether `moves` answers every lookup through `entry` with the attacks
    /// of this slider from `from`.
    pub open spec fn block_correct(self, moves: Seq<u64>, entry: MagicTableEntry, from: Square) -> bool {
        forall|occ: u64|
            0 <= #[trigger] entry.slot(occ) < moves.len() && self.is_attack_set(
                moves[entry.slot(occ)],
                from,
                occ,
            )
    }

    /// Whether `entries` and `moves` form a complete table for this slider.
    pub open spec fn table_correct(self, entries: Seq<MagicTableEntry>, moves: Seq<u64>) -> bool {
        &&& entries.len() == 64
        &&& forall|s: Square|
            {
                let e = #[trigger] entries[s.index()];
                &&& e.wf()
                &&& self.is_mask(e.mask, s)
                &&& self.block_correct(moves, e, s)
            }
    }

    fn rays(self, from: Square, occ: u64) -> (r: Bitboard)
        ensures
            self.is_attack_set(r.0, from, occ),
    {
        match self {
            Slider::Rook => rook_rays(from, occ),
            Slider::Bishop => bishop_rays(from, occ),
        }
    }

    fn mask(self, from: Square) -> (r: Bitboard)
        ensures
            self.is_mask(r.0, from),
    {
        match self {
            Slider::Rook => rook_mask(from),
            Slider::Bishop => bishop_mask(from),
        }
    }

    /// An attack set for the blockers inside the mask is the attack set for
    /// any occupancy with those blockers.
    proof fn lemma_masked(self, v: u64, from: Square, occ: u64, mask: u64)
        requires
            self.is_mask(mask, from),
            self.is_attack_set(v, from, occ & mask),
        ensures
            self.is_attack_set(v, from, occ),
    {
        assert forall|t: Square| bit(v, t.index()) <==> self.reaches(Bitboard(occ)@, from, t) by {
            match self {
                Slider::Rook => lemma_rook_masked(occ, mask, from, t),
                Slider::Bishop => lemma_bishop_masked(occ, mask, from, t),
            }
        }
    }

    /// Two attack sets of the same attacks are the same pattern.
    proof fn lemma_attack_set_unique(self, v: u64, w: u64, from: Square, a: u64, b: u64)
        requires
            self.is_attack_set(v, from, a),
            self.is_attack_set(w, from, b),
            forall|t: Square|
                self.reaches(Bitboard(a)@, from, t) == self.reaches(Bitboard(b)@, from, t),
        ensures
            v == w,
    {
        assert forall|i: int| 0 <= i < 64 implies bit(v, i) == bit(w, i) by {
            Square::lemma_every_index(i);
            let t = Square::at(i);
            assert(bit(v, t.index()) == self.reaches(Bitboard(a)@, from, t));
        }
        lemma_bits_equal(v, w);
    }
}

impl MagicTableEntry {
    /// The slot can be computed without overflow: the shift is a shift of a
    /// 64-bit value and the last slot the record can name fits the machine.
    pub open spec fn wf(self) -> bool {
        self.shift < 64 && self.offset + (0xffff_ffff_ffff_ffffu64 >> self.shift) <= usize::MAX
    }

    /// The slot of the flat table that holds the answer for the occupancy
    /// `occ`: the blockers inside the mask, times the multiplier modulo
    /// 2^64, shifted right, plus the start of the block.
    pub open spec fn slot(self, occ: u64) -> int {
        self.offset + ((occ & self.mask).wrapping_mul(self.magic) >> self.shift)
    }
}

proof fn lemma_shifted_bounds(h: u64)
    ensures
        h >> ROOK_SHIFT < 4096,
        h >> BISHOP_SHIFT < 512,
        0xffff_ffff_ffff_ffffu64 >> ROOK_SHIFT == 4095,
        0xffff_ffff_ffff_ffffu64 >> BISHOP_SHIFT == 511,
{
    assert(h >> 52u8 < 4096 && h >> 55u8 < 512) by (bit_vector);
    assert(0xffff_ffff_ffff_ffffu64 >> 52u8 == 4095 && 0xffff_ffff_ffff_ffffu64 >> 55u8 == 511)
        by (bit_vector);
}

/// Facts about walking the subsets of a mask in rising order: from a subset
/// `s`, the next one is `((s | !m) + 1) & m`, and no subset lies between.
proof fn lemma_next_subset(s: u64, t: u64, m: u64)
    requires
        s & !m == 0,
        t & !m == 0,
    ensures
        (s | !m) == 0xffff_ffff_ffff_ffffu64 ==> s == m,
        t <= m,
        (t & m) & !m == 0,
        (s | !m) != 0xffff_ffff_ffff_ffffu64 ==> {
            let n = (((s | !m) + 1) as u64) & m;
            &&& n & !m == 0
            &&& s < n
            &&& s < t ==> n <= t
        },
{
    assert(s & !m == 0 && (s | !m) == 0xffff_ffff_ffff_ffffu64 ==> s == m) by (bit_vector);
    assert(t & !m == 0 ==> t <= m) by (bit_vector);
    assert((t & m) & !m == 0) by (bit_vector);
    assert(s & !m == 0 && t & !m == 0 && (s | !m) != 0xffff_ffff_ffff_ffffu64 ==> ({
        let n = (((s | !m) + 1) as u64) & m;
        n & !m == 0 && s < n && (s < t ==> n <= t)
    })) by (bit_vector);
}

proof fn lemma_masked_subset(occ: u64, m: u64)
    ensures
        (occ & m) & !m == 0,
        (occ & m) & m == occ & m,
{
    assert((occ & m) & !m == 0 && (occ & m) & m == occ & m) by (bit_vector);
}

/// Fills the block of one square: for every set of blockers inside the mask
/// the slot it hashes to receives the attacks found by walking the rays.
/// Stops with `false` when a slot is asked to hold two different answers.
fn fill_block(moves: &mut Vec<u64>, entry: &MagicTableEntry, from: Square, slider: Slider) -> (ok:
    bool)
    requires
        entry.wf(),
        slider.is_mask(entry.mask, from),
        entry.shift == slider.shift(),
        entry.offset + slider.block() <= old(moves).len(),
    ensures
        final(moves).len() == old(moves).len(),
        forall|i: int|
            0 <= i < old(moves).len() && !(entry.offset <= i < entry.offset + slider.block())
                ==> final(moves)[i] == old(moves)[i],
        ok == slider.collision_free(*entry, from),
        ok ==> slider.block_correct(final(moves)@, *entry, from),
{
    let block: usize = match slider {
        Slider::Rook => 4096,
        Slider::Bishop => 512,
    };
    let mask: u64 = entry.mask;
    let mut used: Vec<bool> = vec![false; block];
    let ghost mut filler: Seq<u64> = Seq::new(block as nat, |i: int| 0u64);
    let mut sub: u64 = 0;
    let mut done = false;
    proof {
        assert(0u64 & !mask == 0) by (bit_vector);
    }
    while !done
        invariant
            entry.wf(),
            slider.is_mask(entry.mask, from),
            entry.shift == slider.shift(),
            mask == entry.mask,
            block == slider.block(),
            moves.len() == old(moves).len(),
            entry.offset + block <= moves.len(),
            used.len() == block,
            filler.len() == block,
            sub & !mask == 0,
            forall|i: int|
                0 <= i < moves.len() && !(entry.offset <= i < entry.offset + block) ==> moves[i]
                    == old(moves)[i],
            forall|i: int|
                0 <= i < block && used[i] ==> {
                    &&& (#[trigger] filler[i]) & !mask == 0
                    &&& entry.slot(filler[i]) == entry.offset + i
                    &&& slider.is_attack_set(moves[entry.offset + i], from, filler[i])
                },
            forall|t: u64|
                t & !mask == 0 && (done || t < sub) ==> {
                    &&& entry.offset <= #[trigger] entry.slot(t) < entry.offset + block
                    &&& used[entry.slot(t) - entry.offset]
                    &&& slider.is_attack_set(moves[entry.slot(t)], from, t)
                },
        decreases mask - sub, if done { 0int } else { 1int },
    {
        proof {
            lemma_shifted_bounds((sub & mask).wrapping_mul(entry.magic));
        }
        let idx: usize = magic_index(entry, Bitboard(sub));
        let local: usize = idx - entry.offset as usize;
        let att: u64 = slider.rays(from, sub).0;
        if used[local] {
            if moves[idx] != att {
                proof {
                    let other = filler[local as int];
                    if slider.collision_free(*entry, from) {
                        slider.lemma_attack_set_unique(moves[idx as int], att, from, other, sub);
                    }
                }
                return false;
            }
        } else {
            moves.set(idx, att);
            used.set(local, true);
            proof {
                filler = filler.update(local as int, sub);
            }
        }
        let top: u64 = sub | !mask;
        let ghost prev = sub;
        proof {
            assert forall|t: u64| t & !mask == 0 implies t <= mask && (prev < t && top
                != 0xffff_ffff_ffff_ffffu64 ==> ((((prev | !mask) + 1) as u64) & mask) <= t) by {
                lemma_next_subset(prev, t, mask);
            }
            lemma_next_subset(prev, prev, mask);
        }
        if top == 0xffff_ffff_ffff_ffffu64 {
            done = true;
        } else {
            sub = (top + 1) & mask;
        }
    }
    proof {
        assert forall|occ: u64|
            0 <= #[trigger] entry.slot(occ) < moves.len() && slider.is_attack_set(
                moves[entry.slot(occ)],
                from,
                occ,
            ) by {
            let t = occ & mask;
            lemma_masked_subset(occ, mask);
            assert(entry.slot(t) == entry.slot(occ));
            slider.lemma_masked(moves[entry.slot(occ)], from, occ, mask);
        }
    }
    true
}

/// The record that [`MagicTables::new`] builds for a square: the mask found
/// by walking the rays, the given multiplier, the slider's shift and the
/// block that starts at the square's number times the block size.
fn make_entry(slider: Slider, from: Square, magic: u64) -> (entry: MagicTableEntry)
    ensures
        entry.wf(),
        slider.is_entry(entry, from, magic),
{
    proof {
        lemma_shifted_bounds(0);
    }
    let index: u32 = from.to_u8() as u32;
    match slider {
        Slider::Rook => MagicTableEntry {
            mask: slider.mask(from).0,
            magic,
            shift: ROOK_SHIFT,
            offset: index * 4096,
        },
        Slider::Bishop => MagicTableEntry {
            mask: slider.mask(from).0,
            magic,
            shift: BISHOP_SHIFT,
            offset: index * 512,
        },
    }
}

/// Builds the records and the flat table of one slider, or `None` when the
/// multiplier of some square is not collision free.
fn build_table(slider: Slider, magics: &[u64; 64]) -> (r: Option<(Vec<MagicTableEntry>, Vec<u64>)>)
    ensures
        match r {
            Some((entries, moves)) => {
                &&& slider.table_correct(entries@, moves@)
                &&& forall|s: Square|
                    slider.is_entry(#[trigger] entries@[s.index()], s, magics[s.index()])
            },
            None => exists|s: Square, e: MagicTableEntry|
                slider.is_entry(e, s, magics[s.index()]) && !slider.collision_free(e, s),
        },
        r is Some <==> forall|s: Square, e: MagicTableEntry|
            slider.is_entry(e, s, magics[s.index()]) ==> slider.collision_free(e, s),
{
    let block: usize = match slider {
        Slider::Rook => 4096,
        Slider::Bishop => 512,
    };
    let mut moves: Vec<u64> = vec![0u64; 64 * block];
    let mut entries: Vec<MagicTableEntry> = Vec::new();
    let mut i: u8 = 0;
    while i < 64
        invariant
            i <= 64,
            block == slider.block(),
            moves.len() == 64 * block,
            entries.len() == i,
            forall|s: Square|
                s.index() < i ==> {
                    let e = #[trigger] entries@[s.index()];
                    &&& e.wf()
                    &&& slider.is_entry(e, s, magics[s.index()])
                    &&& slider.collision_free(e, s)
                    &&& slider.block_correct(moves@, e, s)
                },
        decreases 64 - i,
    {
        let from = Square::from_u8(i);
        let entry = make_entry(slider, from, magics[i as usize]);
        let ok = fill_block(&mut moves, &entry, from, slider);
        if !ok {
            return None;
        }
        entries.push(entry);
        proof {
            assert forall|s: Square| s.index() < i + 1 implies {
                let e = #[trigger] entries@[s.index()];
                &&& e.wf()
                &&& slider.is_entry(e, s, magics[s.index()])
                &&& slider.collision_free(e, s)
                &&& slider.block_correct(moves@, e, s)
            } by {
                if s.index() < i {
                    let e = entries@[s.index()];
                    assert forall|occ: u64|
                        0 <= #[trigger] e.slot(occ) < moves@.len() && slider.is_attack_set(
                            moves@[e.slot(occ)],
                            s,
                            occ,
                        ) by {
                        lemma_shifted_bounds((occ & e.mask).wrapping_mul(e.magic));
                    }
                }
            }
        }
        i += 1;
    }
    proof {
        assert forall|s: Square, e: MagicTableEntry|
            slider.is_entry(e, s, magics[s.index()]) implies slider.collision_free(e, s) by {
            let known = entries@[s.index()];
            assert forall|j: int| 0 <= j < 64 implies bit(e.mask, j) == bit(known.mask, j) by {
                Square::lemma_every_index(j);
            }
            lemma_bits_equal(e.mask, known.mask);
        }
    }
    Some((entries, moves))
}

/// The sliding-attack tables of rooks and bishops. A value of this type
/// answers every lookup with the squares that the slider attacks.
pub struct MagicTables {
    rook_magics: Vec<MagicTableEntry>,
    bishop_magics: Vec<MagicTableEntry>,
    rook_moves: Vec<u64>,
    bishop_moves: Vec<u64>,
}

impl MagicTables {
    /// Every record can be evaluated, carries the mask of its square, and
    /// every slot that a lookup can reach holds the attacks for the
    /// occupancies that lead to it.
    #[verifier::type_invariant]
    pub closed spec fn inv(self) -> bool {
        &&& Slider::Rook.table_correct(self.rook_magics@, self.rook_moves@)
        &&& Slider::Bishop.table_correct(self.bishop_magics@, self.bishop_moves@)
    }

    /// The record of a square in the table of a slider.
    pub closed spec fn entry(self, slider: Slider, s: Square) -> MagicTableEntry {
        match slider {
            Slider::Rook => self.rook_magics@[s.index()],
            Slider::Bishop => self.bishop_magics@[s.index()],
        }
    }

    /// The flat table of a slider.
    pub closed spec fn moves(self, slider: Slider) -> Seq<u64> {
        match slider {
            Slider::Rook => self.rook_moves@,
            Slider::Bishop => self.bishop_moves@,
        }
    }

    /// Builds both tables from one multiplier per square. The result is
    /// `Some` exactly when every multiplier is collision free for its square.
    pub fn new(rook_magics: &[u64; 64], bishop_magics: &[u64; 64]) -> (r: Option<MagicTables>)
        ensures
            r is Some <==> forall|s: Square, e: MagicTableEntry|
                {
                    &&& Slider::Rook.is_entry(e, s, rook_magics[s.index()])
                        ==> Slider::Rook.collision_free(e, s)
                    &&& Slider::Bishop.is_entry(e, s, bishop_magics[s.index()])
                        ==> Slider::Bishop.collision_free(e, s)
                },
            r matches Some(t) ==> t.inv() && forall|s: Square|
                {
                    &&& Slider::Rook.is_entry(
                        #[trigger] t.entry(Slider::Rook, s),
                        s,
                        rook_magics[s.index()],
                    )
                    &&& Slider::Bishop.is_entry(
                        #[trigger] t.entry(Slider::Bishop, s),
                        s,
                        bishop_magics[s.index()],
                    )
                },
    {
        let rook = build_table(Slider::Rook, rook_magics);
        let bishop = build_table(Slider::Bishop, bishop_magics);
        match (rook, bishop) {
            (Some((rook_magics, rook_moves)), Some((bishop_magics, bishop_moves))) => Some(
                MagicTables { rook_magics, bishop_magics, rook_moves, bishop_moves },
            ),
            _ => None,
        }
    }

    /// The record of a square in the rook table.
    pub fn rook_entry(&self, s: Square) -> (e: &MagicTableEntry)
        ensures
            *e == self.entry(Slider::Rook, s),
            e.wf(),
            Slider::Rook.is_mask(e.mask, s),
    {
        proof {
            use_type_invariant(self);
        }
        &self.rook_magics[s.to_u8() as usize]
    }

    /// The record of a square in the bishop table.
    pub fn bishop_entry(&self, s: Square) -> (e: &MagicTableEntry)
        ensures
            *e == self.entry(Slider::Bishop, s),
            e.wf(),
            Slider::Bishop.is_mask(e.mask, s),
    {
        proof {
            use_type_invariant(self);
        }
        &self.bishop_magics[s.to_u8() as usize]
    }

    /// The squares that a rook on `from` attacks over the occupancy `occ`,
    /// read from the table.
    pub fn rook_attacks(&self, from: Square, occ: Bitboard) -> (r: Bitboard)
        ensures
            forall|t: Square|
                #![trigger r.has(t)]
                #![trigger rook_reaches(occ@, from, t)]
                r.has(t) <==> rook_reaches(occ@, from, t),
            r.0 == self.moves(Slider::Rook)[self.entry(Slider::Rook, from).slot(occ.0)],
    {
        proof {
            use_type_invariant(self);
        }
        let entry = &self.rook_magics[from.to_u8() as usize];
        let idx = magic_index(entry, occ);
        Bitboard(self.rook_moves[idx])
    }

    /// The squares that a bishop on `from` attacks over the occupancy `occ`,
    /// read from the table.
    pub fn bishop_attacks(&self, from: Square, occ: Bitboard) -> (r: Bitboard)
        ensures
            forall|t: Square|
                #![trigger r.has(t)]
                #![trigger bishop_reaches(occ@, from, t)]
                r.has(t) <==> bishop_reaches(occ@, from, t),
            r.0 == self.moves(Slider::Bishop)[self.entry(Slider::Bishop, from).slot(occ.0)],
    {
        proof {
            use_type_invariant(self);
        }
        let entry = &self.bishop_magics[from.to_u8() as usize];
        let idx = magic_index(entry, occ);
        Bitboard(self.bishop_moves[idx])
    }

    /// Every record of a table that satisfies the invariant can be evaluated
    /// and carries the mask of its square.
    pub proof fn lemma_entry(self, slider: Slider, from: Square)
        requires
            self.inv(),
        ensures
            self.entry(slider, from).wf(),
            slider.is_mask(self.entry(slider, from).mask, from),
    {
    }

    /// In a table that satisfies the invariant, the slot that the hash of any
    /// occupancy picks holds exactly the squares that walking the rays finds.
    pub proof fn lemma_lookup_is_ray_walk(self, slider: Slider, from: Square, occ: u64)
        requires
            self.inv(),
        ensures
            0 <= self.entry(slider, from).slot(occ) < self.moves(slider).len(),
            slider.is_attack_set(
                self.moves(slider)[self.entry(slider, from).slot(occ)],
                from,
                occ,
            ),
    {
    }
}

} // verus!
