//! Sets of squares packed into 64 bits.
use crate::bits::{
    bit, count_bits, lemma_bit_and, lemma_bit_not, lemma_bit_or, lemma_bit_single, lemma_bit_xor,
    lemma_bit_zero,
    lemma_bits_equal, lemma_clear_lowest, lemma_lowest_bit, lemma_ones_bound, lowest_bit,
    ones_below,
};
use crate::Square;
use vstd::prelude::*;

verus! {

/// A set of squares: bit `i` of the pattern is set when the square numbered `i`
/// belongs to the set.
#[derive(Debug, Clone, Copy, Eq, PartialEq, Structural)]
pub struct Bitboard(pub u64);

impl View for Bitboard {
    type V = Set<Square>;

    open spec fn view(&self) -> Set<Square> {
        Set::new(|s: Square| self.has(s))
    }
}

impl std::ops::BitAnd<Bitboard> for Bitboard {
    type Output = Bitboard;

    fn bitand(self, rhs: Bitboard) -> (r: Bitboard) {
        Bitboard::from_u64(self.0 & rhs.0)
    }
}

impl vstd::std_specs::ops::BitAndSpecImpl<Bitboard> for Bitboard {
    open spec fn obeys_bitand_spec() -> bool {
        true
    }

    open spec fn bitand_req(self, rhs: Bitboard) -> bool {
        true
    }

    open spec fn bitand_spec(self, rhs: Bitboard) -> Bitboard {
        Bitboard(self.0 & rhs.0)
    }
}

impl std::ops::BitAnd<u64> for Bitboard {
    type Output = Bitboard;

    fn bitand(self, rhs: u64) -> (r: Bitboard) {
        Bitboard::from_u64(self.0 & rhs)
    }
}

impl vstd::std_specs::ops::BitAndSpecImpl<u64> for Bitboard {
    open spec fn obeys_bitand_spec() -> bool {
        true
    }

    open spec fn bitand_req(self, rhs: u64) -> bool {
        true
    }

    open spec fn bitand_spec(self, rhs: u64) -> Bitboard {
        Bitboard(self.0 & rhs)
    }
}

impl std::ops::BitAnd<Square> for Bitboard {
    type Output = Bitboard;

    fn bitand(self, rhs: Square) -> (r: Bitboard) {
        Bitboard::from_u64(self.0 & rhs.to_u64())
    }
}

impl vstd::std_specs::ops::BitAndSpecImpl<Square> for Bitboard {
    open spec fn obeys_bitand_spec() -> bool {
        true
    }

    open spec fn bitand_req(self, rhs: Square) -> bool {
        true
    }

    open spec fn bitand_spec(self, rhs: Square) -> Bitboard {
        Bitboard(self.0 & rhs.mask())
    }
}

impl std::ops::BitOr<Bitboard> for Bitboard {
    type Output = Bitboard;

    fn bitor(self, rhs: Bitboard) -> (r: Bitboard) {
        Bitboard::from_u64(self.0 | rhs.0)
    }
}

impl vstd::std_specs::ops::BitOrSpecImpl<Bitboard> for Bitboard {
    open spec fn obeys_bitor_spec() -> bool {
        true
    }

    open spec fn bitor_req(self, rhs: Bitboard) -> bool {
        true
    }

    open spec fn bitor_spec(self, rhs: Bitboard) -> Bitboard {
        Bitboard(self.0 | rhs.0)
    }
}

impl std::ops::BitOr<u64> for Bitboard {
    type Output = Bitboard;

    fn bitor(self, rhs: u64) -> (r: Bitboard) {
        Bitboard::from_u64(self.0 | rhs)
    }
}

impl vstd::std_specs::ops::BitOrSpecImpl<u64> for Bitboard {
    open spec fn obeys_bitor_spec() -> bool {
        true
    }

    open spec fn bitor_req(self, rhs: u64) -> bool {
        true
    }

    open spec fn bitor_spec(self, rhs: u64) -> Bitboard {
        Bitboard(self.0 | rhs)
    }
}

impl std::ops::BitOr<Square> for Bitboard {
    type Output = Bitboard;

    fn bitor(self, rhs: Square) -> (r: Bitboard) {
        Bitboard::from_u64(self.0 | rhs.to_u64())
    }
}

impl vstd::std_specs::ops::BitOrSpecImpl<Square> for Bitboard {
    open spec fn obeys_bitor_spec() -> bool {
        true
    }

    open spec fn bitor_req(self, rhs: Square) -> bool {
        true
    }

    open spec fn bitor_spec(self, rhs: Square) -> Bitboard {
        Bitboard(self.0 | rhs.mask())
    }
}

impl std::ops::BitXor<Bitboard> for Bitboard {
    type Output = Bitboard;

    fn bitxor(self, rhs: Bitboard) -> (r: Bitboard) {
        Bitboard::from_u64(self.0 ^ rhs.0)
    }
}

impl vstd::std_specs::ops::BitXorSpecImpl<Bitboard> for Bitboard {
    open spec fn obeys_bitxor_spec() -> bool {
        true
    }

    open spec fn bitxor_req(self, rhs: Bitboard) -> bool {
        true
    }

    open spec fn bitxor_spec(self, rhs: Bitboard) -> Bitboard {
        Bitboard(self.0 ^ rhs.0)
    }
}

impl std::ops::BitXor<u64> for Bitboard {
    type Output = Bitboard;

    fn bitxor(self, rhs: u64) -> (r: Bitboard) {
        Bitboard::from_u64(self.0 ^ rhs)
    }
}

impl vstd::std_specs::ops::BitXorSpecImpl<u64> for Bitboard {
    open spec fn obeys_bitxor_spec() -> bool {
        true
    }

    open spec fn bitxor_req(self, rhs: u64) -> bool {
        true
    }

    open spec fn bitxor_spec(self, rhs: u64) -> Bitboard {
        Bitboard(self.0 ^ rhs)
    }
}

impl std::ops::BitXor<Square> for Bitboard {
    type Output = Bitboard;

    fn bitxor(self, rhs: Square) -> (r: Bitboard) {
        Bitboard::from_u64(self.0 ^ rhs.to_u64())
    }
}

impl vstd::std_specs::ops::BitXorSpecImpl<Square> for Bitboard {
    open spec fn obeys_bitxor_spec() -> bool {
        true
    }

    open spec fn bitxor_req(self, rhs: Square) -> bool {
        true
    }

    open spec fn bitxor_spec(self, rhs: Square) -> Bitboard {
        Bitboard(self.0 ^ rhs.mask())
    }
}

impl std::ops::BitAndAssign<Bitboard> for Bitboard {
    fn bitand_assign(&mut self, rhs: Bitboard)
        ensures
            final(self).0 == old(self).0 & rhs.0,
    {
        self.0 = self.0 & rhs.0;
    }
}

impl std::ops::BitAndAssign<u64> for Bitboard {
    fn bitand_assign(&mut self, rhs: u64)
        ensures
            final(self).0 == old(self).0 & rhs,
    {
        self.0 = self.0 & rhs;
    }
}

impl std::ops::BitAndAssign<Square> for Bitboard {
    fn bitand_assign(&mut self, rhs: Square)
        ensures
            final(self).0 == old(self).0 & rhs.mask(),
    {
        self.0 = self.0 & rhs.to_u64();
    }
}

impl std::ops::BitOrAssign<Bitboard> for Bitboard {
    fn bitor_assign(&mut self, rhs: Bitboard)
        ensures
            final(self).0 == old(self).0 | rhs.0,
    {
        self.0 = self.0 | rhs.0;
    }
}

impl std::ops::BitOrAssign<u64> for Bitboard {
    fn bitor_assign(&mut self, rhs: u64)
        ensures
            final(self).0 == old(self).0 | rhs,
    {
        self.0 = self.0 | rhs;
    }
}

impl std::ops::BitOrAssign<Square> for Bitboard {
    fn bitor_assign(&mut self, rhs: Square)
        ensures
            final(self).0 == old(self).0 | rhs.mask(),
    {
        self.0 = self.0 | rhs.to_u64();
    }
}

impl std::ops::BitXorAssign<Bitboard> for Bitboard {
    fn bitxor_assign(&mut self, rhs: Bitboard)
        ensures
            final(self).0 == old(self).0 ^ rhs.0,
    {
        self.0 = self.0 ^ rhs.0;
    }
}

impl std::ops::BitXorAssign<u64> for Bitboard {
    fn bitxor_assign(&mut self, rhs: u64)
        ensures
            final(self).0 == old(self).0 ^ rhs,
    {
        self.0 = self.0 ^ rhs;
    }
}

impl std::ops::BitXorAssign<Square> for Bitboard {
    fn bitxor_assign(&mut self, rhs: Square)
        ensures
            final(self).0 == old(self).0 ^ rhs.mask(),
    {
        self.0 = self.0 ^ rhs.to_u64();
    }
}

impl std::ops::Not for Bitboard {
    type Output = Bitboard;

    fn not(self) -> (r: Bitboard) {
        Bitboard(!self.0)
    }
}

impl vstd::std_specs::ops::NotSpecImpl for Bitboard {
    open spec fn obeys_not_spec() -> bool {
        true
    }

    open spec fn not_req(self) -> bool {
        true
    }

    open spec fn not_spec(self) -> Bitboard {
        Bitboard(!self.0)
    }
}

impl Bitboard {
    /// Whether the square belongs to the set.
    pub open spec fn has(self, s: Square) -> bool {
        bit(self.0, s.index())
    }

    /// The member with the smallest number is the one whose number is the
    /// index of the lowest set bit.
    pub open spec fn is_lowest(self, s: Square) -> bool {
        s.index() == lowest_bit(self.0)
    }

    /// Two bitboards with the same members have the same pattern.
    pub proof fn lemma_same_members(a: Bitboard, b: Bitboard)
        requires
            forall|s: Square| a.has(s) == b.has(s),
        ensures
            a == b,
    {
        assert forall|i: int| 0 <= i < 64 implies bit(a.0, i) == bit(b.0, i) by {
            let s = Square::at(i);
            assert(a.has(s) == b.has(s));
        }
        lemma_bits_equal(a.0, b.0);
    }

    /// Toggling the bit of `s` changes the membership of `s` and of no other
    /// square.
    pub proof fn lemma_toggle(b: Bitboard, s: Square)
        ensures
            forall|t: Square| #[trigger] Bitboard(b.0 ^ s.mask()).has(t) == (b.has(t) != (t == s)),
    {
        lemma_bit_single(s.index());
        lemma_bit_xor(b.0, s.mask());
    }

    /// Setting the bit of `s` adds `s` and no other square.
    pub proof fn lemma_insert(b: Bitboard, s: Square)
        ensures
            forall|t: Square| #[trigger] Bitboard(b.0 | s.mask()).has(t) == (b.has(t) || t == s),
    {
        lemma_bit_single(s.index());
        lemma_bit_or(b.0, s.mask());
    }

    /// The members of an intersection are the common members.
    pub proof fn lemma_and(a: Bitboard, b: Bitboard)
        ensures
            forall|t: Square| #[trigger] Bitboard(a.0 & b.0).has(t) == (a.has(t) && b.has(t)),
    {
        lemma_bit_and(a.0, b.0);
    }

    /// The members of a union are the members of either part.
    pub proof fn lemma_or(a: Bitboard, b: Bitboard)
        ensures
            forall|t: Square| #[trigger] Bitboard(a.0 | b.0).has(t) == (a.has(t) || b.has(t)),
    {
        lemma_bit_or(a.0, b.0);
    }

    /// The members of a difference are the members of the first part that
    /// are not in the second.
    pub proof fn lemma_and_not(a: Bitboard, b: Bitboard)
        ensures
            forall|t: Square| #[trigger] Bitboard(a.0 & !b.0).has(t) == (a.has(t) && !b.has(t)),
    {
        lemma_bit_and(a.0, !b.0);
        lemma_bit_not(b.0);
    }

    /// Whether the set has a member.
    pub fn any(&self) -> (r: bool)
        ensures
            r == exists|s: Square| self.has(s),
            r == (self.0 != 0),
    {
        proof {
            if self.0 != 0 {
                assert(self.has(Square::at(lowest_bit(self.0))));
            }
        }
        self.0 != 0
    }

    /// The empty set.
    pub fn empty() -> (r: Self)
        ensures
            r.0 == 0,
            r@ == Set::<Square>::empty(),
    {
        proof {
            lemma_bit_zero();
        }
        Bitboard::from_u64(0)
    }

    /// The set that holds one square.
    pub fn from_square(s: Square) -> (r: Self)
        ensures
            r.0 == s.mask(),
            r@ == set![s],
    {
        proof {
            lemma_bit_single(s.index());
        }
        Bitboard::from_u64(s.to_u64())
    }

    /// The set of the squares in the list.
    pub fn from_squares(sq: Vec<Square>) -> (r: Self)
        ensures
            r@ == sq@.to_set(),
    {
        let mut out = Bitboard::empty();
        let mut i: usize = 0;
        proof {
            lemma_bit_zero();
        }
        while i < sq.len()
            invariant
                i <= sq.len(),
                forall|s: Square| out.has(s) <==> exists|j: int| 0 <= j < i && sq@[j] == s,
            decreases sq.len() - i,
        {
            let s = sq[i];
            let ghost before = out;
            out = Bitboard::from_u64(out.0 | s.to_u64());
            proof {
                lemma_bit_single(s.index());
                lemma_bit_or(before.0, s.mask());
                assert forall|t: Square| out.has(t) <==> exists|j: int|
                    0 <= j < i + 1 && sq@[j] == t by {
                    if before.has(t) {
                        let j = choose|j: int| 0 <= j < i && sq@[j] == t;
                        assert(0 <= j < i + 1 && sq@[j] == t);
                    }
                }
            }
            i += 1;
        }
        out
    }

    /// The set whose pattern is `v`.
    pub fn from_u64(v: u64) -> (r: Self)
        ensures
            r.0 == v,
    {
        Bitboard(v)
    }

    /// Whether the square belongs to the set.
    pub fn contains(&self, s: Square) -> (r: bool)
        ensures
            r == self.has(s),
            r == self@.contains(s),
    {
        proof {
            lemma_bit_single(s.index());
            lemma_bit_and(self.0, s.mask());
            lemma_bit_zero();
            let z = self.0 & s.mask();
            if z == 0 {
                assert(!bit(z, s.index()));
            } else {
                lemma_lowest_bit(z);
            }
        }
        self.0 & s.to_u64() != 0
    }

    /// Whether the set has no member.
    pub fn is_empty(&self) -> (r: bool)
        ensures
            r == (self.0 == 0),
            r == (self@ == Set::<Square>::empty()),
    {
        proof {
            if self.0 == 0 {
                assert(self@ =~= Set::<Square>::empty());
            } else {
                let s = Square::at(lowest_bit(self.0));
                assert(self@.contains(s));
            }
        }
        self.0 == 0
    }

    /// The members of the set with a number below `n`.
    pub open spec fn below(self, n: int) -> Set<Square> {
        Set::new(|s: Square| self.has(s) && s.index() < n)
    }

    /// The members below `n` are as many as the set bits below `n`.
    proof fn lemma_count_below(self, n: nat)
        requires
            n <= 64,
        ensures
            self.below(n as int).finite(),
            self.below(n as int).len() == ones_below(self.0, n),
        decreases n,
    {
        if n == 0 {
            assert(self.below(0) =~= Set::<Square>::empty());
        } else {
            self.lemma_count_below((n - 1) as nat);
            let lower = self.below(n - 1);
            let last = Square::at(n - 1);
            if bit(self.0, n - 1) {
                assert(self.below(n as int) =~= lower.insert(last));
            } else {
                assert(self.below(n as int) =~= lower);
            }
        }
    }

    /// A bitboard has as many members as its pattern has set bits.
    pub proof fn lemma_count(self)
        ensures
            self@.finite(),
            self@.len() == count_bits(self.0),
    {
        self.lemma_count_below(64);
        assert(self@ =~= self.below(64));
    }

    /// The number of squares in the set.
    pub fn count_ones(&self) -> (r: u32)
        ensures
            r == self@.len(),
            r == count_bits(self.0),
            r <= 64,
    {
        proof {
            self.lemma_count();
            lemma_ones_bound(self.0, 64);
        }
        self.0.count_ones()
    }

    /// The number of the lowest square in the set, and 64 when the set is
    /// empty.
    pub fn trailing_zeros(&self) -> (r: u32)
        ensures
            r == lowest_bit(self.0),
            r <= 64,
            self.0 == 0 <==> r == 64,
            forall|s: Square| self.has(s) ==> r <= s.index(),
            self.0 != 0 ==> exists|s: Square| self.has(s) && s.index() == r,
    {
        proof {
            if self.0 != 0 {
                Square::lemma_every_index(lowest_bit(self.0));
                assert(self.has(Square::at(lowest_bit(self.0))));
            }
        }
        self.0.trailing_zeros()
    }

    /// The lowest square of a set that is not empty.
    pub fn first_square(&self) -> (s: Square)
        requires
            self.0 != 0,
        ensures
            self.has(s),
            self.is_lowest(s),
            forall|t: Square| self.has(t) ==> s.index() <= t.index(),
    {
        let z: u32 = self.0.trailing_zeros();
        Square::from_u8(z as u8)
    }

    /// Takes the lowest square out of the set. An empty set stays empty.
    pub fn clear_lsb(&mut self)
        ensures
            forall|s: Square| final(self).has(s) == (old(self).has(s) && !old(self).is_lowest(s)),
            old(self).0 == 0 ==> final(self).0 == 0,
            old(self).0 != 0 ==> final(self).0 == old(self).0 & ((old(self).0 - 1) as u64),
    {
        if self.0 != 0 {
            proof {
                lemma_clear_lowest(self.0);
            }
            self.0 = self.0 & (self.0 - 1);
        }
    }
}

} // verus!
