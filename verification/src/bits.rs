//! Single bits of a 64-bit pattern, and how the bitwise operators act on them.
use vstd::prelude::*;

verus! {

/// Whether bit `i` of `x` is set. No pattern has a bit outside `0..64`.
pub open spec fn bit(x: u64, i: int) -> bool {
    0 <= i < 64 && (x >> (i as u64)) & 1 == 1
}

/// The number of set bits among the lowest `n` bits of `x`.
pub open spec fn ones_below(x: u64, n: nat) -> nat
    decreases n,
{
    if n == 0 {
        0
    } else {
        ones_below(x, (n - 1) as nat) + if bit(x, n - 1) {
            1nat
        } else {
            0nat
        }
    }
}

/// The number of set bits of `x`.
pub open spec fn count_bits(x: u64) -> nat {
    ones_below(x, 64)
}

/// Among `n` bits at most `n` are set.
pub proof fn lemma_ones_bound(x: u64, n: nat)
    ensures
        ones_below(x, n) <= n,
    decreases n,
{
    if n > 0 {
        lemma_ones_bound(x, (n - 1) as nat);
    }
}

/// `u64::count_ones` returns the number of ones in the binary representation of
/// its argument.
pub assume_specification[ u64::count_ones ](x: u64) -> (r: u32)
    ensures
        r == count_bits(x),
;

/// A bit is set in `x & y` when it is set in both.
pub proof fn lemma_bit_and(x: u64, y: u64)
    ensures
        forall|i: int| #[trigger] bit(x & y, i) == (bit(x, i) && bit(y, i)),
{
    assert forall|i: int| #[trigger] bit(x & y, i) == (bit(x, i) && bit(y, i)) by {
        if 0 <= i < 64 {
            let j = i as u64;
            assert((((x & y) >> j) & 1 == 1) == ((x >> j) & 1 == 1 && (y >> j) & 1 == 1))
                by (bit_vector);
        }
    }
}

/// A bit is set in `x | y` when it is set in either.
pub proof fn lemma_bit_or(x: u64, y: u64)
    ensures
        forall|i: int| #[trigger] bit(x | y, i) == (bit(x, i) || bit(y, i)),
{
    assert forall|i: int| #[trigger] bit(x | y, i) == (bit(x, i) || bit(y, i)) by {
        if 0 <= i < 64 {
            let j = i as u64;
            assert((((x | y) >> j) & 1 == 1) == ((x >> j) & 1 == 1 || (y >> j) & 1 == 1))
                by (bit_vector);
        }
    }
}

/// A bit is set in `x ^ y` when it is set in exactly one.
pub proof fn lemma_bit_xor(x: u64, y: u64)
    ensures
        forall|i: int| #[trigger] bit(x ^ y, i) == (bit(x, i) != bit(y, i)),
{
    assert forall|i: int| #[trigger] bit(x ^ y, i) == (bit(x, i) != bit(y, i)) by {
        if 0 <= i < 64 {
            let j = i as u64;
            assert((((x ^ y) >> j) & 1 == 1) == (((x >> j) & 1 == 1) != ((y >> j) & 1 == 1)))
                by (bit_vector);
        }
    }
}

/// A bit below 64 is set in `!x` when it is not set in `x`.
pub proof fn lemma_bit_not(x: u64)
    ensures
        forall|i: int| #[trigger] bit(!x, i) == (0 <= i < 64 && !bit(x, i)),
{
    assert forall|i: int| #[trigger] bit(!x, i) == (0 <= i < 64 && !bit(x, i)) by {
        if 0 <= i < 64 {
            let j = i as u64;
            assert(j < 64 ==> ((((!x) >> j) & 1 == 1) == !((x >> j) & 1 == 1))) by (bit_vector);
        }
    }
}

/// `1 << i` has bit `i` and no other.
pub proof fn lemma_bit_single(i: int)
    requires
        0 <= i < 64,
    ensures
        forall|j: int| #[trigger] bit(1u64 << (i as u64), j) == (j == i),
{
    let a = i as u64;
    assert forall|j: int| #[trigger] bit(1u64 << a, j) == (j == i) by {
        if 0 <= j < 64 {
            let b = j as u64;
            assert(a < 64 && b < 64 ==> ((((1u64 << a) >> b) & 1 == 1) == (a == b)))
                by (bit_vector);
        }
    }
}

/// The empty pattern has no bit.
pub proof fn lemma_bit_zero()
    ensures
        forall|i: int| !#[trigger] bit(0u64, i),
{
    assert forall|i: int| !#[trigger] bit(0u64, i) by {
        if 0 <= i < 64 {
            let j = i as u64;
            assert((0u64 >> j) & 1 == 0) by (bit_vector);
        }
    }
}

/// Two patterns that agree on every bit are the same pattern.
pub proof fn lemma_bits_equal(x: u64, y: u64)
    requires
        forall|i: int| 0 <= i < 64 ==> bit(x, i) == bit(y, i),
    ensures
        x == y,
{
    let z = x ^ y;
    if z != 0 {
        lemma_lowest_bit(z);
        lemma_bit_xor(x, y);
    } else {
        assert(x ^ y == 0 ==> x == y) by (bit_vector);
    }
}

/// Index of the lowest set bit of `x`, and 64 for the empty pattern.
pub open spec fn lowest_bit(x: u64) -> int {
    x.trailing_zeros() as int
}

/// The lowest set bit of a pattern that is not empty is set, lies below 64,
/// and no bit under it is set.
pub proof fn lemma_lowest_bit(x: u64)
    ensures
        x == 0 <==> lowest_bit(x) == 64,
        0 <= lowest_bit(x) <= 64,
        x != 0 ==> bit(x, lowest_bit(x)),
        forall|j: int| 0 <= j < lowest_bit(x) ==> !#[trigger] bit(x, j),
{
}

/// Taking one off a pattern and intersecting clears exactly the lowest set bit.
pub proof fn lemma_clear_lowest(x: u64)
    requires
        x != 0,
    ensures
        forall|i: int|
            #[trigger] bit(x & ((x - 1) as u64), i) == (bit(x, i) && i != lowest_bit(x)),
{
    let k = lowest_bit(x) as u64;
    let y = (x - 1) as u64;
    assert forall|i: int| #[trigger] bit(x & y, i) == (bit(x, i) && i != lowest_bit(x)) by {
        if 0 <= i < 64 {
            let j = i as u64;
            if j < k {
                lemma_bit_and(x, y);
            } else {
                lemma_low_bits_clear(x, k);
                assert(x != 0 && y == (x - 1) as u64 && k < 64 && (x >> k) & 1 == 1 && x & (((1u64
                    << k) - 1) as u64) == 0 && j >= k && j < 64 ==> ((((x & y) >> j) & 1 == 1)
                    == ((x >> j) & 1 == 1 && j != k))) by (bit_vector);
            }
        }
    }
}

/// A pattern with no set bit under `k` has nothing in common with `(1 << k) - 1`.
proof fn lemma_low_bits_clear(x: u64, k: u64)
    requires
        k < 64,
        forall|j: int| 0 <= j < k ==> !#[trigger] bit(x, j),
    ensures
        x & (((1u64 << k) - 1) as u64) == 0,
{
    let m = ((1u64 << k) - 1) as u64;
    let z = x & m;
    lemma_bit_and(x, m);
    lemma_bit_zero();
    assert forall|i: int| 0 <= i < 64 implies bit(z, i) == bit(0u64, i) by {
        let j = i as u64;
        if j >= k {
            assert(k < 64 && j >= k && j < 64 ==> ((((1u64 << k) - 1) as u64) >> j) & 1 == 0)
                by (bit_vector);
        }
    }
    lemma_bits_equal(z, 0);
}

/// The pattern `x` with bit `i` added.
pub fn with_bit(x: u64, i: u8) -> (r: u64)
    requires
        i < 64,
    ensures
        r == x | (1u64 << (i as u64)),
        forall|j: int| bit(r, j) == (bit(x, j) || j == i),
{
    let b: u64 = 1u64 << (i as u64);
    proof {
        lemma_bit_single(i as int);
        lemma_bit_or(x, b);
    }
    x | b
}

/// Whether bit `i` of `x` is set.
pub fn test_bit(x: u64, i: u8) -> (r: bool)
    requires
        i < 64,
    ensures
        r == bit(x, i as int),
{
    let b: u64 = 1u64 << (i as u64);
    proof {
        let z = x & b;
        lemma_bit_single(i as int);
        lemma_bit_and(x, b);
        lemma_bit_zero();
        assert(bit(z, i as int) == (bit(x, i as int) && bit(b, i as int)));
        if z != 0 {
            lemma_lowest_bit(z);
        }
    }
    x & b != 0
}

} // verus!
