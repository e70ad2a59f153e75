//! A bitboard is a 64-bit set of squares: bit `r*8 + f` is the square on
//! rank `r` and file `f`.

use vstd::prelude::*;
use crate::bits::{bit64, pop64, lemma_xor_single_bits, lemma_count_toggle, lemma_count_bound};

verus! {

pub type Square = usize;

pub const NUM_OF_SQUARES: usize = 64;

#[derive(PartialEq, Eq, Structural, Default, Copy, Clone, Debug)]
#[verifier::ext_equal]
pub struct Bitboard(pub u64);

impl Bitboard {
    pub fn from_squares(squares: &[Square]) -> (r: Self)
        requires
            forall|i: int| 0 <= i < squares@.len() ==> squares@[i] < 64,
        ensures
            forall|s: u64| s < 64 ==> (bit64(r.0, s) <==> squares@.contains(s as Square)),
    {
        let mut bitboard = Bitboard(0);
        let mut i: usize = 0;
        proof {
            assert forall|s: u64| s < 64 implies !bit64(0u64, s) by {
                assert(!bit64(0u64, s)) by (bit_vector);
            }
        }
        while i < squares.len()
            invariant
                i <= squares@.len(),
                forall|j: int| 0 <= j < squares@.len() ==> squares@[j] < 64,
                forall|s: u64| s < 64 ==> (bit64(bitboard.0, s) <==> squares@.subrange(
                    0,
                    i as int,
                ).contains(s as Square)),
            decreases squares@.len() - i,
        {
            let sq = squares[i];
            let ghost prev = bitboard.0;
            bitboard.0 = bitboard.0 | (1u64 << (sq as u64));
            proof {
                let mask = 1u64 << (sq as u64);
                let sub0 = squares@.subrange(0, i as int);
                let sub1 = squares@.subrange(0, i + 1);
                assert(forall|j: int| 0 <= j < i ==> sub1[j] == sub0[j]);
                assert(sub1[i as int] == sq);
                assert forall|s: u64|
                    s < 64 implies (bit64(bitboard.0, s) <==> sub1.contains(s as Square)) by {
                    crate::bits::lemma_bit_or(prev, mask, s);
                    crate::bits::lemma_bit_single(sq as u64, s);
                    assert(bitboard.0 == prev | mask);
                    assert(bit64(prev | mask, s) == (bit64(prev, s) || s == sq as u64));
                    if bit64(prev, s) || s == sq as u64 {
                        if s == sq as u64 {
                            assert(sub1[i as int] == s as Square);
                        } else {
                            assert(sub0.contains(s as Square));
                            let j = choose|j: int| 0 <= j < sub0.len() && sub0[j] == s as Square;
                            assert(sub1[j] == s as Square);
                        }
                        assert(sub1.contains(s as Square));
                        assert(bit64(bitboard.0, s));
                    } else {
                        assert(!bit64(bitboard.0, s));
                        assert forall|j: int| 0 <= j < sub1.len() implies sub1[j] != s as Square by {
                            if j < i {
                                assert(sub1[j] == sub0[j]);
                                if sub0[j] == s as Square {
                                    assert(sub0.contains(s as Square));
                                }
                            } else {
                                assert(sub1[j] == sq);
                            }
                        }
                        assert(!sub1.contains(s as Square));
                    }
                }
            }
            i = i + 1;
        }
        proof {
            assert(squares@.subrange(0, squares@.len() as int) =~= squares@);
        }
        bitboard
    }

    #[inline(always)]
    pub fn square(square: Square) -> (r: Self)
        requires
            square < 64,
        ensures
            r.0 == (1u64 << square as u64),
    {
        Bitboard(1u64 << (square as u64))
    }

    #[inline(always)]
    pub fn empty() -> (r: Self)
        ensures
            r.0 == 0u64,
    {
        Bitboard(0)
    }

    #[inline(always)]
    pub fn full() -> (r: Self)
        ensures
            r.0 == 0xFFFFFFFFFFFFFFFFu64,
    {
        Bitboard(0xFFFFFFFFFFFFFFFF)
    }

    #[inline(always)]
    pub fn add_piece(&mut self, square: Square)
        requires
            square < 64,
        ensures
            final(self).0 == old(self).0 | (1u64 << square as u64),
    {
        self.0 = self.0 | (1u64 << (square as u64));
    }

    #[inline(always)]
    pub fn remove_piece(&mut self, square: Square)
        requires
            square < 64,
        ensures
            final(self).0 == old(self).0 & !(1u64 << square as u64),
    {
        self.0 = self.0 & !(1u64 << (square as u64));
    }

    #[inline(always)]
    pub fn is_empty(&self) -> (r: bool)
        ensures
            r == (self.0 == 0),
    {
        self.0 == 0
    }

    #[inline(always)]
    pub fn is_filled(&self) -> (r: bool)
        ensures
            r == (self.0 != 0),
    {
        self.0 != 0
    }

    #[inline(always)]
    pub fn has(&self, square: Square) -> (r: bool)
        requires
            square < 64,
        ensures
            r == bit64(self.0, square as u64),
    {
        proof {
            crate::bits::lemma_test_bit(self.0, square as u64);
        }
        self.0 & (1u64 << (square as u64)) != 0
    }

    /// Index of the lowest set bit; 64 when the board is empty.
    #[inline(always)]
    pub fn next_piece_index(&self) -> (r: Square)
        ensures
            r == vstd::std_specs::bits::u64_trailing_zeros(self.0),
            self.0 != 0 ==> r < 64 && bit64(self.0, r as u64) && (forall|j: u64|
                j < r ==> !bit64(self.0, j)),
            self.0 == 0 ==> r == 64,
    {
        proof {
            vstd::std_specs::bits::axiom_u64_trailing_zeros(self.0);
        }
        self.0.trailing_zeros() as Square
    }

    #[inline(always)]
    pub fn union(self, rhs: Self) -> (r: Self)
        ensures
            r.0 == self.0 | rhs.0,
    {
        Bitboard(self.0 | rhs.0)
    }

    #[inline(always)]
    pub fn intersect(self, rhs: Self) -> (r: Self)
        ensures
            r.0 == self.0 & rhs.0,
    {
        Bitboard(self.0 & rhs.0)
    }

    #[inline(always)]
    pub fn xor(self, rhs: Self) -> (r: Self)
        ensures
            r.0 == self.0 ^ rhs.0,
    {
        Bitboard(self.0 ^ rhs.0)
    }

    #[inline(always)]
    pub fn invert(self) -> (r: Self)
        ensures
            r.0 == !self.0,
    {
        Bitboard(!self.0)
    }

    #[inline(always)]
    pub fn shl(self, rhs: usize) -> (r: Self)
        requires
            rhs < 64,
        ensures
            r.0 == self.0 << rhs as u64,
    {
        Bitboard(self.0 << (rhs as u64))
    }

    #[inline(always)]
    pub fn shr(self, rhs: usize) -> (r: Self)
        requires
            rhs < 64,
        ensures
            r.0 == self.0 >> rhs as u64,
    {
        Bitboard(self.0 >> (rhs as u64))
    }

    #[inline(always)]
    pub fn into_iter(self) -> (r: BitboardIterator)
        ensures
            r.bitset == self,
    {
        BitboardIterator { bitset: self }
    }
}

pub struct BitboardIterator {
    pub bitset: Bitboard,
}

impl BitboardIterator {
    /// Yields each set square exactly once, in ascending order, by repeated
    /// extraction of the lowest set bit.
    #[inline(always)]
    pub fn next(&mut self) -> (r: Option<Square>)
        ensures
            match r {
                None => old(self).bitset.0 == 0 && final(self).bitset == old(self).bitset,
                Some(s) => s < 64 && bit64(old(self).bitset.0, s as u64) && (forall|j: u64|
                    j < s ==> !bit64(old(self).bitset.0, j)) && final(self).bitset.0 == old(
                    self,
                ).bitset.0 ^ (1u64 << s as u64) && !bit64(final(self).bitset.0, s as u64) && (
                forall|j: u64|
                    j < 64 && j != s ==> bit64(final(self).bitset.0, j) == bit64(
                        old(self).bitset.0,
                        j,
                    )) && pop64(final(self).bitset.0) == pop64(old(self).bitset.0) - 1
                    && final(self).bitset.0 < old(self).bitset.0,
            },
    {
        if self.bitset.0 == 0 {
            return None;
        }
        let index = self.bitset.next_piece_index();
        let ghost before = self.bitset.0;
        self.bitset = self.bitset.xor(Bitboard(1u64 << (index as u64)));
        proof {
            lemma_xor_single_bits(before, index as u64);
            lemma_count_toggle(before, self.bitset.0, index as u64, 64);
            lemma_count_bound(self.bitset.0, 64);
            crate::bits::lemma_clear_bit_decreases(before, index as u64);
        }
        Some(index)
    }
}

} // verus!
