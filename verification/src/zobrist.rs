//! Zobrist hashing: a table of random 64-bit keys, one per board feature,
//! and a hash that is maintained by XOR on every atomic state change.
//!
//! `zobrist_fold_*` define the from-scratch XOR-fold of a whole feature set;
//! the position invariant ties the incrementally maintained hash to that
//! fold, and the toggle lemmas here are the induction steps it rests on.

use vstd::prelude::*;
use crate::bits::{bit64, lemma_xor_single_bits, lemma_xor_shuffle};
use crate::bitboard::{Bitboard, Square};

verus! {

/// One random 64-bit key per (side, piece, square), per en-passant square,
/// per castling right, and one for the second mover to play.
pub struct ZobristKeys {
    pub pieces: [[[u64; 64]; 6]; 2],
    pub en_passant: [u64; 64],
    pub castling: [u64; 4],
    pub side_to_move: u64,
}

impl ZobristKeys {
    /// Draw a fresh table of keys. The values are arbitrary; everything
    /// proved about the hash holds for every choice of keys.
    pub fn new() -> (r: ZobristKeys)
    {
        let mut pieces: [[[u64; 64]; 6]; 2] = [[[0u64; 64]; 6]; 2];
        let mut en_passant: [u64; 64] = [0u64; 64];
        let mut castling: [u64; 4] = [0u64; 4];
        let mut side: usize = 0;
        while side < 2
            decreases 2 - side,
        {
            let mut piece: usize = 0;
            while piece < 6
                invariant
                    side < 2,
                decreases 6 - piece,
            {
                let mut sq: usize = 0;
                while sq < 64
                    invariant
                        side < 2,
                        piece < 6,
                    decreases 64 - sq,
                {
                    let k: u64 = rand::random::<u64>();
                    let mut row = pieces[side][piece];
                    row[sq] = k;
                    let mut plane = pieces[side];
                    plane[piece] = row;
                    pieces[side] = plane;
                    sq = sq + 1;
                }
                piece = piece + 1;
            }
            side = side + 1;
        }
        let mut sq: usize = 0;
        while sq < 64
            decreases 64 - sq,
        {
            en_passant[sq] = rand::random::<u64>();
            sq = sq + 1;
        }
        let mut right: usize = 0;
        while right < 4
            decreases 4 - right,
        {
            castling[right] = rand::random::<u64>();
            right = right + 1;
        }
        ZobristKeys { pieces, en_passant, castling, side_to_move: rand::random::<u64>() }
    }
}

/// XOR of the keys `ks[i]` over the set bits `i < n` of `b`.
pub open spec fn zobrist_fold_board(b: u64, ks: [u64; 64], n: int) -> u64
    decreases n,
{
    if n <= 0 {
        0u64
    } else {
        zobrist_fold_board(b, ks, n - 1) ^ (if bit64(b, (n - 1) as u64) {
            ks[n - 1]
        } else {
            0u64
        })
    }
}

/// XOR of the castling-right keys over the active rights.
pub open spec fn zobrist_fold_rights(rights: [bool; 4], ks: [u64; 4], n: int) -> u64
    decreases n,
{
    if n <= 0 {
        0u64
    } else {
        zobrist_fold_rights(rights, ks, n - 1) ^ (if rights[n - 1] {
            ks[n - 1]
        } else {
            0u64
        })
    }
}

/// Contribution of the en-passant board: the key of its single square.
pub open spec fn zobrist_ep_contrib(ep: u64, ks: [u64; 64]) -> u64 {
    if ep == 0 {
        0u64
    } else {
        ks[vstd::std_specs::bits::u64_trailing_zeros(ep) as int]
    }
}

/// Toggling one square of a board XORs that square's key into the fold.
pub proof fn lemma_fold_board_toggle(a: u64, s: u64, ks: [u64; 64], n: int)
    requires
        s < 64,
        0 <= n <= 64,
    ensures
        s < n ==> zobrist_fold_board(a ^ (1u64 << s), ks, n) == zobrist_fold_board(a, ks, n)
            ^ ks[s as int],
        s >= n ==> zobrist_fold_board(a ^ (1u64 << s), ks, n) == zobrist_fold_board(a, ks, n),
    decreases n,
{
    lemma_xor_single_bits(a, s);
    let b = a ^ (1u64 << s);
    if n > 0 {
        lemma_fold_board_toggle(a, s, ks, n - 1);
        let fa = zobrist_fold_board(a, ks, n - 1);
        let fb = zobrist_fold_board(b, ks, n - 1);
        let ca = if bit64(a, (n - 1) as u64) {
            ks[n - 1]
        } else {
            0u64
        };
        let cb = if bit64(b, (n - 1) as u64) {
            ks[n - 1]
        } else {
            0u64
        };
        if s == n - 1 {
            // Below the toggled bit the folds agree; the toggled contribution
            // differs by the key.
            assert(fb == fa);
            if bit64(a, s) {
                assert(cb == 0u64 && ca == ks[s as int]);
                lemma_xor_shuffle(fa, ca, cb);
                assert((fa ^ ca) ^ ks[s as int] == fa ^ cb) by {
                    lemma_xor_shuffle(fa, ca, 0u64);
                }
            } else {
                assert(ca == 0u64 && cb == ks[s as int]);
                lemma_xor_shuffle(fa, ca, cb);
            }
        } else {
            assert(ca == cb);
            if s < n - 1 {
                assert(fb == fa ^ ks[s as int]);
                lemma_xor_shuffle(fa, ks[s as int], ca);
            } else {
                assert(fb == fa);
            }
        }
    }
}

/// Toggling one castling right XORs that right's key into the fold.
pub proof fn lemma_fold_rights_toggle(a: [bool; 4], b: [bool; 4], j: int, ks: [u64; 4], n: int)
    requires
        0 <= j < 4,
        0 <= n <= 4,
        forall|i: int| 0 <= i < 4 && i != j ==> a[i] == b[i],
        b[j] == !a[j],
    ensures
        j < n ==> zobrist_fold_rights(b, ks, n) == zobrist_fold_rights(a, ks, n) ^ ks[j],
        j >= n ==> zobrist_fold_rights(b, ks, n) == zobrist_fold_rights(a, ks, n),
    decreases n,
{
    if n > 0 {
        lemma_fold_rights_toggle(a, b, j, ks, n - 1);
        let fa = zobrist_fold_rights(a, ks, n - 1);
        let ca = if a[n - 1] {
            ks[n - 1]
        } else {
            0u64
        };
        let cb = if b[n - 1] {
            ks[n - 1]
        } else {
            0u64
        };
        if j == n - 1 {
            if a[j] {
                lemma_xor_shuffle(fa, ca, 0u64);
            } else {
                lemma_xor_shuffle(fa, ks[j], 0u64);
            }
        } else if j < n - 1 {
            lemma_xor_shuffle(fa, ks[j], ca);
        }
    }
}

/// The incrementally maintained 64-bit hash.
#[derive(Default, Copy, Clone, PartialEq, Eq, Structural, Debug)]
#[verifier::ext_equal]
pub struct ZobristHash(pub u64);

impl ZobristHash {
    #[inline(always)]
    pub fn add_piece(&mut self, square: Square, piece: usize, side: usize, keys: &ZobristKeys)
        requires
            square < 64,
            piece < 6,
            side < 2,
        ensures
            final(self).0 == old(self).0 ^ keys.pieces[side as int][piece as int][square as int],
    {
        self.0 = self.0 ^ keys.pieces[side][piece][square];
    }

    #[inline(always)]
    pub fn remove_piece(&mut self, square: Square, piece: usize, side: usize, keys: &ZobristKeys)
        requires
            square < 64,
            piece < 6,
            side < 2,
        ensures
            final(self).0 == old(self).0 ^ keys.pieces[side as int][piece as int][square as int],
    {
        self.add_piece(square, piece, side, keys);
    }

    #[inline(always)]
    pub fn add_castling_right(&mut self, right: usize, keys: &ZobristKeys)
        requires
            right < 4,
        ensures
            final(self).0 == old(self).0 ^ keys.castling[right as int],
    {
        self.0 = self.0 ^ keys.castling[right];
    }

    #[inline(always)]
    pub fn remove_castling_right(&mut self, right: usize, keys: &ZobristKeys)
        requires
            right < 4,
        ensures
            final(self).0 == old(self).0 ^ keys.castling[right as int],
    {
        self.add_castling_right(right, keys);
    }

    #[inline(always)]
    pub fn flip_side_to_move(&mut self, keys: &ZobristKeys)
        ensures
            final(self).0 == old(self).0 ^ keys.side_to_move,
    {
        self.0 = self.0 ^ keys.side_to_move;
    }

    #[inline(always)]
    pub fn init_side_to_move(&mut self, side: usize, keys: &ZobristKeys)
        ensures
            side == 1 ==> final(self).0 == old(self).0 ^ keys.side_to_move,
            side != 1 ==> final(self).0 == old(self).0,
    {
        if side == 1 {
            self.0 = self.0 ^ keys.side_to_move;
        }
    }

    #[inline(always)]
    pub fn add_en_passant_square(&mut self, square: Square, keys: &ZobristKeys)
        requires
            square < 64,
        ensures
            final(self).0 == old(self).0 ^ keys.en_passant[square as int],
    {
        self.0 = self.0 ^ keys.en_passant[square];
    }

    #[inline(always)]
    pub fn remove_en_passant_square(&mut self, square: Square, keys: &ZobristKeys)
        requires
            square < 64,
        ensures
            final(self).0 == old(self).0 ^ keys.en_passant[square as int],
    {
        self.add_en_passant_square(square, keys);
    }

    #[inline(always)]
    pub fn init_en_passant_square(&mut self, board: Bitboard, keys: &ZobristKeys)
        ensures
            board.0 != 0 ==> final(self).0 == old(self).0 ^ zobrist_ep_contrib(
                board.0,
                keys.en_passant,
            ),
            board.0 == 0 ==> final(self).0 == old(self).0,
    {
        if !board.is_empty() {
            self.add_en_passant_square(board.next_piece_index(), keys);
        }
    }
}

} // verus!
