//! Board state: one bitboard per (side, piece), castling rights, en-passant
//! target, clocks, the incrementally maintained Zobrist hash and evaluation
//! accumulators, and the append-only history stack that make/unmake works
//! against.
//!
//! The central invariants: `hashed` ties the incremental hash to the
//! from-scratch XOR-fold of every board feature, and `evaled` ties each
//! evaluation accumulator to the sum a full board scan would produce.

use vstd::prelude::*;
use vstd::string::StringSliceAdditionalSpecFns;
use crate::bits::{bit64, pop64, lemma_xor_single_bits, lemma_count_toggle, lemma_count_bound,
    lemma_xor_pull, lemma_xor_shuffle};
use crate::bitboard::{Bitboard, Square};
use crate::moves::{Move, Piece, CastlingSide, mv_from, mv_to, mv_moving, mv_captured,
    mv_is_capture, mv_is_promotion, mv_is_en_passant, mv_is_double_push, mv_castle_side,
    mv_promoted};
use crate::zobrist::{ZobristHash, ZobristKeys, zobrist_fold_board, zobrist_fold_rights,
    zobrist_ep_contrib, lemma_fold_board_toggle, lemma_fold_rights_toggle};
use crate::params::{EvalParams, spec_phase_weight, phase_weight, TOTAL_PHASE};
use crate::tables::Tables;

verus! {

pub type Side = usize;

pub const NUM_OF_PIECES: usize = 6;

pub const NUM_OF_PLAYERS: usize = 2;

pub const PAWN: Piece = 0;

pub const ROOK: Piece = 1;

pub const KNIGHT: Piece = 2;

pub const BISHOP: Piece = 3;

pub const QUEEN: Piece = 4;

pub const KING: Piece = 5;

pub const WHITE: Side = 0;

pub const BLACK: Side = 1;

pub const WHITE_QUEENSIDE_CASTLE: usize = 0;

pub const WHITE_KINGSIDE_CASTLE: usize = 1;

pub const BLACK_QUEENSIDE_CASTLE: usize = 2;

pub const BLACK_KINGSIDE_CASTLE: usize = 3;

pub const A1: Square = 0;

pub const C1: Square = 2;

pub const D1: Square = 3;

pub const E1: Square = 4;

pub const F1: Square = 5;

pub const G1: Square = 6;

pub const H1: Square = 7;

pub const A8: Square = 56;

pub const C8: Square = 58;

pub const D8: Square = 59;

pub const E8: Square = 60;

pub const F8: Square = 61;

pub const G8: Square = 62;

pub const H8: Square = 63;

/// One frame of the undo stack: the move made and every scalar the move
/// cannot reconstruct by itself.
#[derive(Copy, Clone)]
#[verifier::ext_equal]
pub struct History {
    pub mv: Move,
    pub fifty_move_rule: usize,
    pub castling_rights: [bool; 4],
    pub zobrist: ZobristHash,
    pub en_passant: Bitboard,
}

#[derive(Clone)]
pub struct GameState {
    pub piece_boards: [[Bitboard; 6]; 2],
    pub plys: usize,
    pub en_passant_board: Bitboard,
    pub castling_rights: [bool; 4],
    pub fifty_move_rule: usize,
    pub zobrist: ZobristHash,
    pub history: Vec<History>,
    pub material: [i64; 2],
    pub material_eg: [i64; 2],
    pub psqt_mg: [i64; 2],
    pub psqt_eg: [i64; 2],
    pub phase: i32,
    pub has_castled: [bool; 2],
    pub search_ply: usize,
}

// ---------------------------------------------------------------------------
// Spec model
// ---------------------------------------------------------------------------

pub open spec fn board_of(boards: [[Bitboard; 6]; 2], side: int, piece: int) -> u64 {
    boards[side][piece].0
}

pub open spec fn side_of(s: GameState) -> int {
    s.plys as int % 2
}

/// Board number `k` of the twelve, in (side, piece) order.
pub open spec fn board_at(boards: [[Bitboard; 6]; 2], k: int) -> u64 {
    board_of(boards, k / 6, k % 6)
}

pub open spec fn keys_at(keys: ZobristKeys, k: int) -> [u64; 64] {
    keys.pieces[k / 6][k % 6]
}

/// XOR-fold of the piece keys of the first `k` boards.
pub open spec fn fold_boards(boards: [[Bitboard; 6]; 2], keys: ZobristKeys, k: int) -> u64
    decreases k,
{
    if k <= 0 {
        0u64
    } else {
        fold_boards(boards, keys, k - 1) ^ zobrist_fold_board(
            board_at(boards, k - 1),
            keys_at(keys, k - 1),
            64,
        )
    }
}

/// The hash a full scan of the position would produce.
pub open spec fn zobrist_of(s: GameState, keys: ZobristKeys) -> u64 {
    ((fold_boards(s.piece_boards, keys, 12) ^ zobrist_fold_rights(
        s.castling_rights,
        keys.castling,
        4,
    ))
        ^ zobrist_ep_contrib(s.en_passant_board.0, keys.en_passant)) ^ (if side_of(s) == 1 {
        keys.side_to_move
    } else {
        0u64
    })
}

/// The incremental hash equals the from-scratch fold.
pub open spec fn hashed(s: GameState, keys: ZobristKeys) -> bool {
    s.zobrist.0 == zobrist_of(s, keys)
}

/// Material sum of the first `p` piece kinds of one side.
pub open spec fn mat_scan(boards: [[Bitboard; 6]; 2], side: int, vals: [i16; 6], p: int) -> int
    decreases p,
{
    if p <= 0 {
        0
    } else {
        mat_scan(boards, side, vals, p - 1) + pop64(board_of(boards, side, p - 1)) * vals[p - 1]
    }
}

/// Mirror a square for the second mover's piece-square lookups.
pub open spec fn mirror_sq(side: int, sq: int) -> int {
    if side == 0 {
        sq
    } else {
        56 - 8 * (sq / 8) + sq % 8
    }
}

/// Piece-square sum of one board over the squares below `n`.
pub open spec fn psqt_fold(b: u64, row: [i16; 64], side: int, n: int) -> int
    decreases n,
{
    if n <= 0 {
        0
    } else {
        psqt_fold(b, row, side, n - 1) + if bit64(b, (n - 1) as u64) {
            row[mirror_sq(side, n - 1)] as int
        } else {
            0
        }
    }
}

/// Piece-square sum of the first `p` piece kinds of one side.
pub open spec fn psqt_scan(
    boards: [[Bitboard; 6]; 2],
    side: int,
    tabs: [[i16; 64]; 6],
    p: int,
) -> int
    decreases p,
{
    if p <= 0 {
        0
    } else {
        psqt_scan(boards, side, tabs, p - 1) + psqt_fold(
            board_of(boards, side, p - 1),
            tabs[p - 1],
            side,
            64,
        )
    }
}

/// Total phase weight of the pieces on the first `k` boards.
pub open spec fn phase_scan(boards: [[Bitboard; 6]; 2], k: int) -> int
    decreases k,
{
    if k <= 0 {
        0
    } else {
        phase_scan(boards, k - 1) + pop64(board_at(boards, k - 1)) * spec_phase_weight((k - 1) % 6)
    }
}

/// Every evaluation accumulator equals the sum a full scan would produce.
pub open spec fn evaled(s: GameState, params: EvalParams) -> bool {
    &&& s.material[0] == mat_scan(s.piece_boards, 0, params.mg_piece_value, 6)
    &&& s.material[1] == mat_scan(s.piece_boards, 1, params.mg_piece_value, 6)
    &&& s.material_eg[0] == mat_scan(s.piece_boards, 0, params.eg_piece_value, 6)
    &&& s.material_eg[1] == mat_scan(s.piece_boards, 1, params.eg_piece_value, 6)
    &&& s.psqt_mg[0] == psqt_scan(s.piece_boards, 0, params.psqt_mg, 6)
    &&& s.psqt_mg[1] == psqt_scan(s.piece_boards, 1, params.psqt_mg, 6)
    &&& s.psqt_eg[0] == psqt_scan(s.piece_boards, 0, params.psqt_eg, 6)
    &&& s.psqt_eg[1] == psqt_scan(s.piece_boards, 1, params.psqt_eg, 6)
    &&& s.phase == -phase_scan(s.piece_boards, 12)
}

// ---------------------------------------------------------------------------
// Bounds on the scans
// ---------------------------------------------------------------------------

pub proof fn lemma_mat_scan_bound(boards: [[Bitboard; 6]; 2], side: int, vals: [i16; 6], p: int)
    requires
        0 <= p <= 6,
    ensures
        -p * 64 * 32768 <= mat_scan(boards, side, vals, p) <= p * 64 * 32768,
    decreases p,
{
    if p > 0 {
        lemma_mat_scan_bound(boards, side, vals, p - 1);
        lemma_count_bound(board_of(boards, side, p - 1), 64);
        let c = pop64(board_of(boards, side, p - 1));
        let v = vals[p - 1] as int;
        assert(-64 * 32768 <= c * v <= 64 * 32768) by (nonlinear_arith)
            requires
                0 <= c <= 64,
                -32768 <= v < 32768,
        ;
    }
}

pub proof fn lemma_psqt_fold_bound(b: u64, row: [i16; 64], side: int, n: int)
    requires
        0 <= n <= 64,
    ensures
        -n * 32768 <= psqt_fold(b, row, side, n) <= n * 32768,
    decreases n,
{
    if n > 0 {
        lemma_psqt_fold_bound(b, row, side, n - 1);
    }
}

pub proof fn lemma_psqt_scan_bound(
    boards: [[Bitboard; 6]; 2],
    side: int,
    tabs: [[i16; 64]; 6],
    p: int,
)
    requires
        0 <= p <= 6,
    ensures
        -p * 64 * 32768 <= psqt_scan(boards, side, tabs, p) <= p * 64 * 32768,
    decreases p,
{
    if p > 0 {
        lemma_psqt_scan_bound(boards, side, tabs, p - 1);
        lemma_psqt_fold_bound(board_of(boards, side, p - 1), tabs[p - 1], side, 64);
    }
}

pub proof fn lemma_phase_scan_bound(boards: [[Bitboard; 6]; 2], k: int)
    requires
        0 <= k <= 12,
    ensures
        0 <= phase_scan(boards, k) <= k * 64 * 4,
    decreases k,
{
    if k > 0 {
        lemma_phase_scan_bound(boards, k - 1);
        lemma_count_bound(board_at(boards, k - 1), 64);
        let c = pop64(board_at(boards, k - 1));
        let w = spec_phase_weight((k - 1) % 6);
        assert(0 <= c * w <= 64 * 4) by (nonlinear_arith)
            requires
                0 <= c <= 64,
                0 <= w <= 4,
        ;
    }
}

// ---------------------------------------------------------------------------
// Update lemmas: toggling one square of one board
// ---------------------------------------------------------------------------

/// How each scan reacts when bit `sq` of board (`side`, `piece`) is toggled
/// and every other board stays the same.
pub proof fn lemma_fold_boards_toggle(
    s1: [[Bitboard; 6]; 2],
    s2: [[Bitboard; 6]; 2],
    keys: ZobristKeys,
    side: int,
    piece: int,
    sq: u64,
    k: int,
)
    requires
        0 <= side < 2,
        0 <= piece < 6,
        sq < 64,
        0 <= k <= 12,
        forall|j: int|
            0 <= j < 12 && j != side * 6 + piece ==> board_at(s2, j) == board_at(s1, j),
        board_at(s2, side * 6 + piece) == board_at(s1, side * 6 + piece) ^ (1u64 << sq),
    ensures
        side * 6 + piece < k ==> fold_boards(s2, keys, k) == fold_boards(s1, keys, k)
            ^ keys.pieces[side][piece][sq as int],
        side * 6 + piece >= k ==> fold_boards(s2, keys, k) == fold_boards(s1, keys, k),
    decreases k,
{
    let idx = side * 6 + piece;
    assert(idx / 6 == side && idx % 6 == piece) by (nonlinear_arith)
        requires
            idx == side * 6 + piece,
            0 <= side < 2,
            0 <= piece < 6,
    ;
    if k > 0 {
        lemma_fold_boards_toggle(s1, s2, keys, side, piece, sq, k - 1);
        let f1 = fold_boards(s1, keys, k - 1);
        let c1 = zobrist_fold_board(board_at(s1, k - 1), keys_at(keys, k - 1), 64);
        let c2 = zobrist_fold_board(board_at(s2, k - 1), keys_at(keys, k - 1), 64);
        if idx == k - 1 {
            assert((k - 1) / 6 == side && (k - 1) % 6 == piece);
            lemma_fold_board_toggle(board_at(s1, k - 1), sq, keys_at(keys, k - 1), 64);
            assert(c2 == c1 ^ keys.pieces[side][piece][sq as int]);
            lemma_xor_shuffle(f1, c1, keys.pieces[side][piece][sq as int]);
            assert(f1 ^ (c1 ^ keys.pieces[side][piece][sq as int]) == (f1 ^ c1)
                ^ keys.pieces[side][piece][sq as int]) by {
                lemma_xor_shuffle(f1, c1, keys.pieces[side][piece][sq as int]);
            }
        } else {
            assert(c1 == c2);
            if idx < k - 1 {
                lemma_xor_shuffle(f1, keys.pieces[side][piece][sq as int], c1);
            }
        }
    }
}

pub proof fn lemma_mat_scan_toggle(
    s1: [[Bitboard; 6]; 2],
    s2: [[Bitboard; 6]; 2],
    side: int,
    piece: int,
    sq: u64,
    vals: [i16; 6],
    p: int,
)
    requires
        0 <= side < 2,
        0 <= piece < 6,
        sq < 64,
        0 <= p <= 6,
        forall|b: int|
            0 <= b < 6 && b != piece ==> #[trigger] board_of(s2, side, b) == board_of(s1, side, b),
        forall|b: int|
            0 <= b < 6 ==> #[trigger] board_of(s2, 1 - side, b) == board_of(s1, 1 - side, b),
        board_of(s2, side, piece) == board_of(s1, side, piece) ^ (1u64 << sq),
    ensures
        piece < p ==> mat_scan(s2, side, vals, p) == mat_scan(s1, side, vals, p) + (if bit64(
            board_of(s1, side, piece),
            sq,
        ) {
            -(vals[piece] as int)
        } else {
            vals[piece] as int
        }),
        piece >= p ==> mat_scan(s2, side, vals, p) == mat_scan(s1, side, vals, p),
        mat_scan(s2, 1 - side, vals, p) == mat_scan(s1, 1 - side, vals, p),
    decreases p,
{
    if p > 0 {
        lemma_mat_scan_toggle(s1, s2, side, piece, sq, vals, p - 1);
        if piece == p - 1 {
            let b1 = board_of(s1, side, piece);
            let b2 = board_of(s2, side, piece);
            lemma_xor_single_bits(b1, sq);
            lemma_count_toggle(b1, b2, sq, 64);
            let c1 = pop64(b1);
            let c2 = pop64(b2);
            let v = vals[piece] as int;
            assert(c2 == c1 + 1 ==> c2 * v == c1 * v + v) by (nonlinear_arith);
            assert(c2 == c1 - 1 ==> c2 * v == c1 * v - v) by (nonlinear_arith);
        }
    }
}

pub proof fn lemma_psqt_fold_toggle(b1: u64, b2: u64, row: [i16; 64], side: int, sq: u64, n: int)
    requires
        sq < 64,
        0 <= n <= 64,
        b2 == b1 ^ (1u64 << sq),
    ensures
        sq < n ==> psqt_fold(b2, row, side, n) == psqt_fold(b1, row, side, n) + (if bit64(b1, sq) {
            -(row[mirror_sq(side, sq as int)] as int)
        } else {
            row[mirror_sq(side, sq as int)] as int
        }),
        sq >= n ==> psqt_fold(b2, row, side, n) == psqt_fold(b1, row, side, n),
    decreases n,
{
    lemma_xor_single_bits(b1, sq);
    if n > 0 {
        lemma_psqt_fold_toggle(b1, b2, row, side, sq, n - 1);
    }
}

pub proof fn lemma_psqt_scan_toggle(
    s1: [[Bitboard; 6]; 2],
    s2: [[Bitboard; 6]; 2],
    side: int,
    piece: int,
    sq: u64,
    tabs: [[i16; 64]; 6],
    p: int,
)
    requires
        0 <= side < 2,
        0 <= piece < 6,
        sq < 64,
        0 <= p <= 6,
        forall|b: int|
            0 <= b < 6 && b != piece ==> #[trigger] board_of(s2, side, b) == board_of(s1, side, b),
        forall|b: int|
            0 <= b < 6 ==> #[trigger] board_of(s2, 1 - side, b) == board_of(s1, 1 - side, b),
        board_of(s2, side, piece) == board_of(s1, side, piece) ^ (1u64 << sq),
    ensures
        piece < p ==> psqt_scan(s2, side, tabs, p) == psqt_scan(s1, side, tabs, p) + (if bit64(
            board_of(s1, side, piece),
            sq,
        ) {
            -(tabs[piece][mirror_sq(side, sq as int)] as int)
        } else {
            tabs[piece][mirror_sq(side, sq as int)] as int
        }),
        piece >= p ==> psqt_scan(s2, side, tabs, p) == psqt_scan(s1, side, tabs, p),
        psqt_scan(s2, 1 - side, tabs, p) == psqt_scan(s1, 1 - side, tabs, p),
    decreases p,
{
    if p > 0 {
        lemma_psqt_scan_toggle(s1, s2, side, piece, sq, tabs, p - 1);
        if piece == p - 1 {
            lemma_psqt_fold_toggle(
                board_of(s1, side, piece),
                board_of(s2, side, piece),
                tabs[piece],
                side,
                sq,
                64,
            );
        }
    }
}

pub proof fn lemma_phase_scan_toggle(
    s1: [[Bitboard; 6]; 2],
    s2: [[Bitboard; 6]; 2],
    side: int,
    piece: int,
    sq: u64,
    k: int,
)
    requires
        0 <= side < 2,
        0 <= piece < 6,
        sq < 64,
        0 <= k <= 12,
        forall|j: int|
            0 <= j < 12 && j != side * 6 + piece ==> board_at(s2, j) == board_at(s1, j),
        board_at(s2, side * 6 + piece) == board_at(s1, side * 6 + piece) ^ (1u64 << sq),
    ensures
        side * 6 + piece < k ==> phase_scan(s2, k) == phase_scan(s1, k) + (if bit64(
            board_at(s1, side * 6 + piece),
            sq,
        ) {
            -spec_phase_weight(piece)
        } else {
            spec_phase_weight(piece)
        }),
        side * 6 + piece >= k ==> phase_scan(s2, k) == phase_scan(s1, k),
    decreases k,
{
    let idx = side * 6 + piece;
    assert(idx / 6 == side && idx % 6 == piece) by (nonlinear_arith)
        requires
            idx == side * 6 + piece,
            0 <= side < 2,
            0 <= piece < 6,
    ;
    if k > 0 {
        lemma_phase_scan_toggle(s1, s2, side, piece, sq, k - 1);
        if idx == k - 1 {
            assert((k - 1) % 6 == piece);
            let b1 = board_at(s1, k - 1);
            let b2 = board_at(s2, k - 1);
            lemma_xor_single_bits(b1, sq);
            lemma_count_toggle(b1, b2, sq, 64);
            let c1 = pop64(b1);
            let c2 = pop64(b2);
            let w = spec_phase_weight(piece);
            assert(c2 == c1 + 1 ==> c2 * w == c1 * w + w) by (nonlinear_arith);
            assert(c2 == c1 - 1 ==> c2 * w == c1 * w - w) by (nonlinear_arith);
        }
    }
}

// ---------------------------------------------------------------------------
// The atomic updates
// ---------------------------------------------------------------------------

impl GameState {
    #[inline(always)]
    pub fn side_to_move(&self) -> (r: Side)
        ensures
            r == side_of(*self),
            r < 2,
    {
        self.plys % 2
    }

    /// Put `piece` of `side` on `square`, updating boards, hash and every
    /// evaluation accumulator together.
    pub fn add_piece(&mut self, square: Square, piece: Piece, side: Side, t: &Tables)
        requires
            square < 64,
            piece < 6,
            side < 2,
            !bit64(board_of(old(self).piece_boards, side as int, piece as int), square as u64),
            evaled(*old(self), t.params),
        ensures
            forall|a: int, b: int|
                0 <= a < 2 && 0 <= b < 6 ==> board_of(final(self).piece_boards, a, b) == (if a == side && b
                    == piece {
                    board_of(old(self).piece_boards, a, b) ^ (1u64 << square as u64)
                } else {
                    board_of(old(self).piece_boards, a, b)
                }),
            final(self).zobrist.0 == old(self).zobrist.0 ^ t.zobrist.pieces[side as int][piece as int][square as int],
            hashed(*old(self), t.zobrist) ==> hashed(*final(self), t.zobrist),
            evaled(*final(self), t.params),
            final(self).plys == old(self).plys,
            final(self).en_passant_board == old(self).en_passant_board,
            final(self).castling_rights == old(self).castling_rights,
            final(self).fifty_move_rule == old(self).fifty_move_rule,
            final(self).history@ == old(self).history@,
            final(self).has_castled == old(self).has_castled,
            final(self).search_ply == old(self).search_ply,
    {
        self.toggle_piece(square, piece, side, t);
    }

    /// Take `piece` of `side` off `square`; the exact inverse of `add_piece`.
    pub fn remove_piece(&mut self, square: Square, piece: Piece, side: Side, t: &Tables)
        requires
            square < 64,
            piece < 6,
            side < 2,
            bit64(board_of(old(self).piece_boards, side as int, piece as int), square as u64),
            evaled(*old(self), t.params),
        ensures
            forall|a: int, b: int|
                0 <= a < 2 && 0 <= b < 6 ==> board_of(final(self).piece_boards, a, b) == (if a == side && b
                    == piece {
                    board_of(old(self).piece_boards, a, b) ^ (1u64 << square as u64)
                } else {
                    board_of(old(self).piece_boards, a, b)
                }),
            final(self).zobrist.0 == old(self).zobrist.0 ^ t.zobrist.pieces[side as int][piece as int][square as int],
            hashed(*old(self), t.zobrist) ==> hashed(*final(self), t.zobrist),
            evaled(*final(self), t.params),
            final(self).plys == old(self).plys,
            final(self).en_passant_board == old(self).en_passant_board,
            final(self).castling_rights == old(self).castling_rights,
            final(self).fifty_move_rule == old(self).fifty_move_rule,
            final(self).history@ == old(self).history@,
            final(self).has_castled == old(self).has_castled,
            final(self).search_ply == old(self).search_ply,
    {
        self.toggle_piece(square, piece, side, t);
    }

    /// Shared body of `add_piece` and `remove_piece`: XOR the square in or
    /// out and shift hash and accumulators by the same feature.
    fn toggle_piece(&mut self, square: Square, piece: Piece, side: Side, t: &Tables)
        requires
            square < 64,
            piece < 6,
            side < 2,
            evaled(*old(self), t.params),
        ensures
            forall|a: int, b: int|
                0 <= a < 2 && 0 <= b < 6 ==> board_of(final(self).piece_boards, a, b) == (if a == side && b
                    == piece {
                    board_of(old(self).piece_boards, a, b) ^ (1u64 << square as u64)
                } else {
                    board_of(old(self).piece_boards, a, b)
                }),
            final(self).zobrist.0 == old(self).zobrist.0 ^ t.zobrist.pieces[side as int][piece as int][square as int],
            hashed(*old(self), t.zobrist) ==> hashed(*final(self), t.zobrist),
            evaled(*final(self), t.params),
            final(self).plys == old(self).plys,
            final(self).en_passant_board == old(self).en_passant_board,
            final(self).castling_rights == old(self).castling_rights,
            final(self).fifty_move_rule == old(self).fifty_move_rule,
            final(self).history@ == old(self).history@,
            final(self).has_castled == old(self).has_castled,
            final(self).search_ply == old(self).search_ply,
    {
        let ghost s1 = *self;
        let was_there = self.piece_boards[side][piece].has(square);
        let mut plane = self.piece_boards[side];
        let mut b = plane[piece];
        b = b.xor(Bitboard(1u64 << (square as u64)));
        plane[piece] = b;
        self.piece_boards[side] = plane;
        self.zobrist.add_piece(square, piece, side, &t.zobrist);
        proof {
            let b1 = s1.piece_boards;
            let b2 = self.piece_boards;
            assert(board_of(b2, side as int, piece as int) == board_of(b1, side as int, piece as int)
                ^ (1u64 << square as u64));
            assert forall|j: int| 0 <= j < 12 && j != side * 6 + piece implies board_at(b2, j)
                == board_at(b1, j) by {
                assert(j / 6 != side || j % 6 != piece);
            }
            lemma_mat_scan_bound(b1, 0, t.params.mg_piece_value, 6);
            lemma_mat_scan_bound(b1, 1, t.params.mg_piece_value, 6);
            lemma_mat_scan_bound(b1, 0, t.params.eg_piece_value, 6);
            lemma_mat_scan_bound(b1, 1, t.params.eg_piece_value, 6);
            lemma_psqt_scan_bound(b1, 0, t.params.psqt_mg, 6);
            lemma_psqt_scan_bound(b1, 1, t.params.psqt_mg, 6);
            lemma_psqt_scan_bound(b1, 0, t.params.psqt_eg, 6);
            lemma_psqt_scan_bound(b1, 1, t.params.psqt_eg, 6);
            lemma_phase_scan_bound(b1, 12);
            lemma_phase_scan_bound(b2, 12);
        }
        let mirrored = if side == WHITE {
            square
        } else {
            56 - 8 * (square / 8) + square % 8
        };
        let v_mg = t.params.mg_piece_value[piece] as i64;
        let v_eg = t.params.eg_piece_value[piece] as i64;
        let q_mg = t.params.psqt_mg[piece][mirrored] as i64;
        let q_eg = t.params.psqt_eg[piece][mirrored] as i64;
        let w = phase_weight(piece);
        let mut mats = self.material;
        let mut mats_eg = self.material_eg;
        let mut pm = self.psqt_mg;
        let mut pe = self.psqt_eg;
        if was_there {
            mats[side] = mats[side] - v_mg;
            mats_eg[side] = mats_eg[side] - v_eg;
            pm[side] = pm[side] - q_mg;
            pe[side] = pe[side] - q_eg;
            self.phase = self.phase + w;
        } else {
            mats[side] = mats[side] + v_mg;
            mats_eg[side] = mats_eg[side] + v_eg;
            pm[side] = pm[side] + q_mg;
            pe[side] = pe[side] + q_eg;
            self.phase = self.phase - w;
        }
        self.material = mats;
        self.material_eg = mats_eg;
        self.psqt_mg = pm;
        self.psqt_eg = pe;
        proof {
            let b1 = s1.piece_boards;
            let b2 = self.piece_boards;
            let sidei = side as int;
            let piecei = piece as int;
            let sqb = square as u64;
            lemma_fold_boards_toggle(b1, b2, t.zobrist, sidei, piecei, sqb, 12);
            lemma_xor_pull(
                fold_boards(b1, t.zobrist, 12),
                t.zobrist.pieces[sidei][piecei][square as int],
                zobrist_fold_rights(s1.castling_rights, t.zobrist.castling, 4),
                zobrist_ep_contrib(s1.en_passant_board.0, t.zobrist.en_passant),
                if side_of(s1) == 1 {
                    t.zobrist.side_to_move
                } else {
                    0u64
                },
            );
            lemma_mat_scan_toggle(b1, b2, sidei, piecei, sqb, t.params.mg_piece_value, 6);
            lemma_mat_scan_toggle(b1, b2, sidei, piecei, sqb, t.params.eg_piece_value, 6);
            lemma_psqt_scan_toggle(b1, b2, sidei, piecei, sqb, t.params.psqt_mg, 6);
            lemma_psqt_scan_toggle(b1, b2, sidei, piecei, sqb, t.params.psqt_eg, 6);
            lemma_phase_scan_toggle(b1, b2, sidei, piecei, sqb, 12);
            assert(mirrored as int == mirror_sq(sidei, square as int));
        }
    }
}


// ---------------------------------------------------------------------------
// Moves as state transformers
// ---------------------------------------------------------------------------

/// Square of the pawn a double push steps over, and of the pawn an
/// en-passant capture removes.
pub open spec fn behind_sq(our: int, to: int) -> int {
    if our == 0 {
        to - 8
    } else {
        to + 8
    }
}

pub open spec fn castle_rook_from(our: int, cs: CastlingSide) -> int {
    if our == 0 {
        if cs is QueenSide { 0int } else { 7int }
    } else {
        if cs is QueenSide { 56int } else { 63int }
    }
}

pub open spec fn castle_rook_to(our: int, cs: CastlingSide) -> int {
    if our == 0 {
        if cs is QueenSide { 3int } else { 5int }
    } else {
        if cs is QueenSide { 59int } else { 61int }
    }
}

pub open spec fn castle_king_from(our: int) -> int {
    if our == 0 { 4int } else { 60int }
}

pub open spec fn castle_king_to(our: int, cs: CastlingSide) -> int {
    if our == 0 {
        if cs is QueenSide { 2int } else { 6int }
    } else {
        if cs is QueenSide { 58int } else { 62int }
    }
}

/// No board holds the square.
pub open spec fn sq_unoccupied(boards: [[Bitboard; 6]; 2], i: int) -> bool {
    forall|a: int, b: int|
        0 <= a < 2 && 0 <= b < 6 ==> !bit64(#[trigger] board_of(boards, a, b), i as u64)
}

/// No board but (`xa`, `xb`) holds the square.
pub open spec fn sq_only(boards: [[Bitboard; 6]; 2], i: int, xa: int, xb: int) -> bool {
    forall|a: int, b: int|
        0 <= a < 2 && 0 <= b < 6 && (a != xa || b != xb) ==> !bit64(
            #[trigger] board_of(boards, a, b),
            i as u64,
        )
}

/// The XOR masks a move applies to board (`a`, `b`), shared by make and
/// unmake: applying them twice is the identity.
pub open spec fn board_toggles(m: u32, our: int, a: int, b: int, base: u64) -> u64 {
    let enemy = 1 - our;
    let from = mv_from(m) as int;
    let to = mv_to(m) as int;
    let base1 = if mv_is_capture(m) {
        if mv_is_en_passant(m) {
            if a == enemy && b == 0 {
                base ^ (1u64 << behind_sq(our, to) as u64)
            } else {
                base
            }
        } else {
            if a == enemy && b == mv_captured(m) {
                base ^ (1u64 << to as u64)
            } else {
                base
            }
        }
    } else {
        base
    };
    if mv_is_promotion(m) {
        if a == our && b == 0 {
            base1 ^ (1u64 << from as u64)
        } else if a == our && b == mv_promoted(m) {
            base1 ^ (1u64 << to as u64)
        } else {
            base1
        }
    } else if mv_castle_side(m) is Some {
        let cs = mv_castle_side(m)->0;
        if a == our && b == 1 {
            (base1 ^ (1u64 << castle_rook_from(our, cs) as u64)) ^ (1u64 << castle_rook_to(
                our,
                cs,
            ) as u64)
        } else if a == our && b == 5 {
            (base1 ^ (1u64 << castle_king_from(our) as u64)) ^ (1u64 << castle_king_to(
                our,
                cs,
            ) as u64)
        } else {
            base1
        }
    } else {
        if a == our && b == mv_moving(m) {
            (base1 ^ (1u64 << from as u64)) ^ (1u64 << to as u64)
        } else {
            base1
        }
    }
}

pub open spec fn board_after(s: GameState, m: u32, a: int, b: int) -> u64 {
    board_toggles(m, side_of(s), a, b, board_of(s.piece_boards, a, b))
}

/// Whether the move strips castling right `i`.
pub open spec fn right_removed(s: GameState, m: u32, i: int) -> bool {
    let our = side_of(s);
    let from = mv_from(m) as int;
    let to = mv_to(m) as int;
    let capture_strip = mv_is_capture(m) && !mv_is_en_passant(m) && mv_captured(m) == 1 && (if our
        == 0 {
        (to == 56 && i == 2) || (to == 63 && i == 3)
    } else {
        (to == 0 && i == 0) || (to == 7 && i == 1)
    });
    let move_strip = if mv_is_promotion(m) {
        false
    } else if mv_castle_side(m) is Some {
        i / 2 == our
    } else if mv_moving(m) == 5 {
        i / 2 == our
    } else if mv_moving(m) == 1 {
        if our == 0 {
            (from == 0 && i == 0) || (from == 7 && i == 1)
        } else {
            (from == 56 && i == 2) || (from == 63 && i == 3)
        }
    } else {
        false
    };
    capture_strip || move_strip
}

pub open spec fn rights_after(s: GameState, m: u32, i: int) -> bool {
    s.castling_rights[i] && !right_removed(s, m, i)
}

pub open spec fn ep_after(s: GameState, m: u32) -> u64 {
    if !mv_is_promotion(m) && mv_castle_side(m) is None && mv_is_double_push(m) {
        1u64 << behind_sq(side_of(s), mv_to(m) as int) as u64
    } else {
        0u64
    }
}

pub open spec fn fifty_after(s: GameState, m: u32) -> int {
    if mv_is_capture(m) || mv_is_promotion(m) || (mv_castle_side(m) is None && mv_moving(m) == 0) {
        0
    } else {
        s.fifty_move_rule + 1
    }
}

/// The history frame a move pushes.
pub open spec fn frame_of(s: GameState, m: Move) -> History {
    History {
        mv: m,
        fifty_move_rule: s.fifty_move_rule,
        castling_rights: s.castling_rights,
        zobrist: s.zobrist,
        en_passant: s.en_passant_board,
    }
}

/// Room left in the counters; a machine limit, far beyond any real game.
pub open spec fn has_room(s: GameState) -> bool {
    &&& s.history@.len() < 0x40000000
    &&& s.plys <= s.history@.len() + 1
    &&& s.search_ply <= s.history@.len() + 1
    &&& s.fifty_move_rule <= s.history@.len() + 100000
}

/// Coherence of a move with the position: the pieces it speaks of stand
/// where it says, and its destination is free. Everything make/unmake needs;
/// legality is checked separately, by apply-and-test.
pub open spec fn move_ok(s: GameState, m: u32) -> bool {
    let our = side_of(s);
    let enemy = 1 - our;
    let from = mv_from(m) as int;
    let to = mv_to(m) as int;
    let mov = mv_moving(m) as int;
    let boards = s.piece_boards;
    &&& m != 0
    &&& has_room(s)
    &&& from < 64
    &&& to < 64
    &&& if mv_castle_side(m) is Some {
        let cs = mv_castle_side(m)->0;
        &&& mov == 5
        &&& !mv_is_capture(m)
        &&& !mv_is_promotion(m)
        &&& from == castle_king_from(our)
        &&& to == castle_king_to(our, cs)
        &&& s.castling_rights[if our == 0 {
            if cs is QueenSide { 0int } else { 1int }
        } else {
            if cs is QueenSide { 2int } else { 3int }
        }]
        &&& !s.has_castled[our]
        &&& bit64(board_of(boards, our, 5), castle_king_from(our) as u64)
        &&& bit64(board_of(boards, our, 1), castle_rook_from(our, cs) as u64)
        &&& sq_unoccupied(boards, castle_rook_to(our, cs))
        &&& sq_unoccupied(boards, castle_king_to(our, cs))
        &&& (cs is QueenSide ==> sq_unoccupied(boards, castle_king_from(our) - 3))
    } else if mv_is_en_passant(m) {
        &&& mov == 0
        &&& mv_captured(m) == 0
        &&& mv_is_capture(m)
        &&& !mv_is_promotion(m)
        &&& s.en_passant_board.0 == (1u64 << to as u64)
        &&& (if our == 0 { 40 <= to < 48 } else { 16 <= to < 24 })
        &&& (from == to - 7 || from == to - 9 || from == to + 7 || from == to + 9)
        &&& from != behind_sq(our, to)
        &&& bit64(board_of(boards, our, 0), from as u64)
        &&& bit64(board_of(boards, enemy, 0), behind_sq(our, to) as u64)
        &&& sq_unoccupied(boards, to)
    } else if mv_is_promotion(m) {
        &&& mov == 0
        &&& from != to
        &&& 1 <= mv_promoted(m) <= 4
        &&& bit64(board_of(boards, our, 0), from as u64)
        &&& (if mv_is_capture(m) {
            &&& mv_captured(m) < 5
            &&& bit64(board_of(boards, enemy, mv_captured(m) as int), to as u64)
            &&& sq_only(boards, to, enemy, mv_captured(m) as int)
        } else {
            sq_unoccupied(boards, to)
        })
    } else {
        &&& mov < 6
        &&& from != to
        &&& bit64(board_of(boards, our, mov), from as u64)
        &&& (if mv_is_capture(m) {
            &&& mv_captured(m) < 5
            &&& bit64(board_of(boards, enemy, mv_captured(m) as int), to as u64)
            &&& sq_only(boards, to, enemy, mv_captured(m) as int)
        } else {
            sq_unoccupied(boards, to)
        })
        &&& (mv_is_double_push(m) ==> {
            &&& mov == 0
            &&& !mv_is_capture(m)
            &&& (if our == 0 {
                8 <= from < 16 && to == from + 16
            } else {
                48 <= from < 56 && to == from - 16
            })
            &&& sq_unoccupied(boards, behind_sq(our, to))
        })
    }
}

/// The full pointwise description of the state a move produces.
pub open spec fn is_make_of(s2: GameState, s: GameState, m: Move) -> bool {
    &&& s2.history@ == s.history@.push(frame_of(s, m))
    &&& s2.plys == s.plys + 1
    &&& s2.search_ply == s.search_ply + 1
    &&& s2.fifty_move_rule == fifty_after(s, m.0)
    &&& s2.en_passant_board.0 == ep_after(s, m.0)
    &&& (forall|i: int| 0 <= i < 4 ==> s2.castling_rights[i] == rights_after(s, m.0, i))
    &&& (forall|a: int, b: int|
        0 <= a < 2 && 0 <= b < 6 ==> board_of(s2.piece_boards, a, b) == board_after(s, m.0, a, b))
    &&& (forall|a: int|
        0 <= a < 2 ==> s2.has_castled[a] == (s.has_castled[a] || (mv_castle_side(m.0) is Some && a
            == side_of(s))))
}

/// What unmaking needs of the state it is called on.
pub open spec fn undo_ok(s2: GameState) -> bool {
    let len = s2.history@.len();
    &&& len >= 1
    &&& s2.plys >= 1
    &&& s2.search_ply >= 1
    &&& {
        let f = s2.history@.last();
        let m = f.mv.0;
        let mover = (s2.plys - 1) as int % 2;
        let enemy = 1 - mover;
        let from = mv_from(m) as int;
        let to = mv_to(m) as int;
        let mov = mv_moving(m) as int;
        let boards = s2.piece_boards;
        &&& m != 0
        &&& from < 64
        &&& to < 64
        &&& if mv_castle_side(m) is Some {
            let cs = mv_castle_side(m)->0;
            &&& bit64(board_of(boards, mover, 5), castle_king_to(mover, cs) as u64)
            &&& !bit64(board_of(boards, mover, 5), castle_king_from(mover) as u64)
            &&& bit64(board_of(boards, mover, 1), castle_rook_to(mover, cs) as u64)
            &&& !bit64(board_of(boards, mover, 1), castle_rook_from(mover, cs) as u64)
        } else if mv_is_en_passant(m) {
            &&& mov == 0
            &&& behind_sq(mover, to) < 64
            &&& 0 <= behind_sq(mover, to)
            &&& bit64(board_of(boards, mover, 0), to as u64)
            &&& !bit64(board_of(boards, mover, 0), from as u64)
            &&& !bit64(board_of(boards, enemy, 0), behind_sq(mover, to) as u64)
        } else if mv_is_promotion(m) {
            &&& mov == 0
            &&& 1 <= mv_promoted(m) <= 4
            &&& from != to
            &&& bit64(board_of(boards, mover, mv_promoted(m) as int), to as u64)
            &&& !bit64(board_of(boards, mover, 0), from as u64)
            &&& (mv_is_capture(m) ==> mv_captured(m) < 5 && !bit64(
                board_of(boards, enemy, mv_captured(m) as int),
                to as u64,
            ))
        } else {
            &&& mov < 6
            &&& from != to
            &&& bit64(board_of(boards, mover, mov), to as u64)
            &&& !bit64(board_of(boards, mover, mov), from as u64)
            &&& (mv_is_capture(m) ==> mv_captured(m) < 5 && !bit64(
                board_of(boards, enemy, mv_captured(m) as int),
                to as u64,
            ))
        }
    }
}

/// The full pointwise description of the state unmaking produces.
pub open spec fn is_unmake_of(s3: GameState, s2: GameState) -> bool {
    let f = s2.history@.last();
    let m = f.mv.0;
    let mover = (s2.plys - 1) as int % 2;
    &&& s3.history@ == s2.history@.drop_last()
    &&& s3.plys == s2.plys - 1
    &&& s3.search_ply == s2.search_ply - 1
    &&& s3.fifty_move_rule == f.fifty_move_rule
    &&& s3.castling_rights == f.castling_rights
    &&& s3.en_passant_board == f.en_passant
    &&& s3.zobrist == f.zobrist
    &&& (forall|a: int, b: int|
        0 <= a < 2 && 0 <= b < 6 ==> board_of(s3.piece_boards, a, b) == board_toggles(
            m,
            mover,
            a,
            b,
            board_of(s2.piece_boards, a, b),
        ))
    &&& (forall|a: int|
        0 <= a < 2 ==> s3.has_castled[a] == (if mv_castle_side(m) is Some && a == mover {
            false
        } else {
            s2.has_castled[a]
        }))
}


/// The evaluation accumulators of two states agree.
pub open spec fn accums_eq(a: GameState, b: GameState) -> bool {
    &&& a.material == b.material
    &&& a.material_eg == b.material_eg
    &&& a.psqt_mg == b.psqt_mg
    &&& a.psqt_eg == b.psqt_eg
    &&& a.phase == b.phase
}

impl GameState {
    /// Grant a castling right (hashing it in if it was absent).
    pub fn add_castling_right(&mut self, right: usize, t: &Tables)
        requires
            right < 4,
        ensures
            forall|i: int|
                0 <= i < 4 ==> final(self).castling_rights[i] == (if i == right {
                    true
                } else {
                    old(self).castling_rights[i]
                }),
            hashed(*old(self), t.zobrist) ==> hashed(*final(self), t.zobrist),
            final(self).piece_boards == old(self).piece_boards,
            final(self).plys == old(self).plys,
            final(self).en_passant_board == old(self).en_passant_board,
            final(self).fifty_move_rule == old(self).fifty_move_rule,
            final(self).history@ == old(self).history@,
            final(self).has_castled == old(self).has_castled,
            final(self).search_ply == old(self).search_ply,
            accums_eq(*final(self), *old(self)),
    {
        if !self.castling_rights[right] {
            self.toggle_castling_right(right, t);
        }
    }

    /// Withdraw a castling right (hashing it out if it was held).
    pub fn remove_castling_right(&mut self, right: usize, t: &Tables)
        requires
            right < 4,
        ensures
            forall|i: int|
                0 <= i < 4 ==> final(self).castling_rights[i] == (if i == right {
                    false
                } else {
                    old(self).castling_rights[i]
                }),
            hashed(*old(self), t.zobrist) ==> hashed(*final(self), t.zobrist),
            final(self).piece_boards == old(self).piece_boards,
            final(self).plys == old(self).plys,
            final(self).en_passant_board == old(self).en_passant_board,
            final(self).fifty_move_rule == old(self).fifty_move_rule,
            final(self).history@ == old(self).history@,
            final(self).has_castled == old(self).has_castled,
            final(self).search_ply == old(self).search_ply,
            accums_eq(*final(self), *old(self)),
    {
        if self.castling_rights[right] {
            self.toggle_castling_right(right, t);
        }
    }

    /// Flip one castling right together with its hash key.
    fn toggle_castling_right(&mut self, right: usize, t: &Tables)
        requires
            right < 4,
        ensures
            forall|i: int|
                0 <= i < 4 ==> final(self).castling_rights[i] == (if i == right {
                    !old(self).castling_rights[i]
                } else {
                    old(self).castling_rights[i]
                }),
            hashed(*old(self), t.zobrist) ==> hashed(*final(self), t.zobrist),
            final(self).piece_boards == old(self).piece_boards,
            final(self).plys == old(self).plys,
            final(self).en_passant_board == old(self).en_passant_board,
            final(self).fifty_move_rule == old(self).fifty_move_rule,
            final(self).history@ == old(self).history@,
            final(self).has_castled == old(self).has_castled,
            final(self).search_ply == old(self).search_ply,
            accums_eq(*final(self), *old(self)),
    {
        let ghost s1 = *self;
        let mut rights = self.castling_rights;
        rights[right] = !rights[right];
        self.castling_rights = rights;
        self.zobrist.add_castling_right(right, &t.zobrist);
        proof {
            let keys = t.zobrist;
            let k = keys.castling[right as int];
            lemma_fold_rights_toggle(
                s1.castling_rights,
                self.castling_rights,
                right as int,
                keys.castling,
                4,
            );
            let fb = fold_boards(s1.piece_boards, keys, 12);
            let r1 = zobrist_fold_rights(s1.castling_rights, keys.castling, 4);
            let e = zobrist_ep_contrib(s1.en_passant_board.0, keys.en_passant);
            let sd = if side_of(s1) == 1 {
                keys.side_to_move
            } else {
                0u64
            };
            assert(fb ^ (r1 ^ k) == (fb ^ r1) ^ k) by {
                lemma_xor_shuffle(fb, r1, k);
            }
            crate::bits::lemma_xor_pull2(fb ^ r1, k, e, sd);
        }
    }

    /// Clear the en-passant board, hashing its square out if one was set.
    pub fn clear_en_passant(&mut self, t: &Tables)
        requires
        ensures
            final(self).en_passant_board.0 == 0,
            hashed(*old(self), t.zobrist) ==> hashed(*final(self), t.zobrist),
            final(self).piece_boards == old(self).piece_boards,
            final(self).plys == old(self).plys,
            final(self).castling_rights == old(self).castling_rights,
            final(self).fifty_move_rule == old(self).fifty_move_rule,
            final(self).history@ == old(self).history@,
            final(self).has_castled == old(self).has_castled,
            final(self).search_ply == old(self).search_ply,
            accums_eq(*final(self), *old(self)),
    {
        let ghost s1 = *self;
        if self.en_passant_board.is_filled() {
            let e = self.en_passant_board.next_piece_index();
            self.zobrist.remove_en_passant_square(e, &t.zobrist);
            self.en_passant_board = Bitboard(0);
            proof {
                let keys = t.zobrist;
                let k = keys.en_passant[e as int];
                let fr = fold_boards(s1.piece_boards, keys, 12) ^ zobrist_fold_rights(
                    s1.castling_rights,
                    keys.castling,
                    4,
                );
                let sd = if side_of(s1) == 1 {
                    keys.side_to_move
                } else {
                    0u64
                };
                assert(zobrist_ep_contrib(s1.en_passant_board.0, keys.en_passant) == k);
                assert(((fr ^ k) ^ sd) ^ k == (fr ^ 0u64) ^ sd) by {
                    lemma_xor_shuffle(fr, k, sd);
                    lemma_xor_shuffle(fr ^ sd, k, 0u64);
                    lemma_xor_shuffle(fr, 0u64, sd);
                }
            }
        }
    }

    /// Set the en-passant board to a single square, hashing it in.
    fn set_en_passant(&mut self, square: Square, t: &Tables)
        requires
            square < 64,
            old(self).en_passant_board.0 == 0,
        ensures
            final(self).en_passant_board.0 == (1u64 << square as u64),
            hashed(*old(self), t.zobrist) ==> hashed(*final(self), t.zobrist),
            final(self).piece_boards == old(self).piece_boards,
            final(self).plys == old(self).plys,
            final(self).castling_rights == old(self).castling_rights,
            final(self).fifty_move_rule == old(self).fifty_move_rule,
            final(self).history@ == old(self).history@,
            final(self).has_castled == old(self).has_castled,
            final(self).search_ply == old(self).search_ply,
            accums_eq(*final(self), *old(self)),
    {
        let ghost s1 = *self;
        self.en_passant_board = Bitboard::square(square);
        self.zobrist.add_en_passant_square(square, &t.zobrist);
        proof {
            let keys = t.zobrist;
            let b = 1u64 << square as u64;
            assert(b != 0 && (b >> (square as u64)) & 1 == 1) by (bit_vector)
                requires
                    b == 1u64 << square as u64,
                    square < 64,
            ;
            vstd::std_specs::bits::axiom_u64_trailing_zeros(b);
            let tz = vstd::std_specs::bits::u64_trailing_zeros(b);
            assert(bit64(b, tz as u64));
            assert(tz == square as u64) by {
                crate::bits::lemma_bit_single(square as u64, tz as u64);
            }
            let k = keys.en_passant[square as int];
            let fr = fold_boards(s1.piece_boards, keys, 12) ^ zobrist_fold_rights(
                s1.castling_rights,
                keys.castling,
                4,
            );
            let sd = if side_of(s1) == 1 {
                keys.side_to_move
            } else {
                0u64
            };
            assert(((fr ^ 0u64) ^ sd) ^ k == (fr ^ k) ^ sd) by {
                lemma_xor_shuffle(fr, 0u64, sd);
                lemma_xor_shuffle(fr, k, sd);
            }
        }
    }

    /// Advance the ply count by one and flip the side-to-move key.
    fn bump_ply_and_flip(&mut self, t: &Tables)
        requires
            old(self).plys < 0x7FFFFFFF,
        ensures
            final(self).plys == old(self).plys + 1,
            hashed(*old(self), t.zobrist) ==> hashed(*final(self), t.zobrist),
            final(self).piece_boards == old(self).piece_boards,
            final(self).en_passant_board == old(self).en_passant_board,
            final(self).castling_rights == old(self).castling_rights,
            final(self).fifty_move_rule == old(self).fifty_move_rule,
            final(self).history@ == old(self).history@,
            final(self).has_castled == old(self).has_castled,
            final(self).search_ply == old(self).search_ply,
            accums_eq(*final(self), *old(self)),
    {
        let ghost s1 = *self;
        self.plys = self.plys + 1;
        self.zobrist.flip_side_to_move(&t.zobrist);
        proof {
            let keys = t.zobrist;
            let k = keys.side_to_move;
            let fre = (fold_boards(s1.piece_boards, keys, 12) ^ zobrist_fold_rights(
                s1.castling_rights,
                keys.castling,
                4,
            )) ^ zobrist_ep_contrib(s1.en_passant_board.0, keys.en_passant);
            assert(side_of(*self) == 1 - side_of(s1));
            if side_of(s1) == 1 {
                assert((fre ^ k) ^ k == fre ^ 0u64) by {
                    lemma_xor_shuffle(fre, k, 0u64);
                }
            } else {
                assert((fre ^ 0u64) ^ k == fre ^ k) by {
                    lemma_xor_shuffle(fre, k, 0u64);
                }
            }
        }
    }

    /// Move one piece of one side between two squares.
    fn move_piece(&mut self, from: Square, to: Square, piece: Piece, side: Side, t: &Tables)
        requires
            from < 64,
            to < 64,
            from != to,
            piece < 6,
            side < 2,
            bit64(board_of(old(self).piece_boards, side as int, piece as int), from as u64),
            !bit64(board_of(old(self).piece_boards, side as int, piece as int), to as u64),
            evaled(*old(self), t.params),
        ensures
            forall|a: int, b: int|
                0 <= a < 2 && 0 <= b < 6 ==> board_of(final(self).piece_boards, a, b) == (if a
                    == side && b == piece {
                    (board_of(old(self).piece_boards, a, b) ^ (1u64 << from as u64)) ^ (1u64
                        << to as u64)
                } else {
                    board_of(old(self).piece_boards, a, b)
                }),
            hashed(*old(self), t.zobrist) ==> hashed(*final(self), t.zobrist),
            evaled(*final(self), t.params),
            final(self).plys == old(self).plys,
            final(self).en_passant_board == old(self).en_passant_board,
            final(self).castling_rights == old(self).castling_rights,
            final(self).fifty_move_rule == old(self).fifty_move_rule,
            final(self).history@ == old(self).history@,
            final(self).has_castled == old(self).has_castled,
            final(self).search_ply == old(self).search_ply,
    {
        proof {
            lemma_xor_single_bits(
                board_of(old(self).piece_boards, side as int, piece as int),
                from as u64,
            );
        }
        self.remove_piece(from, piece, side, t);
        self.add_piece(to, piece, side, t);
    }
}


/// The opponent of a side.
#[inline(always)]
pub fn other_side(side: Side) -> (r: Side)
    requires
        side < 2,
    ensures
        r == 1 - side as int,
{
    if side == 0 {
        1
    } else {
        0
    }
}

impl GameState {
    /// Strip an enemy castling right when one of its rooks is captured on
    /// its home corner.
    fn handle_rook_capture(&mut self, to: Square, our_side: Side, t: &Tables)
        requires
            to < 64,
            our_side < 2,
        ensures
            forall|i: int|
                0 <= i < 4 ==> final(self).castling_rights[i] == (old(self).castling_rights[i] && !(
                if our_side == 0 {
                    (to == 56 && i == 2) || (to == 63 && i == 3)
                } else {
                    (to == 0 && i == 0) || (to == 7 && i == 1)
                })),
            hashed(*old(self), t.zobrist) ==> hashed(*final(self), t.zobrist),
            final(self).piece_boards == old(self).piece_boards,
            final(self).plys == old(self).plys,
            final(self).en_passant_board == old(self).en_passant_board,
            final(self).fifty_move_rule == old(self).fifty_move_rule,
            final(self).history@ == old(self).history@,
            final(self).has_castled == old(self).has_castled,
            final(self).search_ply == old(self).search_ply,
            accums_eq(*final(self), *old(self)),
    {
        if our_side == WHITE {
            if to == A8 {
                self.remove_castling_right(BLACK_QUEENSIDE_CASTLE, t);
            } else if to == H8 {
                self.remove_castling_right(BLACK_KINGSIDE_CASTLE, t);
            }
        } else if to == A1 {
            self.remove_castling_right(WHITE_QUEENSIDE_CASTLE, t);
        } else if to == H1 {
            self.remove_castling_right(WHITE_KINGSIDE_CASTLE, t);
        }
    }

    /// Strip both castling rights of the side whose king moved.
    fn handle_king_move(&mut self, our_side: Side, t: &Tables)
        requires
            our_side < 2,
        ensures
            forall|i: int|
                0 <= i < 4 ==> final(self).castling_rights[i] == (old(self).castling_rights[i] && i
                    / 2 != our_side),
            hashed(*old(self), t.zobrist) ==> hashed(*final(self), t.zobrist),
            final(self).piece_boards == old(self).piece_boards,
            final(self).plys == old(self).plys,
            final(self).en_passant_board == old(self).en_passant_board,
            final(self).fifty_move_rule == old(self).fifty_move_rule,
            final(self).history@ == old(self).history@,
            final(self).has_castled == old(self).has_castled,
            final(self).search_ply == old(self).search_ply,
            accums_eq(*final(self), *old(self)),
    {
        if our_side == WHITE {
            self.remove_castling_right(WHITE_KINGSIDE_CASTLE, t);
            self.remove_castling_right(WHITE_QUEENSIDE_CASTLE, t);
        } else {
            self.remove_castling_right(BLACK_KINGSIDE_CASTLE, t);
            self.remove_castling_right(BLACK_QUEENSIDE_CASTLE, t);
        }
    }

    /// Strip the castling right of a rook leaving its home corner.
    fn handle_rook_move(&mut self, from: Square, our_side: Side, t: &Tables)
        requires
            from < 64,
            our_side < 2,
        ensures
            forall|i: int|
                0 <= i < 4 ==> final(self).castling_rights[i] == (old(self).castling_rights[i] && !(
                if our_side == 0 {
                    (from == 0 && i == 0) || (from == 7 && i == 1)
                } else {
                    (from == 56 && i == 2) || (from == 63 && i == 3)
                })),
            hashed(*old(self), t.zobrist) ==> hashed(*final(self), t.zobrist),
            final(self).piece_boards == old(self).piece_boards,
            final(self).plys == old(self).plys,
            final(self).en_passant_board == old(self).en_passant_board,
            final(self).fifty_move_rule == old(self).fifty_move_rule,
            final(self).history@ == old(self).history@,
            final(self).has_castled == old(self).has_castled,
            final(self).search_ply == old(self).search_ply,
            accums_eq(*final(self), *old(self)),
    {
        if our_side == WHITE {
            if from == A1 {
                self.remove_castling_right(WHITE_QUEENSIDE_CASTLE, t);
            } else if from == H1 {
                self.remove_castling_right(WHITE_KINGSIDE_CASTLE, t);
            }
        } else if from == A8 {
            self.remove_castling_right(BLACK_QUEENSIDE_CASTLE, t);
        } else if from == H8 {
            self.remove_castling_right(BLACK_KINGSIDE_CASTLE, t);
        }
    }

    /// Clock and castling-right consequences of the moving piece itself.
    fn handle_castling_right_removing_moves(
        &mut self,
        from: Square,
        moving_piece: Piece,
        our_side: Side,
        t: &Tables,
    )
        requires
            from < 64,
            moving_piece < 6,
            our_side < 2,
        ensures
            forall|i: int|
                0 <= i < 4 ==> final(self).castling_rights[i] == (old(self).castling_rights[i] && !(
                if moving_piece == 5 {
                    i / 2 == our_side
                } else if moving_piece == 1 {
                    if our_side == 0 {
                        (from == 0 && i == 0) || (from == 7 && i == 1)
                    } else {
                        (from == 56 && i == 2) || (from == 63 && i == 3)
                    }
                } else {
                    false
                })),
            final(self).fifty_move_rule == (if moving_piece == 0 {
                0int
            } else {
                old(self).fifty_move_rule as int
            }),
            hashed(*old(self), t.zobrist) ==> hashed(*final(self), t.zobrist),
            final(self).piece_boards == old(self).piece_boards,
            final(self).plys == old(self).plys,
            final(self).en_passant_board == old(self).en_passant_board,
            final(self).history@ == old(self).history@,
            final(self).has_castled == old(self).has_castled,
            final(self).search_ply == old(self).search_ply,
            accums_eq(*final(self), *old(self)),
    {
        if moving_piece == PAWN {
            self.fifty_move_rule = 0;
        } else if moving_piece == KING {
            self.handle_king_move(our_side, t);
        } else if moving_piece == ROOK {
            self.handle_rook_move(from, our_side, t);
        }
    }

    /// Take the opponent pawn an en-passant capture removes off the board.
    fn remove_en_passant_pawn(&mut self, to: Square, our_side: Side, t: &Tables)
        requires
            to < 64,
            our_side < 2,
            0 <= behind_sq(our_side as int, to as int) < 64,
            bit64(
                board_of(old(self).piece_boards, 1 - our_side as int, 0),
                behind_sq(our_side as int, to as int) as u64,
            ),
            evaled(*old(self), t.params),
        ensures
            forall|a: int, b: int|
                0 <= a < 2 && 0 <= b < 6 ==> board_of(final(self).piece_boards, a, b) == (if a == 1
                    - our_side as int && b == 0 {
                    board_of(old(self).piece_boards, a, b) ^ (1u64 << behind_sq(
                        our_side as int,
                        to as int,
                    ) as u64)
                } else {
                    board_of(old(self).piece_boards, a, b)
                }),
            hashed(*old(self), t.zobrist) ==> hashed(*final(self), t.zobrist),
            evaled(*final(self), t.params),
            final(self).plys == old(self).plys,
            final(self).en_passant_board == old(self).en_passant_board,
            final(self).castling_rights == old(self).castling_rights,
            final(self).fifty_move_rule == old(self).fifty_move_rule,
            final(self).history@ == old(self).history@,
            final(self).has_castled == old(self).has_castled,
            final(self).search_ply == old(self).search_ply,
    {
        let enemy = other_side(our_side);
        if our_side == WHITE {
            self.remove_piece(to - 8, PAWN, enemy, t);
        } else {
            self.remove_piece(to + 8, PAWN, enemy, t);
        }
    }

    /// Put the opponent pawn an en-passant capture removed back.
    fn re_add_en_passant_pawn(&mut self, to: Square, our_side: Side, t: &Tables)
        requires
            to < 64,
            our_side < 2,
            0 <= behind_sq(our_side as int, to as int) < 64,
            !bit64(
                board_of(old(self).piece_boards, 1 - our_side as int, 0),
                behind_sq(our_side as int, to as int) as u64,
            ),
            evaled(*old(self), t.params),
        ensures
            forall|a: int, b: int|
                0 <= a < 2 && 0 <= b < 6 ==> board_of(final(self).piece_boards, a, b) == (if a == 1
                    - our_side as int && b == 0 {
                    board_of(old(self).piece_boards, a, b) ^ (1u64 << behind_sq(
                        our_side as int,
                        to as int,
                    ) as u64)
                } else {
                    board_of(old(self).piece_boards, a, b)
                }),
            hashed(*old(self), t.zobrist) ==> hashed(*final(self), t.zobrist),
            evaled(*final(self), t.params),
            final(self).plys == old(self).plys,
            final(self).en_passant_board == old(self).en_passant_board,
            final(self).castling_rights == old(self).castling_rights,
            final(self).fifty_move_rule == old(self).fifty_move_rule,
            final(self).history@ == old(self).history@,
            final(self).has_castled == old(self).has_castled,
            final(self).search_ply == old(self).search_ply,
    {
        let enemy = other_side(our_side);
        if our_side == WHITE {
            self.add_piece(to - 8, PAWN, enemy, t);
        } else {
            self.add_piece(to + 8, PAWN, enemy, t);
        }
    }

    /// Set the en-passant target behind a double pawn push and hash it in.
    fn handle_double_pawn_push(&mut self, to: Square, our_side: Side, t: &Tables)
        requires
            to < 64,
            our_side < 2,
            0 <= behind_sq(our_side as int, to as int) < 64,
            old(self).en_passant_board.0 == 0,
        ensures
            final(self).en_passant_board.0 == (1u64 << behind_sq(our_side as int, to as int) as u64),
            hashed(*old(self), t.zobrist) ==> hashed(*final(self), t.zobrist),
            final(self).piece_boards == old(self).piece_boards,
            final(self).plys == old(self).plys,
            final(self).castling_rights == old(self).castling_rights,
            final(self).fifty_move_rule == old(self).fifty_move_rule,
            final(self).history@ == old(self).history@,
            final(self).has_castled == old(self).has_castled,
            final(self).search_ply == old(self).search_ply,
            accums_eq(*final(self), *old(self)),
    {
        if our_side == WHITE {
            self.set_en_passant(to - 8, t);
        } else {
            self.set_en_passant(to + 8, t);
        }
    }

    /// Move king and rook to their castled squares, mark the side as having
    /// castled and withdraw both of its rights.
    fn do_castle(&mut self, castling_side: CastlingSide, our_side: Side, t: &Tables)
        requires
            our_side < 2,
            bit64(
                board_of(old(self).piece_boards, our_side as int, 5),
                castle_king_from(our_side as int) as u64,
            ),
            bit64(
                board_of(old(self).piece_boards, our_side as int, 1),
                castle_rook_from(our_side as int, castling_side) as u64,
            ),
            !bit64(
                board_of(old(self).piece_boards, our_side as int, 5),
                castle_king_to(our_side as int, castling_side) as u64,
            ),
            !bit64(
                board_of(old(self).piece_boards, our_side as int, 1),
                castle_rook_to(our_side as int, castling_side) as u64,
            ),
            evaled(*old(self), t.params),
        ensures
            forall|a: int, b: int|
                0 <= a < 2 && 0 <= b < 6 ==> board_of(final(self).piece_boards, a, b) == (if a
                    == our_side && b == 1 {
                    (board_of(old(self).piece_boards, a, b) ^ (1u64 << castle_rook_from(
                        our_side as int,
                        castling_side,
                    ) as u64)) ^ (1u64 << castle_rook_to(our_side as int, castling_side) as u64)
                } else if a == our_side && b == 5 {
                    (board_of(old(self).piece_boards, a, b) ^ (1u64 << castle_king_from(
                        our_side as int,
                    ) as u64)) ^ (1u64 << castle_king_to(our_side as int, castling_side) as u64)
                } else {
                    board_of(old(self).piece_boards, a, b)
                }),
            forall|i: int|
                0 <= i < 4 ==> final(self).castling_rights[i] == (old(self).castling_rights[i] && i
                    / 2 != our_side),
            forall|a: int|
                0 <= a < 2 ==> final(self).has_castled[a] == (old(self).has_castled[a] || a
                    == our_side),
            hashed(*old(self), t.zobrist) ==> hashed(*final(self), t.zobrist),
            evaled(*final(self), t.params),
            final(self).plys == old(self).plys,
            final(self).en_passant_board == old(self).en_passant_board,
            final(self).fifty_move_rule == old(self).fifty_move_rule,
            final(self).history@ == old(self).history@,
            final(self).search_ply == old(self).search_ply,
    {
        let mut hc = self.has_castled;
        hc[our_side] = true;
        self.has_castled = hc;
        if our_side == WHITE {
            match castling_side {
                CastlingSide::QueenSide => {
                    self.move_piece(A1, D1, ROOK, our_side, t);
                    self.move_piece(E1, C1, KING, our_side, t);
                },
                CastlingSide::KingSide => {
                    self.move_piece(H1, F1, ROOK, our_side, t);
                    self.move_piece(E1, G1, KING, our_side, t);
                },
            }
            self.remove_castling_right(WHITE_KINGSIDE_CASTLE, t);
            self.remove_castling_right(WHITE_QUEENSIDE_CASTLE, t);
            return ;
        }
        match castling_side {
            CastlingSide::QueenSide => {
                self.move_piece(A8, D8, ROOK, our_side, t);
                self.move_piece(E8, C8, KING, our_side, t);
            },
            CastlingSide::KingSide => {
                self.move_piece(H8, F8, ROOK, our_side, t);
                self.move_piece(E8, G8, KING, our_side, t);
            },
        }
        self.remove_castling_right(BLACK_KINGSIDE_CASTLE, t);
        self.remove_castling_right(BLACK_QUEENSIDE_CASTLE, t);
    }

    /// Move king and rook back and re-grant both rights of the mover; the
    /// frame restores the exact right set afterwards.
    fn undo_castle(&mut self, castling_side: CastlingSide, our_side: Side, t: &Tables)
        requires
            our_side < 2,
            bit64(
                board_of(old(self).piece_boards, our_side as int, 5),
                castle_king_to(our_side as int, castling_side) as u64,
            ),
            bit64(
                board_of(old(self).piece_boards, our_side as int, 1),
                castle_rook_to(our_side as int, castling_side) as u64,
            ),
            !bit64(
                board_of(old(self).piece_boards, our_side as int, 5),
                castle_king_from(our_side as int) as u64,
            ),
            !bit64(
                board_of(old(self).piece_boards, our_side as int, 1),
                castle_rook_from(our_side as int, castling_side) as u64,
            ),
            evaled(*old(self), t.params),
        ensures
            forall|a: int, b: int|
                0 <= a < 2 && 0 <= b < 6 ==> board_of(final(self).piece_boards, a, b) == (if a
                    == our_side && b == 1 {
                    (board_of(old(self).piece_boards, a, b) ^ (1u64 << castle_rook_to(
                        our_side as int,
                        castling_side,
                    ) as u64)) ^ (1u64 << castle_rook_from(our_side as int, castling_side) as u64)
                } else if a == our_side && b == 5 {
                    (board_of(old(self).piece_boards, a, b) ^ (1u64 << castle_king_to(
                        our_side as int,
                        castling_side,
                    ) as u64)) ^ (1u64 << castle_king_from(our_side as int) as u64)
                } else {
                    board_of(old(self).piece_boards, a, b)
                }),
            forall|a: int|
                0 <= a < 2 ==> final(self).has_castled[a] == (if a == our_side {
                    false
                } else {
                    old(self).has_castled[a]
                }),
            hashed(*old(self), t.zobrist) ==> hashed(*final(self), t.zobrist),
            evaled(*final(self), t.params),
            final(self).plys == old(self).plys,
            final(self).en_passant_board == old(self).en_passant_board,
            final(self).fifty_move_rule == old(self).fifty_move_rule,
            final(self).history@ == old(self).history@,
            final(self).search_ply == old(self).search_ply,
    {
        let mut hc = self.has_castled;
        hc[our_side] = false;
        self.has_castled = hc;
        if our_side == WHITE {
            match castling_side {
                CastlingSide::QueenSide => {
                    self.move_piece(D1, A1, ROOK, our_side, t);
                    self.move_piece(C1, E1, KING, our_side, t);
                },
                CastlingSide::KingSide => {
                    self.move_piece(F1, H1, ROOK, our_side, t);
                    self.move_piece(G1, E1, KING, our_side, t);
                },
            }
            return ;
        }
        match castling_side {
            CastlingSide::QueenSide => {
                self.move_piece(D8, A8, ROOK, our_side, t);
                self.move_piece(C8, E8, KING, our_side, t);
            },
            CastlingSide::KingSide => {
                self.move_piece(F8, H8, ROOK, our_side, t);
                self.move_piece(G8, E8, KING, our_side, t);
            },
        }
    }
}


impl GameState {
    /// Apply a move that is coherent with the position (the generator's
    /// moves are; legality against check is tested separately). The result
    /// is pinned field by field by `is_make_of`.
    pub fn apply_legal_move(&mut self, m: Move, t: &Tables)
        requires
            move_ok(*old(self), m.0),
            hashed(*old(self), t.zobrist),
            evaled(*old(self), t.params),
        ensures
            is_make_of(*final(self), *old(self), m),
            hashed(*final(self), t.zobrist),
            evaled(*final(self), t.params),
    {
        let ghost s0 = *self;
        proof {
            crate::moves::lemma_move_flag_relations(m.0);
        }
        let from = m.from();
        let to = m.to();
        let our_side = self.side_to_move();
        let enemy_side = other_side(our_side);
        let moving_piece = m.moving_piece();
        self.history.push(
            History {
                mv: m,
                fifty_move_rule: self.fifty_move_rule,
                castling_rights: self.castling_rights,
                zobrist: self.zobrist,
                en_passant: self.en_passant_board,
            },
        );
        self.clear_en_passant(t);
        self.fifty_move_rule = self.fifty_move_rule + 1;
        self.search_ply = self.search_ply + 1;
        self.bump_ply_and_flip(t);
        proof {
            assert(side_of(*self) == 1 - side_of(s0));
        }
        if m.is_capture() {
            self.fifty_move_rule = 0;
            if m.is_capture_and_en_passant() {
                self.remove_en_passant_pawn(to, our_side, t);
            } else {
                let captured = m.captured_piece();
                self.remove_piece(to, captured, enemy_side, t);
                if captured == ROOK {
                    self.handle_rook_capture(to, our_side, t);
                }
            }
        }
        if m.is_promotion() {
            self.fifty_move_rule = 0;
            let promoted = m.promoted_piece();
            self.add_piece(to, promoted, our_side, t);
            self.remove_piece(from, PAWN, our_side, t);
            proof {
                assert(is_make_of(*self, s0, m));
            }
            return ;
        }
        if let Some(castle_side) = m.is_castle_and_where() {
            self.do_castle(castle_side, our_side, t);
            proof {
                assert(is_make_of(*self, s0, m));
            }
            return ;
        }
        if m.is_double_pawn_push() {
            self.handle_double_pawn_push(to, our_side, t);
        }
        self.handle_castling_right_removing_moves(from, moving_piece, our_side, t);
        self.move_piece(from, to, moving_piece, our_side, t);
        proof {
            assert(is_make_of(*self, s0, m));
        }
    }

    /// Unmake the move on top of the history stack; the result is pinned
    /// field by field by `is_unmake_of`.
    pub fn undo_move(&mut self, t: &Tables)
        requires
            undo_ok(*old(self)),
            hashed(*old(self), t.zobrist),
            evaled(*old(self), t.params),
        ensures
            is_unmake_of(*final(self), *old(self)),
            evaled(*final(self), t.params),
    {
        let ghost s0 = *self;
        let past = match self.history.pop() {
            Some(p) => p,
            None => {
                proof {
                    assert(false);
                }
                History {
                    mv: Move(0),
                    fifty_move_rule: 0,
                    castling_rights: [false, false, false, false],
                    zobrist: ZobristHash(0),
                    en_passant: Bitboard(0),
                }
            },
        };
        self.plys = self.plys - 1;
        self.search_ply = self.search_ply - 1;
        let m = past.mv;
        proof {
            crate::moves::lemma_move_flag_relations(m.0);
        }
        let to = m.to();
        let from = m.from();
        let our_side = self.side_to_move();
        let enemy_side = other_side(our_side);
        let moving_piece = m.moving_piece();
        if m.is_capture() {
            if m.is_capture_and_en_passant() {
                self.re_add_en_passant_pawn(to, our_side, t);
            } else {
                self.add_piece(to, m.captured_piece(), enemy_side, t);
            }
        }
        if m.is_promotion() {
            let promoted = m.promoted_piece();
            self.add_piece(from, moving_piece, our_side, t);
            self.remove_piece(to, promoted, our_side, t);
        } else if let Some(castle_side) = m.is_castle_and_where() {
            self.undo_castle(castle_side, our_side, t);
        } else {
            self.move_piece(to, from, moving_piece, our_side, t);
        }
        self.castling_rights = past.castling_rights;
        self.fifty_move_rule = past.fifty_move_rule;
        self.en_passant_board = past.en_passant;
        self.zobrist = past.zobrist;
        proof {
            let m0 = m.0;
            let mover = our_side as int;
            assert forall|a: int, b: int|
                0 <= a < 2 && 0 <= b < 6 implies board_of(self.piece_boards, a, b)
                == board_toggles(m0, mover, a, b, board_of(s0.piece_boards, a, b)) by {
                let base0 = board_of(s0.piece_boards, a, b);
                if mv_castle_side(m0) is Some {
                    let cs = mv_castle_side(m0)->0;
                    crate::bits::lemma_xor_double_toggle(
                        base0,
                        1u64 << castle_rook_to(mover, cs) as u64,
                        1u64 << castle_rook_from(mover, cs) as u64,
                    );
                    crate::bits::lemma_xor_double_toggle(
                        base0,
                        1u64 << castle_king_to(mover, cs) as u64,
                        1u64 << castle_king_from(mover) as u64,
                    );
                } else {
                    crate::bits::lemma_xor_double_toggle(
                        base0,
                        1u64 << mv_to(m0) as u64,
                        1u64 << mv_from(m0) as u64,
                    );
                    crate::bits::lemma_xor_double_toggle(
                        base0 ^ (1u64 << mv_to(m0) as u64),
                        1u64 << mv_to(m0) as u64,
                        1u64 << mv_from(m0) as u64,
                    );
                }
            }
            assert(is_unmake_of(*self, s0));
        }
    }

    /// Skip a turn: push a null frame, flip the side and clear en passant.
    pub fn make_null_move(&mut self, t: &Tables)
        requires
            has_room(*old(self)),
            hashed(*old(self), t.zobrist),
        ensures
            final(self).history@ == old(self).history@.push(frame_of(*old(self), Move(0))),
            final(self).plys == old(self).plys + 1,
            final(self).en_passant_board.0 == 0,
            final(self).piece_boards == old(self).piece_boards,
            final(self).castling_rights == old(self).castling_rights,
            final(self).fifty_move_rule == old(self).fifty_move_rule,
            final(self).has_castled == old(self).has_castled,
            final(self).search_ply == old(self).search_ply,
            accums_eq(*final(self), *old(self)),
            hashed(*final(self), t.zobrist),
    {
        self.history.push(
            History {
                mv: Move(0),
                fifty_move_rule: self.fifty_move_rule,
                castling_rights: self.castling_rights,
                zobrist: self.zobrist,
                en_passant: self.en_passant_board,
            },
        );
        self.clear_en_passant(t);
        self.bump_ply_and_flip(t);
    }

    /// Undo a null move: pop the frame and restore what it held.
    pub fn undo_null_move(&mut self, t: &Tables)
        requires
            old(self).history@.len() >= 1,
            old(self).plys >= 1,
        ensures
            final(self).history@ == old(self).history@.drop_last(),
            final(self).plys == old(self).plys - 1,
            final(self).en_passant_board == old(self).history@.last().en_passant,
            final(self).castling_rights == old(self).history@.last().castling_rights,
            final(self).fifty_move_rule == old(self).history@.last().fifty_move_rule,
            final(self).zobrist == old(self).history@.last().zobrist,
            final(self).piece_boards == old(self).piece_boards,
            final(self).has_castled == old(self).has_castled,
            final(self).search_ply == old(self).search_ply,
            accums_eq(*final(self), *old(self)),
    {
        self.plys = self.plys - 1;
        let past = match self.history.pop() {
            Some(p) => p,
            None => {
                proof {
                    assert(false);
                }
                History {
                    mv: Move(0),
                    fifty_move_rule: 0,
                    castling_rights: [false, false, false, false],
                    zobrist: ZobristHash(0),
                    en_passant: Bitboard(0),
                }
            },
        };
        self.zobrist = past.zobrist;
        self.fifty_move_rule = past.fifty_move_rule;
        self.en_passant_board = past.en_passant;
        self.castling_rights = past.castling_rights;
    }
}


// ---------------------------------------------------------------------------
// Well-formedness and the make/unmake round trip
// ---------------------------------------------------------------------------

/// `b` holds exactly one square.
pub open spec fn single_bit(b: u64) -> bool {
    exists|k: u64| k < 64 && b == (1u64 << k)
}

/// No square is held by two different (side, piece) boards.
pub open spec fn boards_disjoint(boards: [[Bitboard; 6]; 2]) -> bool {
    forall|a1: int, b1: int, a2: int, b2: int, i: u64|
        0 <= a1 < 2 && 0 <= b1 < 6 && 0 <= a2 < 2 && 0 <= b2 < 6 && (a1 != a2 || b1 != b2) && i
            < 64 ==> !(#[trigger] bit64(board_of(boards, a1, b1), i) && #[trigger] bit64(
            board_of(boards, a2, b2),
            i,
        ))
}

/// The counters stay tied to the length of the history stack.
pub open spec fn counters_ok(s: GameState) -> bool {
    &&& s.plys <= s.history@.len() + 1
    &&& s.search_ply <= s.history@.len() + 1
    &&& s.fifty_move_rule <= s.history@.len() + 100000
}

/// Structural well-formedness: disjoint boards, one king per side, sound
/// counters.
pub open spec fn wf(s: GameState) -> bool {
    &&& boards_disjoint(s.piece_boards)
    &&& single_bit(board_of(s.piece_boards, 0, 5))
    &&& single_bit(board_of(s.piece_boards, 1, 5))
    &&& counters_ok(s)
}

/// A single-bit board that holds `i` is exactly the mask of `i`.
pub proof fn lemma_single_bit_is(b: u64, i: u64)
    requires
        single_bit(b),
        i < 64,
        bit64(b, i),
    ensures
        b == (1u64 << i),
{
    let k = choose|k: u64| k < 64 && b == (1u64 << k);
    crate::bits::lemma_bit_single(k, i);
}

/// Every field of the two states agrees.
pub open spec fn states_equal(a: GameState, b: GameState) -> bool {
    &&& a.piece_boards == b.piece_boards
    &&& a.plys == b.plys
    &&& a.en_passant_board == b.en_passant_board
    &&& a.castling_rights == b.castling_rights
    &&& a.fifty_move_rule == b.fifty_move_rule
    &&& a.zobrist == b.zobrist
    &&& a.history@ == b.history@
    &&& accums_eq(a, b)
    &&& a.has_castled == b.has_castled
    &&& a.search_ply == b.search_ply
}

/// Pointwise characterization of each board after a move, in terms of the
/// bits of the board before it.
pub proof fn lemma_bits_after_make(s: GameState, s2: GameState, m: Move)
    requires
        move_ok(s, m.0),
        is_make_of(s2, s, m),
    ensures
        forall|a: int, b: int, i: u64|
            0 <= a < 2 && 0 <= b < 6 && i < 64 ==> #[trigger] bit64(
                board_of(s2.piece_boards, a, b),
                i,
            ) == bit_after_make(s, m.0, a, b, i),
{
    crate::moves::lemma_move_flag_relations(m.0);
    assert forall|a: int, b: int, i: u64|
        0 <= a < 2 && 0 <= b < 6 && i < 64 implies #[trigger] bit64(
        board_of(s2.piece_boards, a, b),
        i,
    ) == bit_after_make(s, m.0, a, b, i) by {
        let our = side_of(s);
        let m0 = m.0;
        let base = board_of(s.piece_boards, a, b);
        let from = mv_from(m0) as u64;
        let to = mv_to(m0) as u64;
        lemma_xor_single_bits(base, from);
        lemma_xor_single_bits(base, to);
        lemma_xor_single_bits(base ^ (1u64 << from), to);
        lemma_xor_single_bits(base ^ (1u64 << to), from);
        if mv_is_en_passant(m0) {
            lemma_xor_single_bits(base, behind_sq(our, to as int) as u64);
        }
        if mv_castle_side(m0) is Some {
            let cs = mv_castle_side(m0)->0;
            let rf = castle_rook_from(our, cs) as u64;
            let rt = castle_rook_to(our, cs) as u64;
            let kf = castle_king_from(our) as u64;
            let kt = castle_king_to(our, cs) as u64;
            lemma_xor_single_bits(base, rf);
            lemma_xor_single_bits(base ^ (1u64 << rf), rt);
            lemma_xor_single_bits(base, kf);
            lemma_xor_single_bits(base ^ (1u64 << kf), kt);
        }
        if mv_is_capture(m0) && !mv_is_en_passant(m0) && a == 1 - our && b == mv_captured(m0) {
            lemma_xor_single_bits(base, to);
            lemma_xor_single_bits(base ^ (1u64 << to), from);
        }
    }
}

/// What each bit of each board is after a move.
pub open spec fn bit_after_make(s: GameState, m0: u32, a: int, b: int, i: u64) -> bool {
    let our = side_of(s);
    let enemy = 1 - our;
    let from = mv_from(m0) as int;
    let to = mv_to(m0) as int;
    let base = bit64(board_of(s.piece_boards, a, b), i);
    let base1 = if mv_is_capture(m0) {
        if mv_is_en_passant(m0) {
            if a == enemy && b == 0 && i == behind_sq(our, to) {
                !base
            } else {
                base
            }
        } else {
            if a == enemy && b == mv_captured(m0) && i == to {
                !base
            } else {
                base
            }
        }
    } else {
        base
    };
    if mv_is_promotion(m0) {
        if a == our && b == 0 && i == from {
            !base1
        } else if a == our && b == mv_promoted(m0) && i == to {
            !base1
        } else {
            base1
        }
    } else if mv_castle_side(m0) is Some {
        let cs = mv_castle_side(m0)->0;
        if a == our && b == 1 && (i == castle_rook_from(our, cs) || i == castle_rook_to(our, cs)) {
            !base1
        } else if a == our && b == 5 && (i == castle_king_from(our) || i == castle_king_to(
            our,
            cs,
        )) {
            !base1
        } else {
            base1
        }
    } else {
        if a == our && b == mv_moving(m0) && (i == from || i == to) {
            !base1
        } else {
            base1
        }
    }
}

/// A move made on a coherent position can be unmade.
pub proof fn lemma_make_then_undo_ok(s: GameState, s2: GameState, m: Move)
    requires
        move_ok(s, m.0),
        is_make_of(s2, s, m),
    ensures
        undo_ok(s2),
        counters_ok(s) ==> counters_ok(s2),
{
    crate::moves::lemma_move_flag_relations(m.0);
    lemma_bits_after_make(s, s2, m);
    assert(s2.history@.last() == frame_of(s, m));
    let our = side_of(s);
    let m0 = m.0;
    assert((s2.plys - 1) as int % 2 == our);
    if mv_castle_side(m0) is Some {
        let cs = mv_castle_side(m0)->0;
        assert(bit64(
            board_of(s2.piece_boards, our, 5),
            castle_king_to(our, cs) as u64,
        ));
    }
}

/// THE ROUND TRIP: making any coherent move and then unmaking it restores
/// every field of the position exactly — boards, hash, en passant, clocks,
/// rights and evaluation accumulators.
pub proof fn lemma_make_unmake(
    s: GameState,
    s2: GameState,
    s3: GameState,
    m: Move,
    params: EvalParams,
)
    requires
        move_ok(s, m.0),
        is_make_of(s2, s, m),
        is_unmake_of(s3, s2),
        evaled(s, params),
        evaled(s3, params),
    ensures
        states_equal(s3, s),
{
    crate::moves::lemma_move_flag_relations(m.0);
    let m0 = m.0;
    let our = side_of(s);
    assert(s2.history@.last() == frame_of(s, m));
    assert((s2.plys - 1) as int % 2 == our);
    assert(s3.history@ =~= s.history@);
    assert forall|a: int, b: int|
        0 <= a < 2 && 0 <= b < 6 implies board_of(s3.piece_boards, a, b) == board_of(
        s.piece_boards,
        a,
        b,
    ) by {
        let base = board_of(s.piece_boards, a, b);
        let from = 1u64 << mv_from(m0) as u64;
        let to = 1u64 << mv_to(m0) as u64;
        crate::bits::lemma_xor_double_toggle(base, from, to);
        crate::bits::lemma_xor_double_toggle(base, to, from);
        if mv_is_en_passant(m0) {
            let behind = 1u64 << behind_sq(our, mv_to(m0) as int) as u64;
            crate::bits::lemma_xor_double_toggle(base, behind, behind);
            crate::bits::lemma_xor_double_toggle(base ^ behind, from, to);
        }
        if mv_is_capture(m0) && !mv_is_en_passant(m0) {
            crate::bits::lemma_xor_double_toggle(base, to, to);
            crate::bits::lemma_xor_double_toggle(base ^ to, from, to);
            crate::bits::lemma_xor_double_toggle(base ^ to, from, from);
        }
        if mv_castle_side(m0) is Some {
            let cs = mv_castle_side(m0)->0;
            let rf = 1u64 << castle_rook_from(our, cs) as u64;
            let rt = 1u64 << castle_rook_to(our, cs) as u64;
            let kf = 1u64 << castle_king_from(our) as u64;
            let kt = 1u64 << castle_king_to(our, cs) as u64;
            crate::bits::lemma_xor_double_toggle(base, rf, rt);
            crate::bits::lemma_xor_double_toggle(base, kf, kt);
        }
    }
    assert(s3.piece_boards =~= s.piece_boards) by {
        broadcast use vstd::array::axiom_array_ext_equal;

        assert forall|a: int, b: int| 0 <= a < 2 && 0 <= b < 6 implies s3.piece_boards[a][b]
            == s.piece_boards[a][b] by {
            assert(board_of(s3.piece_boards, a, b) == board_of(s.piece_boards, a, b));
            assert(s3.piece_boards[a][b] =~= s.piece_boards[a][b]);
        }
        assert(s3.piece_boards[0] =~= s.piece_boards[0]);
        assert(s3.piece_boards[1] =~= s.piece_boards[1]);
    }
    assert(s3.has_castled =~= s.has_castled);
    assert(s3.castling_rights == s.castling_rights);
    assert(s3.material =~= s.material);
    assert(s3.material_eg =~= s.material_eg);
    assert(s3.psqt_mg =~= s.psqt_mg);
    assert(s3.psqt_eg =~= s.psqt_eg);
}


/// Making a coherent move on a well-formed position yields a well-formed
/// position: boards stay disjoint and each side keeps exactly one king.
pub proof fn lemma_make_preserves_wf(s: GameState, s2: GameState, m: Move)
    requires
        wf(s),
        move_ok(s, m.0),
        is_make_of(s2, s, m),
    ensures
        wf(s2),
{
    crate::moves::lemma_move_flag_relations(m.0);
    lemma_bits_after_make(s, s2, m);
    let m0 = m.0;
    let our = side_of(s);
    let enemy = 1 - our;
    let from = mv_from(m0) as int;
    let to = mv_to(m0) as int;
    assert forall|a1: int, b1: int, a2: int, b2: int, i: u64|
        0 <= a1 < 2 && 0 <= b1 < 6 && 0 <= a2 < 2 && 0 <= b2 < 6 && (a1 != a2 || b1 != b2) && i
            < 64 implies !(#[trigger] bit64(board_of(s2.piece_boards, a1, b1), i) && #[trigger]
    bit64(board_of(s2.piece_boards, a2, b2), i)) by {
        assert(bit64(board_of(s2.piece_boards, a1, b1), i) == bit_after_make(s, m0, a1, b1, i));
        assert(bit64(board_of(s2.piece_boards, a2, b2), i) == bit_after_make(s, m0, a2, b2, i));
        if bit64(board_of(s2.piece_boards, a1, b1), i) && bit64(
            board_of(s2.piece_boards, a2, b2),
            i,
        ) {
            // A bit can only appear on a destination square, and each
            // destination was free of every other board.
            if mv_castle_side(m0) is Some {
                let cs = mv_castle_side(m0)->0;
                assert(!(bit64(board_of(s.piece_boards, a1, b1), i) && bit64(
                    board_of(s.piece_boards, a2, b2),
                    i,
                )));
            } else {
                assert(!(bit64(board_of(s.piece_boards, a1, b1), i) && bit64(
                    board_of(s.piece_boards, a2, b2),
                    i,
                )));
            }
        }
    }
    let kb_w = board_of(s.piece_boards, 0, 5);
    let kb_b = board_of(s.piece_boards, 1, 5);
    assert forall|a: int| 0 <= a < 2 implies single_bit(board_of(s2.piece_boards, a, 5)) by {
        let kb = board_of(s.piece_boards, a, 5);
        let kb2 = board_of(s2.piece_boards, a, 5);
        if mv_castle_side(m0) is Some && a == our {
            let cs = mv_castle_side(m0)->0;
            let kf = castle_king_from(our) as u64;
            let kt = castle_king_to(our, cs) as u64;
            lemma_single_bit_is(kb, kf);
            assert(kb2 == ((1u64 << kf) ^ (1u64 << kf)) ^ (1u64 << kt));
            assert(((1u64 << kf) ^ (1u64 << kf)) ^ (1u64 << kt) == (1u64 << kt)) by (bit_vector);
            assert(kb2 == (1u64 << kt));
        } else if mv_castle_side(m0) is None && !mv_is_promotion(m0) && a == our && mv_moving(m0)
            == 5 {
            lemma_single_bit_is(kb, from as u64);
            assert(kb2 == ((1u64 << from as u64) ^ (1u64 << from as u64)) ^ (1u64 << to as u64));
            let fm = from as u64;
            let tm = to as u64;
            assert(((1u64 << fm) ^ (1u64 << fm)) ^ (1u64 << tm) == (1u64 << tm)) by (bit_vector);
            assert(kb2 == (1u64 << tm));
        } else {
            assert(kb2 == kb);
        }
    }
}


/// A single-bit board is not empty.
pub proof fn lemma_single_bit_nonzero(b: u64)
    requires
        single_bit(b),
    ensures
        b != 0,
{
    let k = choose|k: u64| k < 64 && b == (1u64 << k);
    assert(k < 64 ==> (1u64 << k) != 0) by (bit_vector);
}


/// The piece-key fold of an empty board is empty.
pub proof fn lemma_fold_board_zero(ks: [u64; 64], n: int)
    requires
        0 <= n <= 64,
    ensures
        zobrist_fold_board(0u64, ks, n) == 0,
    decreases n,
{
    if n > 0 {
        lemma_fold_board_zero(ks, n - 1);
        crate::bits::lemma_bit_zero((n - 1) as u64);
        lemma_xor_shuffle(0u64, 0u64, 0u64);
    }
}

/// The whole hash of an empty position with no rights, no en passant and
/// the first mover to play is zero.
pub proof fn lemma_hash_zero_state(s: GameState, keys: ZobristKeys)
    requires
        forall|a: int, b: int| 0 <= a < 2 && 0 <= b < 6 ==> board_of(s.piece_boards, a, b) == 0,
        forall|i: int| 0 <= i < 4 ==> !s.castling_rights[i],
        s.en_passant_board.0 == 0,
        side_of(s) == 0,
        s.zobrist.0 == 0,
    ensures
        hashed(s, keys),
{
    assert forall|k: int| 0 <= k <= 12 implies fold_boards(s.piece_boards, keys, k) == 0 by {
        lemma_fold_boards_zero(s.piece_boards, keys, k);
    }
    assert forall|n: int| 0 <= n <= 4 implies zobrist_fold_rights(
        s.castling_rights,
        keys.castling,
        n,
    ) == 0 by {
        lemma_fold_rights_zero(s.castling_rights, keys.castling, n);
    }
    lemma_xor_shuffle(0u64, 0u64, 0u64);
}

pub proof fn lemma_fold_boards_zero(boards: [[Bitboard; 6]; 2], keys: ZobristKeys, k: int)
    requires
        0 <= k <= 12,
        forall|a: int, b: int| 0 <= a < 2 && 0 <= b < 6 ==> board_of(boards, a, b) == 0,
    ensures
        fold_boards(boards, keys, k) == 0,
    decreases k,
{
    if k > 0 {
        lemma_fold_boards_zero(boards, keys, k - 1);
        lemma_fold_board_zero(keys_at(keys, k - 1), 64);
        lemma_xor_shuffle(0u64, 0u64, 0u64);
    }
}

pub proof fn lemma_fold_rights_zero(rights: [bool; 4], ks: [u64; 4], n: int)
    requires
        0 <= n <= 4,
        forall|i: int| 0 <= i < 4 ==> !rights[i],
    ensures
        zobrist_fold_rights(rights, ks, n) == 0,
    decreases n,
{
    if n > 0 {
        lemma_fold_rights_zero(rights, ks, n - 1);
        lemma_xor_shuffle(0u64, 0u64, 0u64);
    }
}

/// Every evaluation accumulator of an empty position is zero.
pub proof fn lemma_eval_zero_state(s: GameState, params: EvalParams)
    requires
        forall|a: int, b: int| 0 <= a < 2 && 0 <= b < 6 ==> board_of(s.piece_boards, a, b) == 0,
        s.material[0] == 0 && s.material[1] == 0,
        s.material_eg[0] == 0 && s.material_eg[1] == 0,
        s.psqt_mg[0] == 0 && s.psqt_mg[1] == 0,
        s.psqt_eg[0] == 0 && s.psqt_eg[1] == 0,
        s.phase == 0,
    ensures
        evaled(s, params),
{
    assert forall|side: int, p: int| 0 <= side < 2 && 0 <= p <= 6 implies mat_scan(
        s.piece_boards,
        side,
        params.mg_piece_value,
        p,
    ) == 0 && mat_scan(s.piece_boards, side, params.eg_piece_value, p) == 0 && psqt_scan(
        s.piece_boards,
        side,
        params.psqt_mg,
        p,
    ) == 0 && psqt_scan(s.piece_boards, side, params.psqt_eg, p) == 0 by {
        lemma_scans_zero(s.piece_boards, side, params.mg_piece_value, params.psqt_mg, p);
        lemma_scans_zero(s.piece_boards, side, params.eg_piece_value, params.psqt_eg, p);
    }
    lemma_phase_scan_zero(s.piece_boards, 12);
}

pub proof fn lemma_psqt_fold_zero(row: [i16; 64], side: int, n: int)
    requires
        0 <= n <= 64,
    ensures
        psqt_fold(0u64, row, side, n) == 0,
    decreases n,
{
    if n > 0 {
        lemma_psqt_fold_zero(row, side, n - 1);
        crate::bits::lemma_bit_zero((n - 1) as u64);
    }
}

pub proof fn lemma_scans_zero(
    boards: [[Bitboard; 6]; 2],
    side: int,
    vals: [i16; 6],
    tabs: [[i16; 64]; 6],
    p: int,
)
    requires
        0 <= p <= 6,
        forall|a: int, b: int| 0 <= a < 2 && 0 <= b < 6 ==> board_of(boards, a, b) == 0,
        0 <= side < 2,
    ensures
        mat_scan(boards, side, vals, p) == 0,
        psqt_scan(boards, side, tabs, p) == 0,
    decreases p,
{
    if p > 0 {
        lemma_scans_zero(boards, side, vals, tabs, p - 1);
        crate::bits::lemma_count_of_zero(64);
        lemma_psqt_fold_zero(tabs[p - 1], side, 64);
    }
}

pub proof fn lemma_phase_scan_zero(boards: [[Bitboard; 6]; 2], k: int)
    requires
        0 <= k <= 12,
        forall|a: int, b: int| 0 <= a < 2 && 0 <= b < 6 ==> board_of(boards, a, b) == 0,
    ensures
        phase_scan(boards, k) == 0,
    decreases k,
{
    if k > 0 {
        lemma_phase_scan_zero(boards, k - 1);
        crate::bits::lemma_count_of_zero(64);
    }
}


/// A square may hold a new piece while the placement scan has not reached
/// it yet: everything at a higher rank, or at the same rank and a file
/// already passed, is taken; the rest is free.
pub open spec fn placement_free(boards: [[Bitboard; 6]; 2], rank: int, file: int) -> bool {
    forall|a: int, b: int, i: u64|
        0 <= a < 2 && 0 <= b < 6 && i < 64 && #[trigger] bit64(board_of(boards, a, b), i) ==> (
        i as int / 8 > rank || (i as int / 8 == rank && i as int % 8 < file))
}


/// Bytes `a .. b` form one whitespace-separated field: only spaces before
/// it since `prev`, no space inside, and a space or the end after it.
pub open spec fn is_fen_field(bs: Seq<u8>, prev: int, a: int, b: int) -> bool {
    &&& 0 <= prev <= a < b <= bs.len()
    &&& (forall|i: int| prev <= i < a ==> bs[i] == 32)
    &&& (forall|i: int| a <= i < b ==> bs[i] != 32)
    &&& (b == bs.len() || bs[b] == 32)
}

/// The number the decimal digits `a .. b` denote.
pub open spec fn digits_value(bs: Seq<u8>, a: int, b: int) -> int
    decreases b - a,
{
    if b <= a {
        0
    } else {
        digits_value(bs, a, b - 1) * 10 + (bs[b - 1] - 48)
    }
}

/// How a parsed position relates to the six fields of its text: the boards
/// print back to exactly the placement field, the ply parity matches the
/// side field, each castling right is held exactly when its letter occurs,
/// the en-passant board holds the named square or nothing for a dash, and
/// the half-move clock equals the digits of its field.
pub open spec fn fen_fields_describe(
    s: GameState,
    bs: Seq<u8>,
    p0: int,
    p1: int,
    s0: int,
    s1: int,
    c0: int,
    c1: int,
    e0: int,
    e1: int,
    h0: int,
    h1: int,
    m0: int,
    m1: int,
) -> bool {
    &&& is_fen_field(bs, 0, p0, p1)
    &&& is_fen_field(bs, p1, s0, s1)
    &&& is_fen_field(bs, s1, c0, c1)
    &&& is_fen_field(bs, c1, e0, e1)
    &&& is_fen_field(bs, e1, h0, h1)
    &&& is_fen_field(bs, h1, m0, m1)
    &&& (forall|i: int| m1 <= i < bs.len() ==> bs[i] == 32)
    &&& Seq::new((p1 - p0) as nat, |i: int| bs[p0 + i] as char) == fp_placement(s.piece_boards, 7)
    &&& s1 - s0 == 1
    &&& (bs[s0] == 119 || bs[s0] == 98)
    &&& s.plys == (if bs[s0] == 98 {
        1int
    } else {
        0int
    })
    &&& (s.castling_rights[1] <==> exists|x: int| c0 <= x < c1 && #[trigger] bs[x] == 75)
    &&& (s.castling_rights[0] <==> exists|x: int| c0 <= x < c1 && #[trigger] bs[x] == 81)
    &&& (s.castling_rights[3] <==> exists|x: int| c0 <= x < c1 && #[trigger] bs[x] == 107)
    &&& (s.castling_rights[2] <==> exists|x: int| c0 <= x < c1 && #[trigger] bs[x] == 113)
    &&& ((e1 - e0 == 1 && bs[e0] == 45 && s.en_passant_board.0 == 0) || (e1 - e0 == 2 && 97 <= bs[e0]
        < 105 && 49 <= bs[e0 + 1] < 57 && s.en_passant_board.0 == (1u64
        << crate::moves::spec_alg_sq(bs[e0], bs[e0 + 1]) as u64)))
    &&& (forall|i: int| h0 <= i < h1 ==> 48 <= #[trigger] bs[i] <= 57)
    &&& s.fifty_move_rule == digits_value(bs, h0, h1)
    &&& (forall|i: int| m0 <= i < m1 ==> 48 <= #[trigger] bs[i] <= 57)
}


/// Every character the placement printer can produce is ASCII.
pub proof fn lemma_fp_rank_ascii(boards: [[Bitboard; 6]; 2], rank: int, file: int, run: int)
    requires
        1 <= run + 8,
    ensures
        vstd::utf8::is_ascii_chars(fp_rank(boards, rank, file, run)),
    decreases 8 - file,
{
    if file >= 8 {
    } else {
        match occupant_at(boards, rank * 8 + file) {
            None => {
                lemma_fp_rank_ascii(boards, rank, file + 1, run + 1);
            },
            Some(sp) => {
                lemma_fp_rank_ascii(boards, rank, file + 1, 0);
            },
        }
    }
}

pub proof fn lemma_fp_placement_ascii(boards: [[Bitboard; 6]; 2], rank: int)
    ensures
        vstd::utf8::is_ascii_chars(fp_placement(boards, rank)),
    decreases rank + 1,
{
    if rank >= 0 {
        lemma_fp_rank_ascii(boards, rank, 0, 0);
        lemma_fp_placement_ascii(boards, rank - 1);
    }
}

/// A parsed position is described by its text's six fields.
pub open spec fn fen_describes(s: GameState, bs: Seq<u8>) -> bool {
    exists|p0: int, p1: int, s0: int, s1: int, c0: int, c1: int, e0: int, e1: int, h0: int, h1: int, m0: int, m1: int|
        #[trigger] fen_fields_describe(s, bs, p0, p1, s0, s1, c0, c1, e0, e1, h0, h1, m0, m1)
}

impl GameState {
    /// Parse a six-field FEN string. Yields a position that satisfies every
    /// structural invariant, with the hash and the evaluation accumulators
    /// already consistent; rejects strings that are not six fields, hold an
    /// unknown character, overfill a rank, lack exactly one king per side,
    /// or carry an unreadable clock.
    #[verifier::rlimit(60)]
    pub fn new_from_fen(fen: &str, t: &Tables) -> (r: Option<GameState>)
        requires
            t.wf(),
        ensures
            r matches Some(s) ==> {
                &&& wf(s)
                &&& hashed(s, t.zobrist)
                &&& evaled(s, t.params)
                &&& s.history@.len() == 0
                &&& s.plys <= 1
                &&& s.search_ply == 0
                &&& s.fifty_move_rule <= 100000
                &&& has_room(s)
                &&& fen_describes(s, fen.spec_bytes())
            },
    {
        let bytes = fen.as_bytes();
        let n = bytes.len();
        // Split into whitespace-separated fields.
        let mut fields: Vec<(usize, usize)> = Vec::new();
        let mut i: usize = 0;
        let mut last_end: usize = 0;
        while i < n
            invariant
                last_end <= i <= n,
                n == bytes@.len(),
                fields@.len() == 0 ==> last_end == 0,
                fields@.len() > 0 ==> last_end == fields@[fields@.len() - 1].1,
                fields@.len() > 0 ==> is_fen_field(
                    bytes@,
                    0,
                    fields@[0].0 as int,
                    fields@[0].1 as int,
                ),
                forall|k: int|
                    1 <= k < fields@.len() ==> is_fen_field(
                        bytes@,
                        fields@[k - 1].1 as int,
                        (#[trigger] fields@[k]).0 as int,
                        fields@[k].1 as int,
                    ),
                forall|x: int| last_end <= x < i ==> bytes@[x] == 32,
            decreases n - i,
        {
            if bytes[i] == 32 {
                i = i + 1;
            } else {
                let st = i;
                while i < n && bytes[i] != 32
                    invariant
                        st < n,
                        st <= i <= n,
                        n == bytes@.len(),
                        forall|x: int| st <= x < i ==> bytes@[x] != 32,
                    decreases n - i,
                {
                    i = i + 1;
                }
                let ghost old_fields = fields@;
                fields.push((st, i));
                last_end = i;
                proof {
                    assert(forall|k: int|
                        0 <= k < old_fields.len() ==> fields@[k] == old_fields[k]);
                }
            }
        }
        if fields.len() != 6 {
            return None;
        }
        let ghost bs = bytes@;
        proof {
            assert(is_fen_field(bs, 0, fields@[0].0 as int, fields@[0].1 as int));
            assert(is_fen_field(bs, fields@[0].1 as int, fields@[1].0 as int, fields@[1].1 as int));
            assert(is_fen_field(bs, fields@[1].1 as int, fields@[2].0 as int, fields@[2].1 as int));
            assert(is_fen_field(bs, fields@[2].1 as int, fields@[3].0 as int, fields@[3].1 as int));
            assert(is_fen_field(bs, fields@[3].1 as int, fields@[4].0 as int, fields@[4].1 as int));
            assert(is_fen_field(bs, fields@[4].1 as int, fields@[5].0 as int, fields@[5].1 as int));
            assert(forall|x: int| fields@[5].1 <= x < bs.len() ==> bs[x] == 32);
        }
        let mut state = GameState {
            piece_boards: [[Bitboard(0); 6]; 2],
            plys: 0,
            en_passant_board: Bitboard(0),
            castling_rights: [false, false, false, false],
            fifty_move_rule: 0,
            zobrist: ZobristHash(0),
            history: Vec::new(),
            material: [0, 0],
            material_eg: [0, 0],
            psqt_mg: [0, 0],
            psqt_eg: [0, 0],
            phase: 0,
            has_castled: [false, false],
            search_ply: 0,
        };
        proof {
            assert forall|a: int, b: int|
                0 <= a < 2 && 0 <= b < 6 implies board_of(state.piece_boards, a, b) == 0 by {
            }
            lemma_hash_zero_state(state, t.zobrist);
            lemma_eval_zero_state(state, t.params);
            assert forall|i: u64| i < 64 implies !bit64(0u64, i) by {
                crate::bits::lemma_bit_zero(i);
            }
        }
        // Field 0: piece placement.
        let (p0, p1) = fields[0];
        let mut file: usize = 0;
        let mut rank: usize = 7;
        let mut j = p0;
        while j < p1
            invariant
                t.wf(),
                p1 <= n,
                n == bytes@.len(),
                p0 <= j <= p1,
                file <= 8,
                rank <= 7,
                placement_free(state.piece_boards, rank as int, file as int),
                boards_disjoint(state.piece_boards),
                hashed(state, t.zobrist),
                evaled(state, t.params),
                state.plys == 0,
                state.en_passant_board.0 == 0,
                state.castling_rights == [false, false, false, false],
                state.fifty_move_rule == 0,
                state.history@.len() == 0,
                state.has_castled == [false, false],
                state.search_ply == 0,
            decreases p1 - j,
        {
            let c = bytes[j];
            if c == 47 {
                // '/' ends a rank.
                if file != 8 || rank == 0 {
                    return None;
                }
                rank = rank - 1;
                file = 0;
            } else if 49 <= c && c <= 56 {
                // A digit: that many empty squares.
                file = file + ((c - 48) as usize);
                if file > 8 {
                    return None;
                }
            } else {
                let (side, piece): (usize, usize) = match c {
                    80 => (0, 0),
                    82 => (0, 1),
                    78 => (0, 2),
                    66 => (0, 3),
                    81 => (0, 4),
                    75 => (0, 5),
                    112 => (1, 0),
                    114 => (1, 1),
                    110 => (1, 2),
                    98 => (1, 3),
                    113 => (1, 4),
                    107 => (1, 5),
                    _ => {
                        return None;
                    },
                };
                if file >= 8 {
                    return None;
                }
                let square = rank * 8 + file;
                let ghost before = state.piece_boards;
                proof {
                    assert(!bit64(
                        board_of(state.piece_boards, side as int, piece as int),
                        square as u64,
                    ));
                }
                state.add_piece(square, piece, side, t);
                proof {
                    lemma_xor_single_bits(board_of(before, side as int, piece as int), square as u64);
                    assert forall|a: int, b: int, i2: u64|
                        0 <= a < 2 && 0 <= b < 6 && i2 < 64 && #[trigger] bit64(
                            board_of(state.piece_boards, a, b),
                            i2,
                        ) implies (i2 as int / 8 > rank || (i2 as int / 8 == rank && i2 as int % 8
                        <= file)) by {
                        if a == side && b == piece && i2 == square as u64 {
                        } else {
                            assert(bit64(board_of(before, a, b), i2));
                        }
                    }
                    assert forall|a1: int, b1: int, a2: int, b2: int, i2: u64|
                        0 <= a1 < 2 && 0 <= b1 < 6 && 0 <= a2 < 2 && 0 <= b2 < 6 && (a1 != a2 || b1
                            != b2) && i2 < 64 implies !(#[trigger] bit64(
                        board_of(state.piece_boards, a1, b1),
                        i2,
                    ) && #[trigger] bit64(board_of(state.piece_boards, a2, b2), i2)) by {
                        if i2 != square as u64 {
                            assert(bit64(board_of(state.piece_boards, a1, b1), i2) == bit64(
                                board_of(before, a1, b1),
                                i2,
                            ));
                            assert(bit64(board_of(state.piece_boards, a2, b2), i2) == bit64(
                                board_of(before, a2, b2),
                                i2,
                            ));
                        } else {
                            assert(!bit64(board_of(before, a1, b1), i2));
                            assert(!bit64(board_of(before, a2, b2), i2));
                        }
                    }
                }
                file = file + 1;
            }
            j = j + 1;
        }
        // Each side needs exactly one king.
        let wk = state.piece_boards[0][5];
        if wk.0 == 0 {
            return None;
        }
        let wi = wk.next_piece_index();
        if wk.0 & (wk.0 - 1) != 0 {
            return None;
        }
        let bk = state.piece_boards[1][5];
        if bk.0 == 0 {
            return None;
        }
        let bi = bk.next_piece_index();
        if bk.0 & (bk.0 - 1) != 0 {
            return None;
        }
        proof {
            crate::bits::lemma_single_bit_from(wk.0, wi as u64);
            crate::bits::lemma_single_bit_from(bk.0, bi as u64);
        }
        // Field 1: side to move.
        let (s0, s1) = fields[1];
        if s1 - s0 != 1 {
            return None;
        }
        let sc = bytes[s0];
        if sc == 98 {
            state.bump_ply_and_flip(t);
        } else if sc != 119 {
            return None;
        }
        proof {
            assert(state.plys == (if bytes@[s0 as int] == 98 {
                1int
            } else {
                0int
            }));
        }
        // Field 2: castling rights.
        let (c0, c1) = fields[2];
        let mut j = c0;
        while j < c1
            invariant
                t.wf(),
                c1 <= n,
                n == bytes@.len(),
                c0 <= j <= c1,
                s0 < n,
                hashed(state, t.zobrist),
                evaled(state, t.params),
                boards_disjoint(state.piece_boards),
                single_bit(board_of(state.piece_boards, 0, 5)),
                single_bit(board_of(state.piece_boards, 1, 5)),
                state.plys <= 1,
                state.plys == (if bytes@[s0 as int] == 98 {
                    1int
                } else {
                    0int
                }),
                state.en_passant_board.0 == 0,
                state.fifty_move_rule == 0,
                state.history@.len() == 0,
                state.search_ply == 0,
                state.castling_rights[1] <==> (exists|x: int|
                    c0 <= x < j && #[trigger] bytes@[x] == 75),
                state.castling_rights[0] <==> (exists|x: int|
                    c0 <= x < j && #[trigger] bytes@[x] == 81),
                state.castling_rights[3] <==> (exists|x: int|
                    c0 <= x < j && #[trigger] bytes@[x] == 107),
                state.castling_rights[2] <==> (exists|x: int|
                    c0 <= x < j && #[trigger] bytes@[x] == 113),
            decreases c1 - j,
        {
            let c = bytes[j];
            if c == 75 {
                state.add_castling_right(WHITE_KINGSIDE_CASTLE, t);
            } else if c == 81 {
                state.add_castling_right(WHITE_QUEENSIDE_CASTLE, t);
            } else if c == 107 {
                state.add_castling_right(BLACK_KINGSIDE_CASTLE, t);
            } else if c == 113 {
                state.add_castling_right(BLACK_QUEENSIDE_CASTLE, t);
            } else if c != 45 {
                return None;
            }
            j = j + 1;
        }
        // Field 3: en-passant square.
        let (e0, e1) = fields[3];
        if e1 - e0 == 2 {
            let fb = bytes[e0];
            let rb = bytes[e0 + 1];
            if fb < 97 || fb >= 105 || rb < 49 || rb >= 57 {
                return None;
            }
            let sq = ((rb - 49) as usize) * 8 + ((fb - 97) as usize);
            state.set_en_passant(sq, t);
        } else if !(e1 - e0 == 1 && bytes[e0] == 45) {
            return None;
        }
        // Field 4: the half-move clock.
        let (h0, h1) = fields[4];
        let mut clock: usize = 0;
        let mut j = h0;
        while j < h1
            invariant
                h1 <= n,
                n == bytes@.len(),
                h0 <= j <= h1,
                clock <= 100000,
                clock == digits_value(bytes@, h0 as int, j as int),
                forall|x: int| h0 <= x < j ==> 48 <= #[trigger] bytes@[x] <= 57,
            decreases h1 - j,
        {
            let c = bytes[j];
            if c < 48 || c > 57 {
                return None;
            }
            clock = clock * 10 + ((c - 48) as usize);
            if clock > 100000 {
                return None;
            }
            j = j + 1;
        }
        state.fifty_move_rule = clock;
        // Field 5: the full-move number; read for validity only.
        let (m0, m1) = fields[5];
        let mut j = m0;
        while j < m1
            invariant
                m1 <= n,
                n == bytes@.len(),
                m0 <= j <= m1,
                forall|x: int| m0 <= x < j ==> 48 <= #[trigger] bytes@[x] <= 57,
            decreases m1 - j,
        {
            let c = bytes[j];
            if c < 48 || c > 57 {
                return None;
            }
            j = j + 1;
        }
        // The boards must print back to exactly the placement field; this
        // rejects non-canonical digit runs and ties the text to the boards.
        let ps = state.placement_string();
        let pb = ps.as_str().as_bytes();
        if pb.len() != p1 - p0 {
            return None;
        }
        let mut j: usize = 0;
        while j < pb.len()
            invariant
                pb@.len() == p1 - p0,
                p1 <= n,
                p0 < p1,
                n == bytes@.len(),
                j <= pb@.len(),
                forall|x: int| 0 <= x < j ==> #[trigger] pb@[x] == bytes@[p0 + x],
            decreases pb@.len() - j,
        {
            if pb[j] != bytes[p0 + j] {
                return None;
            }
            j = j + 1;
        }
        proof {
            lemma_fp_placement_ascii(state.piece_boards, 7);
            vstd::utf8::is_ascii_chars_encode_utf8(ps@);
            assert(pb@ == vstd::utf8::encode_utf8(ps@));
            assert forall|x: int| 0 <= x < p1 - p0 implies bytes@[p0 + x] as char == ps@[x] by {
                assert(pb@[x] == bytes@[p0 + x]);
                assert(ps@[x] as u8 == pb@[x]);
                assert('\u{0}' <= ps@[x] <= '\u{7f}');
            }
            assert(Seq::new((p1 - p0) as nat, |x: int| bytes@[p0 + x] as char) =~= ps@);
            assert(fen_fields_describe(
                state,
                bytes@,
                p0 as int,
                p1 as int,
                s0 as int,
                s1 as int,
                c0 as int,
                c1 as int,
                e0 as int,
                e1 as int,
                h0 as int,
                h1 as int,
                m0 as int,
                m1 as int,
            ));
            assert(bytes@ == fen.spec_bytes());
        }
        Some(state)
    }

    /// The standard starting position.
    pub fn new_starting_pos(t: &Tables) -> (r: Option<GameState>)
        requires
            t.wf(),
        ensures
            r matches Some(s) ==> {
                &&& wf(s)
                &&& hashed(s, t.zobrist)
                &&& evaled(s, t.params)
                &&& s.history@.len() == 0
                &&& s.plys <= 1
                &&& has_room(s)
            },
    {
        Self::new_from_fen("rnbqkbnr/pppppppp/8/8/8/8/PPPPPPPP/RNBQKBNR w KQkq - 0 1", t)
    }
}

/// A square index from file and rank.
#[inline(always)]
pub fn rank_file_to_square(file: Square, rank: Square) -> (r: Square)
    requires
        file < 8,
        rank < 8,
    ensures
        r == rank * 8 + file,
        r < 64,
{
    rank * 8 + file
}



/// The occupant of a square, scanned piece-major then side, as the board
/// printer reads it.
pub open spec fn occupant_at(boards: [[Bitboard; 6]; 2], sq: int) -> Option<(int, int)> {
    if bit64(board_of(boards, 0, 0), sq as u64) {
        Some((0int, 0int))
    } else if bit64(board_of(boards, 1, 0), sq as u64) {
        Some((1int, 0int))
    } else if bit64(board_of(boards, 0, 1), sq as u64) {
        Some((0int, 1int))
    } else if bit64(board_of(boards, 1, 1), sq as u64) {
        Some((1int, 1int))
    } else if bit64(board_of(boards, 0, 2), sq as u64) {
        Some((0int, 2int))
    } else if bit64(board_of(boards, 1, 2), sq as u64) {
        Some((1int, 2int))
    } else if bit64(board_of(boards, 0, 3), sq as u64) {
        Some((0int, 3int))
    } else if bit64(board_of(boards, 1, 3), sq as u64) {
        Some((1int, 3int))
    } else if bit64(board_of(boards, 0, 4), sq as u64) {
        Some((0int, 4int))
    } else if bit64(board_of(boards, 1, 4), sq as u64) {
        Some((1int, 4int))
    } else if bit64(board_of(boards, 0, 5), sq as u64) {
        Some((0int, 5int))
    } else if bit64(board_of(boards, 1, 5), sq as u64) {
        Some((1int, 5int))
    } else {
        None
    }
}

/// The digit character of an empty run.
pub open spec fn digit_char(d: int) -> char {
    if d == 1 {
        '1'
    } else if d == 2 {
        '2'
    } else if d == 3 {
        '3'
    } else if d == 4 {
        '4'
    } else if d == 5 {
        '5'
    } else if d == 6 {
        '6'
    } else if d == 7 {
        '7'
    } else {
        '8'
    }
}

/// The FEN letter of a piece, upper case for the first mover.
pub open spec fn fen_char(side: int, piece: int) -> char {
    if side == 0 {
        if piece == 0 {
            'P'
        } else if piece == 1 {
            'R'
        } else if piece == 2 {
            'N'
        } else if piece == 3 {
            'B'
        } else if piece == 4 {
            'Q'
        } else {
            'K'
        }
    } else {
        if piece == 0 {
            'p'
        } else if piece == 1 {
            'r'
        } else if piece == 2 {
            'n'
        } else if piece == 3 {
            'b'
        } else if piece == 4 {
            'q'
        } else {
            'k'
        }
    }
}

/// One rank of the FEN placement from `file` on, with `run` empty squares
/// pending.
pub open spec fn fp_rank(boards: [[Bitboard; 6]; 2], rank: int, file: int, run: int) -> Seq<char>
    decreases 8 - file,
{
    if file >= 8 {
        if run > 0 {
            seq![digit_char(run)]
        } else {
            Seq::empty()
        }
    } else {
        match occupant_at(boards, rank * 8 + file) {
            None => fp_rank(boards, rank, file + 1, run + 1),
            Some(sp) => (if run > 0 {
                seq![digit_char(run)]
            } else {
                Seq::empty()
            }) + seq![fen_char(sp.0, sp.1)] + fp_rank(boards, rank, file + 1, 0),
        }
    }
}

/// The FEN placement from `rank` down to the first mover's back rank.
pub open spec fn fp_placement(boards: [[Bitboard; 6]; 2], rank: int) -> Seq<char>
    decreases rank + 1,
{
    if rank < 0 {
        Seq::empty()
    } else {
        fp_rank(boards, rank, 0, 0) + (if rank > 0 {
            seq!['/']
        } else {
            Seq::empty()
        }) + fp_placement(boards, rank - 1)
    }
}

/// The castling-right field of the fingerprint.
pub open spec fn fp_rights(rights: [bool; 4]) -> Seq<char> {
    let s = (if rights[1] {
        seq!['K']
    } else {
        Seq::empty()
    }) + (if rights[0] {
        seq!['Q']
    } else {
        Seq::empty()
    }) + (if rights[3] {
        seq!['k']
    } else {
        Seq::empty()
    }) + (if rights[2] {
        seq!['q']
    } else {
        Seq::empty()
    });
    if s.len() == 0 {
        seq!['-']
    } else {
        s
    }
}

/// THE FINGERPRINT IS A FUNCTION OF THE POSITION ALONE: the reduced book
/// fingerprint reads nothing but the placement, the side to move and the
/// castling rights, so semantically identical positions fingerprint alike
/// however they were reached or written down.
pub open spec fn fp_full(boards: [[Bitboard; 6]; 2], side: int, rights: [bool; 4]) -> Seq<char> {
    fp_placement(boards, 7) + seq![' '] + seq![
        if side == 1 {
            'b'
        } else {
            'w'
        },
    ] + seq![' '] + fp_rights(rights) + seq![' ', '-']
}

/// Two states that agree on placement, side and rights fingerprint alike.
pub proof fn lemma_fingerprint_congruence(a: GameState, b: GameState)
    requires
        a.piece_boards == b.piece_boards,
        side_of(a) == side_of(b),
        a.castling_rights == b.castling_rights,
    ensures
        fp_full(a.piece_boards, side_of(a), a.castling_rights) == fp_full(
            b.piece_boards,
            side_of(b),
            b.castling_rights,
        ),
{
}

/// The letter of a piece in FEN, upper case for the first mover.
pub fn piece_to_char(side: Side, piece: Piece) -> (r: char)
    requires
        side < 2,
        piece < 6,
{
    if side == WHITE {
        if piece == 0 {
            'P'
        } else if piece == 1 {
            'R'
        } else if piece == 2 {
            'N'
        } else if piece == 3 {
            'B'
        } else if piece == 4 {
            'Q'
        } else {
            'K'
        }
    } else {
        if piece == 0 {
            'p'
        } else if piece == 1 {
            'r'
        } else if piece == 2 {
            'n'
        } else if piece == 3 {
            'b'
        } else if piece == 4 {
            'q'
        } else {
            'k'
        }
    }
}

fn digit_str(d: usize) -> (r: &'static str)
    requires
        1 <= d <= 8,
    ensures
        r@ == seq![digit_char(d as int)],
{
    proof {
        reveal_strlit("1");
        reveal_strlit("2");
        reveal_strlit("3");
        reveal_strlit("4");
        reveal_strlit("5");
        reveal_strlit("6");
        reveal_strlit("7");
        reveal_strlit("8");
    }
    let r = if d == 1 {
        "1"
    } else if d == 2 {
        "2"
    } else if d == 3 {
        "3"
    } else if d == 4 {
        "4"
    } else if d == 5 {
        "5"
    } else if d == 6 {
        "6"
    } else if d == 7 {
        "7"
    } else {
        "8"
    };
    proof {
        assert(r@ =~= seq![digit_char(d as int)]);
    }
    r
}

fn fen_piece_str(side: Side, piece: Piece) -> (r: &'static str)
    requires
        side < 2,
        piece < 6,
    ensures
        r@ == seq![fen_char(side as int, piece as int)],
{
    proof {
        reveal_strlit("P");
        reveal_strlit("R");
        reveal_strlit("N");
        reveal_strlit("B");
        reveal_strlit("Q");
        reveal_strlit("K");
        reveal_strlit("p");
        reveal_strlit("r");
        reveal_strlit("n");
        reveal_strlit("b");
        reveal_strlit("q");
        reveal_strlit("k");
    }
    let r = if side == WHITE {
        if piece == 0 {
            "P"
        } else if piece == 1 {
            "R"
        } else if piece == 2 {
            "N"
        } else if piece == 3 {
            "B"
        } else if piece == 4 {
            "Q"
        } else {
            "K"
        }
    } else {
        if piece == 0 {
            "p"
        } else if piece == 1 {
            "r"
        } else if piece == 2 {
            "n"
        } else if piece == 3 {
            "b"
        } else if piece == 4 {
            "q"
        } else {
            "k"
        }
    };
    proof {
        assert(r@ =~= seq![fen_char(side as int, piece as int)]);
    }
    r
}

impl GameState {
    /// The reduced four-field fingerprint used for book lookup: placement,
    /// side to move, castling rights, and a dash for en passant. The result
    /// is a function of those three projections alone.
    pub fn to_reduced_book_fen(&self) -> (r: String)
        ensures
            r@ == fp_full(self.piece_boards, side_of(*self), self.castling_rights),
    {
        let ghost boards = self.piece_boards;
        let mut fen_string = self.placement_string();
        proof {
            reveal_strlit(" ");
            reveal_strlit("w");
            reveal_strlit("b");
            reveal_strlit("-");
            reveal_strlit("K");
            reveal_strlit("Q");
            reveal_strlit("k");
            reveal_strlit("q");
        }
        fen_string.append(" ");
        if self.side_to_move() == WHITE {
            fen_string.append("w");
        } else {
            fen_string.append("b");
        }
        fen_string.append(" ");
        let ghost before_rights = fen_string@;
        let mut some_castle = false;
        if self.castling_rights[WHITE_KINGSIDE_CASTLE] {
            fen_string.append("K");
            some_castle = true;
        }
        if self.castling_rights[WHITE_QUEENSIDE_CASTLE] {
            fen_string.append("Q");
            some_castle = true;
        }
        if self.castling_rights[BLACK_KINGSIDE_CASTLE] {
            fen_string.append("k");
            some_castle = true;
        }
        if self.castling_rights[BLACK_QUEENSIDE_CASTLE] {
            fen_string.append("q");
            some_castle = true;
        }
        proof {
            let body = (if self.castling_rights[1] {
                seq!['K']
            } else {
                Seq::<char>::empty()
            }) + (if self.castling_rights[0] {
                seq!['Q']
            } else {
                Seq::<char>::empty()
            }) + (if self.castling_rights[3] {
                seq!['k']
            } else {
                Seq::<char>::empty()
            }) + (if self.castling_rights[2] {
                seq!['q']
            } else {
                Seq::<char>::empty()
            });
            assert(fen_string@ =~= before_rights + body);
            assert(some_castle == (body.len() > 0));
        }
        if !some_castle {
            fen_string.append("-");
        }
        proof {
            assert(fen_string@ =~= before_rights + fp_rights(self.castling_rights));
        }
        fen_string.append(" ");
        fen_string.append("-");
        proof {
            assert(fen_string@ =~= fp_full(boards, side_of(*self), self.castling_rights));
        }
        fen_string
    }

    /// The placement field alone, exactly `fp_placement` of the boards.
    pub fn placement_string(&self) -> (r: String)
        ensures
            r@ == fp_placement(self.piece_boards, 7),
    {
        let ghost boards = self.piece_boards;
        let mut fen_string = String::new();
        let mut rank_plus: usize = 8;
        proof {
            assert(fp_placement(boards, 7) =~= fen_string@ + fp_placement(boards, 7));
        }
        while rank_plus >= 1
            invariant
                rank_plus <= 8,
                boards == self.piece_boards,
                fp_placement(boards, 7) == fen_string@ + fp_placement(boards, rank_plus as int - 1),
            decreases rank_plus,
        {
            let rank = rank_plus - 1;
            let mut empty_stack: usize = 0;
            let mut file: usize = 0;
            let ghost tail = (if rank > 0 {
                seq!['/']
            } else {
                Seq::<char>::empty()
            }) + fp_placement(boards, rank as int - 1);
            proof {
                assert(fp_placement(boards, rank as int) =~= fp_rank(boards, rank as int, 0, 0)
                    + tail);
                assert(fp_placement(boards, 7) =~= fen_string@ + (fp_rank(boards, rank as int, 0, 0)
                    + tail));
            }
            while file < 8
                invariant
                    file <= 8,
                    empty_stack <= file,
                    rank < 8,
                    boards == self.piece_boards,
                    fp_placement(boards, 7) == fen_string@ + (fp_rank(
                        boards,
                        rank as int,
                        file as int,
                        empty_stack as int,
                    ) + tail),
                decreases 8 - file,
            {
                let square = rank * 8 + file;
                match self.find_piece_on_all(square) {
                    None => {
                        empty_stack = empty_stack + 1;
                    },
                    Some((side, piece)) => {
                        let ghost before = fen_string@;
                        let ghost run = empty_stack as int;
                        if empty_stack > 0 {
                            fen_string.append(digit_str(empty_stack));
                        }
                        fen_string.append(fen_piece_str(side, piece));
                        proof {
                            assert(fen_string@ =~= before + (if run > 0 {
                                seq![digit_char(run)]
                            } else {
                                Seq::<char>::empty()
                            }) + seq![fen_char(side as int, piece as int)]);
                            assert(fp_rank(boards, rank as int, square as int - rank * 8, run)
                                =~= ((if run > 0 {
                                seq![digit_char(run)]
                            } else {
                                Seq::<char>::empty()
                            }) + seq![fen_char(side as int, piece as int)]) + fp_rank(
                                boards,
                                rank as int,
                                square as int - rank * 8 + 1,
                                0,
                            ));
                            assert(fp_placement(boards, 7) =~= fen_string@ + (fp_rank(
                                boards,
                                rank as int,
                                file as int + 1,
                                0,
                            ) + tail));
                        }
                        empty_stack = 0;
                    },
                }
                file = file + 1;
            }
            let ghost before_flush = fen_string@;
            if empty_stack > 0 {
                fen_string.append(digit_str(empty_stack));
            }
            proof {
                assert(fen_string@ =~= before_flush + fp_rank(
                    boards,
                    rank as int,
                    8,
                    empty_stack as int,
                ));
            }
            if rank > 0 {
                proof {
                    reveal_strlit("/");
                }
                fen_string.append("/");
            }
            proof {
                assert(fp_placement(boards, 7) =~= fen_string@ + fp_placement(
                    boards,
                    rank as int - 1,
                ));
            }
            rank_plus = rank_plus - 1;
        }
        proof {
            assert(fp_placement(boards, -1) =~= Seq::<char>::empty());
            assert(fen_string@ =~= fp_placement(boards, 7));
        }
        fen_string
    }
}


impl PartialEq for History {
    /// Frames are equal when every recorded field is.
    fn eq(&self, other: &History) -> (r: bool) {
        let same = self.mv.0 == other.mv.0 && self.fifty_move_rule == other.fifty_move_rule
            && self.castling_rights[0] == other.castling_rights[0] && self.castling_rights[1]
            == other.castling_rights[1] && self.castling_rights[2] == other.castling_rights[2]
            && self.castling_rights[3] == other.castling_rights[3] && self.zobrist.0
            == other.zobrist.0 && self.en_passant.0 == other.en_passant.0
        ;
        proof {
            broadcast use vstd::array::axiom_array_ext_equal;

            if same {
                assert(self.castling_rights =~= other.castling_rights);
                assert(self.mv =~= other.mv);
                assert(self.zobrist =~= other.zobrist);
                assert(self.en_passant =~= other.en_passant);
            }
        }
        same
    }
}

impl vstd::std_specs::cmp::PartialEqSpecImpl for History {
    open spec fn obeys_eq_spec() -> bool {
        true
    }

    open spec fn eq_spec(&self, other: &History) -> bool {
        &&& self.mv == other.mv
        &&& self.fifty_move_rule == other.fifty_move_rule
        &&& self.castling_rights == other.castling_rights
        &&& self.zobrist == other.zobrist
        &&& self.en_passant == other.en_passant
    }
}

impl PartialEq for GameState {
    /// Positions are equal when every field, the history stack included, is
    /// bit-for-bit equal.
    fn eq(&self, other: &GameState) -> (r: bool) {
        let mut boards_equal = true;
        let mut a: usize = 0;
        while a < 2
            invariant
                a <= 2,
                boards_equal == (forall|x: int, y: int|
                    0 <= x < a && 0 <= y < 6 ==> #[trigger] self.piece_boards[x][y].0
                        == other.piece_boards[x][y].0),
            decreases 2 - a,
        {
            let mut b: usize = 0;
            while b < 6
                invariant
                    a < 2,
                    b <= 6,
                    boards_equal == ((forall|x: int, y: int|
                        0 <= x < a && 0 <= y < 6 ==> #[trigger] self.piece_boards[x][y].0
                            == other.piece_boards[x][y].0) && (forall|y: int|
                        0 <= y < b ==> #[trigger] self.piece_boards[a as int][y].0
                            == other.piece_boards[a as int][y].0)),
                decreases 6 - b,
            {
                if self.piece_boards[a][b].0 != other.piece_boards[a][b].0 {
                    boards_equal = false;
                }
                b = b + 1;
            }
            a = a + 1;
        }
        if !boards_equal {
            proof {
                assert(!(self.piece_boards =~= other.piece_boards)) by {
                    broadcast use vstd::array::axiom_array_ext_equal;

                    let (x, y) = choose|x: int, y: int|
                        0 <= x < 2 && 0 <= y < 6 && #[trigger] self.piece_boards[x][y].0
                            != other.piece_boards[x][y].0;
                    assert(self.piece_boards[x][y] != other.piece_boards[x][y]);
                }
            }
            return false;
        }
        proof {
            broadcast use vstd::array::axiom_array_ext_equal;

            assert forall|x: int, y: int| 0 <= x < 2 && 0 <= y < 6 implies self.piece_boards[x][y]
                =~= other.piece_boards[x][y] by {
                assert(self.piece_boards[x][y].0 == other.piece_boards[x][y].0);
            }
            assert(self.piece_boards[0] =~= other.piece_boards[0]);
            assert(self.piece_boards[1] =~= other.piece_boards[1]);
            assert(self.piece_boards =~= other.piece_boards);
        }
        if self.plys != other.plys || self.en_passant_board.0 != other.en_passant_board.0
            || self.fifty_move_rule != other.fifty_move_rule || self.zobrist.0 != other.zobrist.0
            || self.phase != other.phase || self.search_ply != other.search_ply {
            return false;
        }
        if self.castling_rights[0] != other.castling_rights[0] || self.castling_rights[1]
            != other.castling_rights[1] || self.castling_rights[2] != other.castling_rights[2]
            || self.castling_rights[3] != other.castling_rights[3] {
            proof {
                broadcast use vstd::array::axiom_array_ext_equal;

            }
            return false;
        }
        if self.has_castled[0] != other.has_castled[0] || self.has_castled[1]
            != other.has_castled[1] {
            proof {
                broadcast use vstd::array::axiom_array_ext_equal;

            }
            return false;
        }
        if self.material[0] != other.material[0] || self.material[1] != other.material[1]
            || self.material_eg[0] != other.material_eg[0] || self.material_eg[1]
            != other.material_eg[1] || self.psqt_mg[0] != other.psqt_mg[0] || self.psqt_mg[1]
            != other.psqt_mg[1] || self.psqt_eg[0] != other.psqt_eg[0] || self.psqt_eg[1]
            != other.psqt_eg[1] {
            proof {
                broadcast use vstd::array::axiom_array_ext_equal;

            }
            return false;
        }
        if self.history.len() != other.history.len() {
            return false;
        }
        let n = self.history.len();
        let mut i: usize = 0;
        while i < n
            invariant
                n == self.history@.len(),
                n == other.history@.len(),
                i <= n,
                forall|j: int| 0 <= j < i ==> #[trigger] self.history@[j] == other.history@[j],
            decreases n - i,
        {
            let hs = self.history[i];
            let ho = other.history[i];
            if !(hs.mv.0 == ho.mv.0 && hs.fifty_move_rule == ho.fifty_move_rule
                && hs.castling_rights[0] == ho.castling_rights[0] && hs.castling_rights[1]
                == ho.castling_rights[1] && hs.castling_rights[2] == ho.castling_rights[2]
                && hs.castling_rights[3] == ho.castling_rights[3] && hs.zobrist.0 == ho.zobrist.0
                && hs.en_passant.0 == ho.en_passant.0) {
                return false;
            }
            proof {
                broadcast use vstd::array::axiom_array_ext_equal;

                assert(hs.castling_rights =~= ho.castling_rights);
                assert(hs =~= ho);
            }
            i = i + 1;
        }
        proof {
            broadcast use vstd::array::axiom_array_ext_equal;

            assert(self.history@ =~= other.history@);
            assert(self.castling_rights =~= other.castling_rights);
            assert(self.has_castled =~= other.has_castled);
            assert(self.material =~= other.material);
            assert(self.material_eg =~= other.material_eg);
            assert(self.psqt_mg =~= other.psqt_mg);
            assert(self.psqt_eg =~= other.psqt_eg);
        }
        true
    }
}

impl vstd::std_specs::cmp::PartialEqSpecImpl for GameState {
    open spec fn obeys_eq_spec() -> bool {
        true
    }

    open spec fn eq_spec(&self, other: &GameState) -> bool {
        &&& self.piece_boards == other.piece_boards
        &&& self.plys == other.plys
        &&& self.en_passant_board == other.en_passant_board
        &&& self.castling_rights == other.castling_rights
        &&& self.fifty_move_rule == other.fifty_move_rule
        &&& self.zobrist == other.zobrist
        &&& self.history@ == other.history@
        &&& self.material == other.material
        &&& self.material_eg == other.material_eg
        &&& self.psqt_mg == other.psqt_mg
        &&& self.psqt_eg == other.psqt_eg
        &&& self.phase == other.phase
        &&& self.has_castled == other.has_castled
        &&& self.search_ply == other.search_ply
    }
}

} // verus!
