//! Legal move generation on top of the precomputed attack tables, and the
//! pseudo-legal apply that tests a move by making it and checking whether
//! the mover's king is attacked.

use vstd::prelude::*;
use crate::bits::{bit64, pop64};
use crate::bitboard::{Bitboard, Square};
use crate::moves::{Move, MoveList, Piece, CastlingSide, mv_castle_side, mv_from, mv_to, mv_moving,
    mv_captured, mv_is_capture, mv_is_promotion, mv_is_en_passant, mv_is_double_push};
use crate::gamestate::{GameState, Side, board_of, side_of, move_ok, is_make_of, is_unmake_of,
    states_equal, wf, hashed, evaled, has_room, undo_ok, single_bit, sq_unoccupied, sq_only,
    other_side, frame_of, lemma_make_then_undo_ok, lemma_make_unmake, lemma_make_preserves_wf,
    PAWN, ROOK, KNIGHT, BISHOP, QUEEN, KING, WHITE, BLACK, WHITE_QUEENSIDE_CASTLE,
    WHITE_KINGSIDE_CASTLE, BLACK_QUEENSIDE_CASTLE, BLACK_KINGSIDE_CASTLE, A1, E1, C1, G1, H1, A8,
    E8, C8, G8, H8};
use crate::tables::{Tables, king_attacks_spec, knight_attacks_spec, file_mask_spec};
use crate::magic::{slider_attacks, magic_index, lemma_slider_attacks_masked, spec_magic_index};

verus! {

/// The union of one side's six boards.
pub open spec fn occ_spec(boards: [[Bitboard; 6]; 2], side: int) -> u64 {
    ((((board_of(boards, side, 0) | board_of(boards, side, 1)) | board_of(boards, side, 2))
        | board_of(boards, side, 3)) | board_of(boards, side, 4)) | board_of(boards, side, 5)
}

/// A square is in the occupancy exactly when one of the boards holds it.
pub proof fn lemma_occ_bits(boards: [[Bitboard; 6]; 2], side: int, i: u64)
    requires
        i < 64,
    ensures
        bit64(occ_spec(boards, side), i) <==> exists|p: int|
            0 <= p < 6 && bit64(#[trigger] board_of(boards, side, p), i),
{
    let b0 = board_of(boards, side, 0);
    let b1 = board_of(boards, side, 1);
    let b2 = board_of(boards, side, 2);
    let b3 = board_of(boards, side, 3);
    let b4 = board_of(boards, side, 4);
    let b5 = board_of(boards, side, 5);
    crate::bits::lemma_bit_or(((((b0 | b1) | b2) | b3) | b4), b5, i);
    crate::bits::lemma_bit_or((((b0 | b1) | b2) | b3), b4, i);
    crate::bits::lemma_bit_or(((b0 | b1) | b2), b3, i);
    crate::bits::lemma_bit_or((b0 | b1), b2, i);
    crate::bits::lemma_bit_or(b0, b1, i);
    if bit64(occ_spec(boards, side), i) {
        if bit64(b0, i) {
            assert(bit64(board_of(boards, side, 0), i));
        } else if bit64(b1, i) {
            assert(bit64(board_of(boards, side, 1), i));
        } else if bit64(b2, i) {
            assert(bit64(board_of(boards, side, 2), i));
        } else if bit64(b3, i) {
            assert(bit64(board_of(boards, side, 3), i));
        } else if bit64(b4, i) {
            assert(bit64(board_of(boards, side, 4), i));
        } else {
            assert(bit64(board_of(boards, side, 5), i));
        }
    }
}

/// The mask of squares from which an enemy pawn would attack `sq`.
pub open spec fn pawn_attackers_spec(sq: int, enemy: int, files: u64, files7: u64) -> u64 {
    let sqb = 1u64 << sq as u64;
    if enemy == 0 {
        ((sqb & !files7) >> 7) | ((sqb & !files) >> 9)
    } else {
        ((sqb & !files) << 7) | ((sqb & !files7) << 9)
    }
}

/// The enemy pieces that attack `sq` given `blockers`.
pub open spec fn attackers_spec(boards: [[Bitboard; 6]; 2], sq: int, enemy: int, blockers: u64) -> u64 {
    ((((knight_attacks_spec(sq) & board_of(boards, enemy, 2)) | (slider_attacks(1, sq, blockers)
        & board_of(boards, enemy, 1))) | (slider_attacks(3, sq, blockers) & board_of(
        boards,
        enemy,
        3,
    ))) | ((slider_attacks(3, sq, blockers) | slider_attacks(1, sq, blockers)) & board_of(
        boards,
        enemy,
        4,
    ))) | (pawn_attackers_spec(sq, enemy, file_mask_spec(0), file_mask_spec(7)) & board_of(
        boards,
        enemy,
        0,
    ))
}

/// Whether `sq` is attacked by `enemy` with all pieces as blockers.
pub open spec fn square_attacked(s: GameState, sq: int, enemy: int) -> bool {
    attackers_spec(
        s.piece_boards,
        sq,
        enemy,
        occ_spec(s.piece_boards, 0) | occ_spec(s.piece_boards, 1),
    ) != 0
}

/// Whether the king of `side` is attacked.
pub open spec fn king_attacked(s: GameState, side: int) -> bool {
    let ksq = vstd::std_specs::bits::u64_trailing_zeros(board_of(s.piece_boards, side, 5)) as int;
    square_attacked(s, ksq, 1 - side)
}

/// The side to move stands in check.
pub open spec fn in_check(s: GameState) -> bool {
    king_attacked(s, side_of(s))
}

/// Every move the list holds is coherent with the position.
pub open spec fn all_moves_ok(s: GameState, ml: MoveList) -> bool {
    &&& ml.length <= 256
    &&& forall|i: int| 0 <= i < ml.length ==> move_ok(s, (#[trigger] ml.moves@[i]).0)
}

/// Rook attack lookup through the magic table.
#[inline(always)]
pub fn rook_move_bitboard(t: &Tables, square: Square, blockers: Bitboard) -> (r: Bitboard)
    requires
        t.wf(),
        square < 64,
    ensures
        r.0 == slider_attacks(1, square as int, blockers.0),
{
    let entry = t.rook_entries[square];
    let idx = magic_index(entry, blockers);
    proof {
        let m = entry.mask.0;
        let b = blockers.0;
        assert((b & m) & m == b & m) by (bit_vector);
        lemma_slider_attacks_masked(1, square as int, b);
        assert(spec_magic_index(entry, b & m) == spec_magic_index(entry, b));
    }
    t.rook_plays[square][idx]
}

/// Bishop attack lookup through the magic table.
#[inline(always)]
pub fn bishop_move_bitboard(t: &Tables, square: Square, blockers: Bitboard) -> (r: Bitboard)
    requires
        t.wf(),
        square < 64,
    ensures
        r.0 == slider_attacks(3, square as int, blockers.0),
{
    let entry = t.bishop_entries[square];
    let idx = magic_index(entry, blockers);
    proof {
        let m = entry.mask.0;
        let b = blockers.0;
        assert((b & m) & m == b & m) by (bit_vector);
        lemma_slider_attacks_masked(3, square as int, b);
        assert(spec_magic_index(entry, b & m) == spec_magic_index(entry, b));
    }
    t.bishop_plays[square][idx]
}

/// Queen attacks: the union of rook and bishop attacks.
#[inline(always)]
pub fn queen_move_bitboard(t: &Tables, square: Square, blockers: Bitboard) -> (r: Bitboard)
    requires
        t.wf(),
        square < 64,
    ensures
        r.0 == slider_attacks(3, square as int, blockers.0) | slider_attacks(
            1,
            square as int,
            blockers.0,
        ),
{
    bishop_move_bitboard(t, square, blockers).union(rook_move_bitboard(t, square, blockers))
}

#[inline(always)]
pub fn knight_move_bitboard(t: &Tables, square: Square) -> (r: Bitboard)
    requires
        t.wf(),
        square < 64,
    ensures
        r.0 == knight_attacks_spec(square as int),
{
    t.knight_moves[square]
}

#[inline(always)]
pub fn king_move_bitboard(t: &Tables, square: Square) -> (r: Bitboard)
    requires
        t.wf(),
        square < 64,
    ensures
        r.0 == king_attacks_spec(square as int),
{
    t.king_moves[square]
}

/// A rook, bishop or queen.
#[inline(always)]
pub fn is_slider(piece: Piece) -> (r: bool)
    ensures
        r == (0 < piece < 5),
{
    piece > PAWN && piece < KING
}

impl GameState {
    /// All squares one side occupies.
    pub fn occupancy(&self, side: Side, t: &Tables) -> (r: Bitboard)
        requires
            side < 2,
        ensures
            r.0 == occ_spec(self.piece_boards, side as int),
    {
        self.piece_boards[side][PAWN].union(self.piece_boards[side][ROOK]).union(
            self.piece_boards[side][KNIGHT],
        ).union(self.piece_boards[side][BISHOP]).union(self.piece_boards[side][QUEEN]).union(
            self.piece_boards[side][KING],
        )
    }

    /// Which piece of `side` stands on `square`.
    pub fn find_piece_on(&self, square: Square, side: Side) -> (r: Piece)
        requires
            square < 64,
            side < 2,
            exists|p: int| 0 <= p < 6 && bit64(#[trigger] board_of(self.piece_boards, side as int, p), square as u64),
        ensures
            r < 6,
            bit64(board_of(self.piece_boards, side as int, r as int), square as u64),
    {
        let mut piece: usize = 0;
        while piece < 6
            invariant
                piece <= 6,
                square < 64,
                side < 2,
                exists|p: int|
                    piece <= p < 6 && bit64(
                        #[trigger] board_of(self.piece_boards, side as int, p),
                        square as u64,
                    ),
            decreases 6 - piece,
        {
            if self.piece_boards[side][piece].has(square) {
                return piece;
            }
            proof {
                let p = choose|p: int|
                    piece <= p < 6 && bit64(
                        #[trigger] board_of(self.piece_boards, side as int, p),
                        square as u64,
                    );
                assert(p >= piece + 1);
            }
            piece = piece + 1;
        }
        proof {
            assert(false);
        }
        0
    }

    /// Which side and piece, if any, stand on `square`, scanned in the
    /// fixed piece-major order `occupant_at` describes.
    pub fn find_piece_on_all(&self, square: Square) -> (r: Option<(Side, Piece)>)
        requires
            square < 64,
        ensures
            match r {
                Some(sp) => sp.0 < 2 && sp.1 < 6 && bit64(
                    board_of(self.piece_boards, sp.0 as int, sp.1 as int),
                    square as u64,
                ) && crate::gamestate::occupant_at(self.piece_boards, square as int) == Some(
                    (sp.0 as int, sp.1 as int),
                ),
                None => forall|a: int, b: int|
                    0 <= a < 2 && 0 <= b < 6 ==> !bit64(
                        #[trigger] board_of(self.piece_boards, a, b),
                        square as u64,
                    ),
            },
            r is None ==> crate::gamestate::occupant_at(self.piece_boards, square as int) is None,
    {
        let mut piece: usize = 0;
        while piece < 6
            invariant
                piece <= 6,
                square < 64,
                forall|a: int, b: int|
                    0 <= a < 2 && 0 <= b < piece ==> !bit64(
                        #[trigger] board_of(self.piece_boards, a, b),
                        square as u64,
                    ),
            decreases 6 - piece,
        {
            if self.piece_boards[0][piece].has(square) {
                return Some((0, piece));
            }
            if self.piece_boards[1][piece].has(square) {
                return Some((1, piece));
            }
            piece = piece + 1;
        }
        None
    }

    /// The enemy pieces attacking `square` under the given blocker set.
    pub fn attackers_on_square(&self, square: Square, enemy_side: Side, blockers: Bitboard, t:
        &Tables) -> (r: Bitboard)
        requires
            t.wf(),
            square < 64,
            enemy_side < 2,
        ensures
            r.0 == attackers_spec(self.piece_boards, square as int, enemy_side as int, blockers.0),
    {
        let square_bitboard = Bitboard::square(square);
        let knights = knight_move_bitboard(t, square).intersect(
            self.piece_boards[enemy_side][KNIGHT],
        );
        let rooks = rook_move_bitboard(t, square, blockers).intersect(
            self.piece_boards[enemy_side][ROOK],
        );
        let bishops = bishop_move_bitboard(t, square, blockers).intersect(
            self.piece_boards[enemy_side][BISHOP],
        );
        let queens = queen_move_bitboard(t, square, blockers).intersect(
            self.piece_boards[enemy_side][QUEEN],
        );
        let pawns = if enemy_side == WHITE {
            (square_bitboard.intersect(t.file_masks[7].invert()).shr(7)).union(
                square_bitboard.intersect(t.file_masks[0].invert()).shr(9),
            ).intersect(self.piece_boards[enemy_side][PAWN])
        } else {
            (square_bitboard.intersect(t.file_masks[0].invert()).shl(7)).union(
                square_bitboard.intersect(t.file_masks[7].invert()).shl(9),
            ).intersect(self.piece_boards[enemy_side][PAWN])
        };
        knights.union(rooks).union(bishops).union(queens).union(pawns)
    }

    /// Whether the side to move is in check.
    pub fn is_in_check(&self, t: &Tables) -> (r: bool)
        requires
            t.wf(),
            wf(*self),
        ensures
            r == in_check(*self),
    {
        let our_side = self.side_to_move();
        let enemy_side = other_side(our_side);
        proof {
            crate::gamestate::lemma_single_bit_nonzero(
                board_of(self.piece_boards, our_side as int, 5),
            );
        }
        let king_sq = self.piece_boards[our_side][KING].next_piece_index();
        let blockers = self.occupancy(WHITE, t).union(self.occupancy(BLACK, t));
        self.attackers_on_square(king_sq, enemy_side, blockers, t).is_filled()
    }

    /// Every square the enemy attacks under the given blocker set.
    pub fn attacked_squares(&self, enemy_side: Side, blockers: Bitboard, t: &Tables) -> (r:
        Bitboard)
        requires
            t.wf(),
            enemy_side < 2,
            single_bit(board_of(self.piece_boards, enemy_side as int, 5)),
    {
        let mut danger_squares = Bitboard::empty();
        proof {
            crate::gamestate::lemma_single_bit_nonzero(
                board_of(self.piece_boards, enemy_side as int, 5),
            );
        }
        danger_squares = danger_squares.union(
            king_move_bitboard(t, self.piece_boards[enemy_side][KING].next_piece_index()),
        );
        let mut it = self.piece_boards[enemy_side][QUEEN].into_iter();
        loop
            invariant
                t.wf(),
            decreases it.bitset.0,
        {
            match it.next() {
                None => {
                    break ;
                },
                Some(queen_index) => {
                    danger_squares = danger_squares.union(
                        queen_move_bitboard(t, queen_index, blockers),
                    );
                },
            }
        }
        let mut it = self.piece_boards[enemy_side][ROOK].into_iter();
        loop
            invariant
                t.wf(),
            decreases it.bitset.0,
        {
            match it.next() {
                None => {
                    break ;
                },
                Some(rook_index) => {
                    danger_squares = danger_squares.union(
                        rook_move_bitboard(t, rook_index, blockers),
                    );
                },
            }
        }
        let mut it = self.piece_boards[enemy_side][BISHOP].into_iter();
        loop
            invariant
                t.wf(),
            decreases it.bitset.0,
        {
            match it.next() {
                None => {
                    break ;
                },
                Some(bishop_index) => {
                    danger_squares = danger_squares.union(
                        bishop_move_bitboard(t, bishop_index, blockers),
                    );
                },
            }
        }
        let mut it = self.piece_boards[enemy_side][KNIGHT].into_iter();
        loop
            invariant
                t.wf(),
            decreases it.bitset.0,
        {
            match it.next() {
                None => {
                    break ;
                },
                Some(knight_index) => {
                    danger_squares = danger_squares.union(knight_move_bitboard(t, knight_index));
                },
            }
        }
        if enemy_side == WHITE {
            danger_squares = danger_squares.union(
                self.piece_boards[enemy_side][PAWN].intersect(t.file_masks[0].invert()).shl(9),
            );
            danger_squares = danger_squares.union(
                self.piece_boards[enemy_side][PAWN].intersect(t.file_masks[7].invert()).shl(7),
            );
        } else {
            danger_squares = danger_squares.union(
                self.piece_boards[enemy_side][PAWN].intersect(t.file_masks[7].invert()).shr(7),
            );
            danger_squares = danger_squares.union(
                self.piece_boards[enemy_side][PAWN].intersect(t.file_masks[0].invert()).shr(9),
            );
        }
        danger_squares
    }

    /// The squares the king may not move to: everything the enemy attacks
    /// once our king is lifted off the board (so sliders see through it).
    pub fn king_danger_squares(&self, our_side: Side, blockers: Bitboard, t: &Tables) -> (r:
        Bitboard)
        requires
            t.wf(),
            our_side < 2,
            single_bit(board_of(self.piece_boards, 1 - our_side as int, 5)),
    {
        let enemy = other_side(our_side);
        self.attacked_squares(
            enemy,
            blockers.intersect(self.piece_boards[our_side][KING].invert()),
            t,
        )
    }

    /// Squares of our pieces pinned to the king on a rank or file, together
    /// with the rays they are pinned along.
    pub fn get_hv_pinmask(&self, king_square: Square, blockers: Bitboard, enemy_side: Side, t:
        &Tables) -> (r: Bitboard)
        requires
            t.wf(),
            king_square < 64,
            enemy_side < 2,
    {
        let king_blockers = rook_move_bitboard(t, king_square, blockers);
        let without_king_blockers = blockers.intersect(king_blockers.invert());
        let moves_from_king = rook_move_bitboard(t, king_square, without_king_blockers);
        let mut maybe_moves_to_king = Bitboard(0);
        let mut it = self.piece_boards[enemy_side][ROOK].intersect(moves_from_king).into_iter();
        loop
            invariant
                t.wf(),
            decreases it.bitset.0,
        {
            match it.next() {
                None => {
                    break ;
                },
                Some(square) => {
                    maybe_moves_to_king = maybe_moves_to_king.union(
                        rook_move_bitboard(t, square, without_king_blockers),
                    ).union(Bitboard::square(square));
                },
            }
        }
        let mut it = self.piece_boards[enemy_side][QUEEN].intersect(moves_from_king).into_iter();
        loop
            invariant
                t.wf(),
            decreases it.bitset.0,
        {
            match it.next() {
                None => {
                    break ;
                },
                Some(square) => {
                    maybe_moves_to_king = maybe_moves_to_king.union(
                        rook_move_bitboard(t, square, without_king_blockers),
                    ).union(Bitboard::square(square));
                },
            }
        }
        maybe_moves_to_king.intersect(moves_from_king)
    }

    /// Diagonal counterpart of `get_hv_pinmask`.
    pub fn get_diagonal_pinmask(&self, king_square: Square, blockers: Bitboard, enemy_side: Side, t:
        &Tables) -> (r: Bitboard)
        requires
            t.wf(),
            king_square < 64,
            enemy_side < 2,
    {
        let king_blockers = bishop_move_bitboard(t, king_square, blockers);
        let without_king_blockers = blockers.intersect(king_blockers.invert());
        let moves_from_king = bishop_move_bitboard(t, king_square, without_king_blockers);
        let mut maybe_moves_to_king = Bitboard(0);
        let mut it = self.piece_boards[enemy_side][BISHOP].intersect(moves_from_king).into_iter();
        loop
            invariant
                t.wf(),
            decreases it.bitset.0,
        {
            match it.next() {
                None => {
                    break ;
                },
                Some(square) => {
                    maybe_moves_to_king = maybe_moves_to_king.union(
                        bishop_move_bitboard(t, square, without_king_blockers),
                    ).union(Bitboard::square(square));
                },
            }
        }
        let mut it = self.piece_boards[enemy_side][QUEEN].intersect(moves_from_king).into_iter();
        loop
            invariant
                t.wf(),
            decreases it.bitset.0,
        {
            match it.next() {
                None => {
                    break ;
                },
                Some(square) => {
                    maybe_moves_to_king = maybe_moves_to_king.union(
                        bishop_move_bitboard(t, square, without_king_blockers),
                    ).union(Bitboard::square(square));
                },
            }
        }
        maybe_moves_to_king.intersect(moves_from_king)
    }
}



/// An attacker square always carries an enemy piece.
pub proof fn lemma_attackers_enemy(
    boards: [[Bitboard; 6]; 2],
    sq: int,
    enemy: int,
    blockers: u64,
    i: u64,
)
    requires
        i < 64,
        bit64(attackers_spec(boards, sq, enemy, blockers), i),
    ensures
        exists|p: int| 0 <= p < 6 && bit64(#[trigger] board_of(boards, enemy, p), i),
{
    let kn = knight_attacks_spec(sq) & board_of(boards, enemy, 2);
    let ro = slider_attacks(1, sq, blockers) & board_of(boards, enemy, 1);
    let bi = slider_attacks(3, sq, blockers) & board_of(boards, enemy, 3);
    let qu = (slider_attacks(3, sq, blockers) | slider_attacks(1, sq, blockers)) & board_of(
        boards,
        enemy,
        4,
    );
    let pa = pawn_attackers_spec(sq, enemy, file_mask_spec(0), file_mask_spec(7)) & board_of(
        boards,
        enemy,
        0,
    );
    crate::bits::lemma_bit_or((((kn | ro) | bi) | qu), pa, i);
    crate::bits::lemma_bit_or(((kn | ro) | bi), qu, i);
    crate::bits::lemma_bit_or((kn | ro), bi, i);
    crate::bits::lemma_bit_or(kn, ro, i);
    crate::bits::lemma_bit_and(knight_attacks_spec(sq), board_of(boards, enemy, 2), i);
    crate::bits::lemma_bit_and(slider_attacks(1, sq, blockers), board_of(boards, enemy, 1), i);
    crate::bits::lemma_bit_and(slider_attacks(3, sq, blockers), board_of(boards, enemy, 3), i);
    crate::bits::lemma_bit_and(
        (slider_attacks(3, sq, blockers) | slider_attacks(1, sq, blockers)),
        board_of(boards, enemy, 4),
        i,
    );
    crate::bits::lemma_bit_and(
        pawn_attackers_spec(sq, enemy, file_mask_spec(0), file_mask_spec(7)),
        board_of(boards, enemy, 0),
        i,
    );
    if bit64(kn, i) {
        assert(bit64(board_of(boards, enemy, 2), i));
    } else if bit64(ro, i) {
        assert(bit64(board_of(boards, enemy, 1), i));
    } else if bit64(bi, i) {
        assert(bit64(board_of(boards, enemy, 3), i));
    } else if bit64(qu, i) {
        assert(bit64(board_of(boards, enemy, 4), i));
    } else {
        assert(bit64(board_of(boards, enemy, 0), i));
    }
}

/// Coherence of a move reads only the fields that `states_equal` pins, so
/// it transfers between equal states.
pub proof fn lemma_move_ok_congruence(s1: GameState, s2: GameState, m: u32)
    requires
        states_equal(s1, s2),
    ensures
        move_ok(s1, m) == move_ok(s2, m),
{
    assert(s1.piece_boards == s2.piece_boards);
}

/// Same for a whole move list.
pub proof fn lemma_moves_ok_congruence(s1: GameState, s2: GameState, ml: MoveList)
    requires
        states_equal(s1, s2),
        all_moves_ok(s1, ml),
    ensures
        all_moves_ok(s2, ml),
{
    assert forall|i: int| 0 <= i < ml.length implies move_ok(s2, (#[trigger] ml.moves@[i]).0) by {
        lemma_move_ok_congruence(s1, s2, ml.moves@[i].0);
    }
}


/// Two states with pointwise-equal boards agree on who attacks what.
pub proof fn lemma_king_attacked_congruence(s1: GameState, s2: GameState, side: int)
    requires
        0 <= side < 2,
        forall|a: int, b: int|
            0 <= a < 2 && 0 <= b < 6 ==> #[trigger] board_of(s1.piece_boards, a, b) == board_of(
                s2.piece_boards,
                a,
                b,
            ),
    ensures
        king_attacked(s1, side) == king_attacked(s2, side),
{
    assert forall|a: int, b: int|
        0 <= a < 2 && 0 <= b < 6 implies #[trigger] board_of(s1.piece_boards, a, b) == board_of(
        s2.piece_boards,
        a,
        b,
    ) by {
    }
    assert(board_of(s1.piece_boards, 0, 0) == board_of(s2.piece_boards, 0, 0));
    assert(board_of(s1.piece_boards, 0, 1) == board_of(s2.piece_boards, 0, 1));
    assert(board_of(s1.piece_boards, 0, 2) == board_of(s2.piece_boards, 0, 2));
    assert(board_of(s1.piece_boards, 0, 3) == board_of(s2.piece_boards, 0, 3));
    assert(board_of(s1.piece_boards, 0, 4) == board_of(s2.piece_boards, 0, 4));
    assert(board_of(s1.piece_boards, 0, 5) == board_of(s2.piece_boards, 0, 5));
    assert(board_of(s1.piece_boards, 1, 0) == board_of(s2.piece_boards, 1, 0));
    assert(board_of(s1.piece_boards, 1, 1) == board_of(s2.piece_boards, 1, 1));
    assert(board_of(s1.piece_boards, 1, 2) == board_of(s2.piece_boards, 1, 2));
    assert(board_of(s1.piece_boards, 1, 3) == board_of(s2.piece_boards, 1, 3));
    assert(board_of(s1.piece_boards, 1, 4) == board_of(s2.piece_boards, 1, 4));
    assert(board_of(s1.piece_boards, 1, 5) == board_of(s2.piece_boards, 1, 5));
    assert(occ_spec(s1.piece_boards, 0) == occ_spec(s2.piece_boards, 0));
    assert(occ_spec(s1.piece_boards, 1) == occ_spec(s2.piece_boards, 1));
    let ksq = vstd::std_specs::bits::u64_trailing_zeros(
        board_of(s1.piece_boards, side, 5),
    ) as int;
    let blockers = occ_spec(s1.piece_boards, 0) | occ_spec(s1.piece_boards, 1);
    assert(attackers_spec(s1.piece_boards, ksq, 1 - side, blockers) == attackers_spec(
        s2.piece_boards,
        ksq,
        1 - side,
        blockers,
    ));
}

/// A coherent move is legal when it does not leave its own side's king
/// attacked: for a castle, none of the king's path squares is attacked
/// before the move; for every other move, the made position has no enemy
/// attacker on the mover's king square.
pub open spec fn move_legal(s: GameState, m: u32) -> bool {
    &&& move_ok(s, m)
    &&& match mv_castle_side(m) {
        Some(cs) => {
            let our = side_of(s);
            let kf = crate::gamestate::castle_king_from(our);
            let kt = crate::gamestate::castle_king_to(our, cs);
            &&& !square_attacked(s, kf, 1 - our)
            &&& !square_attacked(s, (kf + kt) / 2, 1 - our)
            &&& !square_attacked(s, kt, 1 - our)
        },
        None => forall|s2: GameState|
            #[trigger] is_make_of(s2, s, Move(m)) ==> !king_attacked(s2, side_of(s)),
    }
}

/// Legality reads only the fields that `states_equal` pins.
pub proof fn lemma_move_legal_congruence(s1: GameState, s2: GameState, m: u32)
    requires
        states_equal(s1, s2),
    ensures
        move_legal(s1, m) == move_legal(s2, m),
{
    lemma_move_ok_congruence(s1, s2, m);
    assert(s1.piece_boards == s2.piece_boards);
    assert(frame_of(s1, Move(m)) == frame_of(s2, Move(m)));
    if mv_castle_side(m) is None {
        assert forall|sm: GameState| #[trigger] is_make_of(sm, s1, Move(m)) implies is_make_of(
            sm,
            s2,
            Move(m),
        ) by {
        }
        assert forall|sm: GameState| #[trigger] is_make_of(sm, s2, Move(m)) implies is_make_of(
            sm,
            s1,
            Move(m),
        ) by {
        }
    }
}

impl GameState {
    /// Apply a move and keep it exactly when it is legal: castles are
    /// checked on the king's path beforehand, every other move is tested by
    /// making it. On `false` the position is returned bit-exactly unchanged;
    /// on `true` the move stands applied.
    pub fn apply_pseudo_legal_move(&mut self, m: Move, t: &Tables) -> (r: bool)
        requires
            t.wf(),
            wf(*old(self)),
            move_ok(*old(self), m.0),
            has_room(*old(self)),
            hashed(*old(self), t.zobrist),
            evaled(*old(self), t.params),
        ensures
            r == move_legal(*old(self), m.0),
            !r ==> states_equal(*final(self), *old(self)),
            r ==> is_make_of(*final(self), *old(self), m) && wf(*final(self)) && hashed(
                *final(self),
                t.zobrist,
            ) && evaled(*final(self), t.params),
    {
        let ghost s0 = *self;
        let our_side = self.side_to_move();
        let enemy_side = other_side(our_side);
        if let Some(side) = m.is_castle_and_where() {
            let blockers = self.occupancy(WHITE, t).union(self.occupancy(BLACK, t));
            let kf: usize = if our_side == WHITE {
                E1
            } else {
                E8
            };
            let kt: usize = match side {
                CastlingSide::QueenSide => if our_side == WHITE {
                    C1
                } else {
                    C8
                },
                CastlingSide::KingSide => if our_side == WHITE {
                    G1
                } else {
                    G8
                },
            };
            let mid: usize = (kf + kt) / 2;
            if self.attackers_on_square(kf, enemy_side, blockers, t).is_filled() {
                proof {
                    assert(!move_legal(s0, m.0));
                }
                return false;
            }
            if self.attackers_on_square(mid, enemy_side, blockers, t).is_filled() {
                proof {
                    assert(!move_legal(s0, m.0));
                }
                return false;
            }
            if self.attackers_on_square(kt, enemy_side, blockers, t).is_filled() {
                proof {
                    assert(!move_legal(s0, m.0));
                }
                return false;
            }
            self.apply_legal_move(m, t);
            proof {
                lemma_make_preserves_wf(s0, *self, m);
                assert(move_legal(s0, m.0));
            }
            return true;
        }
        self.apply_legal_move(m, t);
        proof {
            lemma_make_preserves_wf(s0, *self, m);
            crate::gamestate::lemma_single_bit_nonzero(
                board_of(self.piece_boards, our_side as int, 5),
            );
        }
        let king_sq = self.piece_boards[our_side][KING].next_piece_index();
        let blockers = self.occupancy(WHITE, t).union(self.occupancy(BLACK, t));
        if self.attackers_on_square(king_sq, enemy_side, blockers, t).is_filled() {
            let ghost s_mid = *self;
            proof {
                lemma_make_then_undo_ok(s0, *self, m);
            }
            self.undo_move(t);
            proof {
                lemma_make_unmake(s0, s_mid, *self, m, t.params);
                assert(king_attacked(s_mid, our_side as int));
                assert forall|s2: GameState| #[trigger]
                    is_make_of(s2, s0, m) implies king_attacked(s2, our_side as int) by {
                    lemma_king_attacked_congruence(s_mid, s2, our_side as int);
                }
                assert(!move_legal(s0, m.0));
            }
            return false;
        }
        proof {
            assert(!king_attacked(*self, our_side as int));
            assert forall|s2: GameState| #[trigger]
                is_make_of(s2, s0, m) implies !king_attacked(s2, our_side as int) by {
                lemma_king_attacked_congruence(*self, s2, our_side as int);
            }
            assert(move_legal(s0, m.0));
        }
        true
    }

    /// Append one move per target square: a capture when the target holds an
    /// enemy piece, a quiet move otherwise.
    fn add_targets(&self, moves: &mut MoveList, from: Square, piece: Piece, targets: Bitboard,
        enemy_side: Side, t: &Tables)
        requires
            t.wf(),
            wf(*self),
            has_room(*self),
            from < 64,
            piece < 6,
            enemy_side == 1 - side_of(*self),
            bit64(board_of(self.piece_boards, side_of(*self), piece as int), from as u64),
            forall|j: u64|
                j < 64 && #[trigger] bit64(targets.0, j) ==> !bit64(
                    occ_spec(self.piece_boards, side_of(*self)),
                    j,
                ) && !bit64(board_of(self.piece_boards, enemy_side as int, 5), j),
            all_moves_ok(*self, *old(moves)),
        ensures
            all_moves_ok(*self, *final(moves)),
    {
        let enemy_occupancy = self.occupancy(enemy_side, t);
        let mut it = targets.into_iter();
        loop
            invariant
                t.wf(),
                wf(*self),
                has_room(*self),
                from < 64,
                piece < 6,
                enemy_side == 1 - side_of(*self),
                bit64(board_of(self.piece_boards, side_of(*self), piece as int), from as u64),
                enemy_occupancy.0 == occ_spec(self.piece_boards, enemy_side as int),
                forall|j: u64|
                    j < 64 && #[trigger] bit64(it.bitset.0, j) ==> bit64(targets.0, j),
                forall|j: u64|
                    j < 64 && #[trigger] bit64(targets.0, j) ==> !bit64(
                        occ_spec(self.piece_boards, side_of(*self)),
                        j,
                    ) && !bit64(board_of(self.piece_boards, enemy_side as int, 5), j),
                all_moves_ok(*self, *moves),
            decreases it.bitset.0,
        {
            let to = match it.next() {
                None => {
                    break ;
                },
                Some(sq) => sq,
            };
            let ghost our = side_of(*self);
            proof {
                lemma_occ_bits(self.piece_boards, our, from as u64);
                lemma_occ_bits(self.piece_boards, our, to as u64);
                crate::bits::lemma_test_bit(enemy_occupancy.0, to as u64);
                lemma_occ_bits(self.piece_boards, enemy_side as int, to as u64);
            }
            proof {
                assert(bit64(targets.0, to as u64));
                assert(!bit64(occ_spec(self.piece_boards, our), to as u64));
                assert(bit64(occ_spec(self.piece_boards, our), from as u64));
                assert(from != to);
                crate::moves::lemma_null_move_fields();
            }
            if enemy_occupancy.0 & (1u64 << (to as u64)) != 0 {
                let captured = self.find_piece_on(to, enemy_side);
                let mv = Move::new_capture(from, to, piece, captured);
                proof {
                    assert(captured != 5);
                    assert forall|a: int, b: int|
                        0 <= a < 2 && 0 <= b < 6 && (a != enemy_side as int || b != captured
                            as int) implies !bit64(
                        #[trigger] board_of(self.piece_boards, a, b),
                        to as u64,
                    ) by {
                        if bit64(board_of(self.piece_boards, a, b), to as u64) {
                            assert(bit64(
                                board_of(self.piece_boards, enemy_side as int, captured as int),
                                to as u64,
                            ));
                        }
                    }
                    assert(sq_only(self.piece_boards, to as int, enemy_side as int, captured as int));
                    assert(mv.0 != 0);
                    assert(move_ok(*self, mv.0));
                }
                moves.add_move(mv);
            } else {
                let mv = Move::new_from_to(from, to, piece);
                proof {
                    assert forall|a: int, b: int|
                        0 <= a < 2 && 0 <= b < 6 implies !bit64(
                        #[trigger] board_of(self.piece_boards, a, b),
                        to as u64,
                    ) by {
                        lemma_occ_bits(self.piece_boards, a, to as u64);
                        crate::bits::lemma_test_bit(enemy_occupancy.0, to as u64);
                    }
                    assert(sq_unoccupied(self.piece_boards, to as int));
                    assert(mv.0 != 0);
                    assert(move_ok(*self, mv.0));
                }
                moves.add_move(mv);
            }
        }
    }
}


/// Squares kept after removing our occupancy and the enemy king are free of
/// both.
pub proof fn lemma_targets_clean(base: u64, occ: u64, ek: u64)
    ensures
        forall|j: u64|
            j < 64 && #[trigger] bit64((base & !occ) & !ek, j) ==> !bit64(occ, j) && !bit64(ek, j),
{
    assert forall|j: u64|
        j < 64 && #[trigger] bit64((base & !occ) & !ek, j) implies !bit64(occ, j) && !bit64(
        ek,
        j,
    ) by {
        crate::bits::lemma_bit_and(base & !occ, !ek, j);
        crate::bits::lemma_bit_and(base, !occ, j);
        crate::bits::lemma_bit_not(occ, j);
        crate::bits::lemma_bit_not(ek, j);
    }
}

/// A square absent from the union of both occupancies is empty on every
/// board.
pub proof fn lemma_sq_unoccupied(boards: [[Bitboard; 6]; 2], both: u64, to: u64)
    requires
        to < 64,
        both == occ_spec(boards, 0) | occ_spec(boards, 1),
        !bit64(both, to),
    ensures
        sq_unoccupied(boards, to as int),
{
    crate::bits::lemma_bit_or(occ_spec(boards, 0), occ_spec(boards, 1), to);
    assert forall|a: int, b: int|
        0 <= a < 2 && 0 <= b < 6 implies !bit64(#[trigger] board_of(boards, a, b), to) by {
        lemma_occ_bits(boards, a, to);
    }
}

impl GameState {
    /// Produce the pseudo-legal moves of the side to move by check, pin and
    /// danger masks: every move in the list is coherent with the position
    /// (`move_ok`), and the search verifies legality by making each move.
    /// The en-passant candidates are tested by make-and-unmake here, so the
    /// position is returned bit-exactly unchanged.
    pub fn generate_pseudo_legal_moves(&mut self, t: &Tables) -> (r: MoveList)
        requires
            t.wf(),
            wf(*old(self)),
            has_room(*old(self)),
            hashed(*old(self), t.zobrist),
            evaled(*old(self), t.params),
        ensures
            states_equal(*final(self), *old(self)),
            all_moves_ok(*old(self), r),
            wf(*final(self)),
            hashed(*final(self), t.zobrist),
            evaled(*final(self), t.params),
            has_room(*final(self)),
    {
        let ghost s0 = *self;
        let mut moves = MoveList::new();
        let our_side = self.side_to_move();
        let enemy_side = other_side(our_side);
        let our_occupancy = self.occupancy(our_side, t);
        let enemy_occupancy = self.occupancy(enemy_side, t);
        let blockers = self.occupancy(WHITE, t).union(self.occupancy(BLACK, t));
        let enemy_kings = self.piece_boards[enemy_side][KING];
        let king_danger_squares = self.king_danger_squares(our_side, blockers, t);
        proof {
            crate::gamestate::lemma_single_bit_nonzero(
                board_of(self.piece_boards, our_side as int, 5),
            );
        }
        let our_king_position = self.piece_boards[our_side][KING].next_piece_index();

        // King moves.
        let king_base = king_move_bitboard(t, our_king_position).intersect(
            king_danger_squares.invert(),
        );
        let king_targets = king_base.intersect(our_occupancy.invert()).intersect(
            enemy_kings.invert(),
        );
        proof {
            lemma_targets_clean(king_base.0, our_occupancy.0, enemy_kings.0);
        }
        self.add_targets(&mut moves, our_king_position, KING, king_targets, enemy_side, t);

        let checkers = self.attackers_on_square(our_king_position, enemy_side, blockers, t);
        let num_checkers = crate::bits::popcount64(checkers.0);
        if num_checkers > 1 {
            return moves;
        }
        let mut capture_mask = Bitboard::full();
        let mut push_mask = Bitboard::full();
        if num_checkers == 1 {
            proof {
                if checkers.0 == 0 {
                    crate::bits::lemma_count_of_zero(64);
                }
            }
            let checker_pos = checkers.next_piece_index();
            capture_mask = checkers;
            proof {
                lemma_attackers_enemy(
                    self.piece_boards,
                    our_king_position as int,
                    enemy_side as int,
                    blockers.0,
                    checker_pos as u64,
                );
            }
            let checker_piece = self.find_piece_on(checker_pos, enemy_side);
            if is_slider(checker_piece) {
                push_mask = t.ray_from_to[checker_pos][our_king_position];
            } else {
                push_mask = Bitboard(0);
            }
        }
        let evade_check_mask = capture_mask.union(push_mask);
        let pin_hv = self.get_hv_pinmask(our_king_position, blockers, enemy_side, t);
        let pin_d12 = self.get_diagonal_pinmask(our_king_position, blockers, enemy_side, t);

        // Knight moves.
        let mut it = self.piece_boards[our_side][KNIGHT].intersect(
            pin_hv.union(pin_d12).invert(),
        ).into_iter();
        proof {
            assert forall|j: u64|
                j < 64 && #[trigger] bit64(it.bitset.0, j) implies bit64(
                board_of(self.piece_boards, our_side as int, 2),
                j,
            ) by {
                crate::bits::lemma_bit_and(
                    self.piece_boards[our_side as int][2].0,
                    !(pin_hv.0 | pin_d12.0),
                    j,
                );
            }
        }
        loop
            invariant
                t.wf(),
                wf(*self),
                has_room(*self),
                our_side == side_of(*self),
                enemy_side == 1 - side_of(*self),
                enemy_kings == self.piece_boards[enemy_side as int][5],
                our_occupancy.0 == occ_spec(self.piece_boards, our_side as int),
                all_moves_ok(*self, moves),
                forall|j: u64|
                    j < 64 && #[trigger] bit64(it.bitset.0, j) ==> bit64(
                        board_of(self.piece_boards, our_side as int, 2),
                        j,
                    ),
            decreases it.bitset.0,
        {
            let from_square = match it.next() {
                None => {
                    break ;
                },
                Some(sq) => sq,
            };
            proof {
                crate::bits::lemma_bit_and(
                    self.piece_boards[our_side as int][2].0,
                    !(pin_hv.0 | pin_d12.0),
                    from_square as u64,
                );
            }
            let base = knight_move_bitboard(t, from_square).intersect(evade_check_mask);
            let targets = base.intersect(our_occupancy.invert()).intersect(enemy_kings.invert());
            proof {
                lemma_targets_clean(base.0, our_occupancy.0, enemy_kings.0);
            }
            self.add_targets(&mut moves, from_square, KNIGHT, targets, enemy_side, t);
        }

        // Rook moves, and the rook-like half of the queen's.
        let mut piece_sel: usize = 0;
        while piece_sel < 4
            invariant
                t.wf(),
                wf(*self),
                has_room(*self),
                our_side == side_of(*self),
                enemy_side == 1 - side_of(*self),
                enemy_kings == self.piece_boards[enemy_side as int][5],
                our_occupancy.0 == occ_spec(self.piece_boards, our_side as int),
                blockers.0 == occ_spec(self.piece_boards, 0) | occ_spec(self.piece_boards, 1),
                all_moves_ok(*self, moves),
            decreases 4 - piece_sel,
        {
            // 0: rook as rook, 1: queen as rook, 2: bishop as bishop,
            // 3: queen as bishop.
            let (piece, rooklike): (usize, bool) = if piece_sel == 0 {
                (ROOK, true)
            } else if piece_sel == 1 {
                (QUEEN, true)
            } else if piece_sel == 2 {
                (BISHOP, false)
            } else {
                (QUEEN, false)
            };
            let avoid_pin = if rooklike {
                pin_d12
            } else {
                pin_hv
            };
            let follow_pin = if rooklike {
                pin_hv
            } else {
                pin_d12
            };
            let mut it = self.piece_boards[our_side][piece].intersect(avoid_pin.invert()).into_iter();
            proof {
                assert forall|j: u64|
                    j < 64 && #[trigger] bit64(it.bitset.0, j) implies bit64(
                    board_of(self.piece_boards, our_side as int, piece as int),
                    j,
                ) by {
                    crate::bits::lemma_bit_and(
                        self.piece_boards[our_side as int][piece as int].0,
                        !avoid_pin.0,
                        j,
                    );
                }
            }
            loop
                invariant
                    t.wf(),
                    wf(*self),
                    has_room(*self),
                    our_side == side_of(*self),
                    enemy_side == 1 - side_of(*self),
                    piece < 6,
                    enemy_kings == self.piece_boards[enemy_side as int][5],
                    our_occupancy.0 == occ_spec(self.piece_boards, our_side as int),
                    all_moves_ok(*self, moves),
                    forall|j: u64|
                        j < 64 && #[trigger] bit64(it.bitset.0, j) ==> bit64(
                            board_of(self.piece_boards, our_side as int, piece as int),
                            j,
                        ),
                decreases it.bitset.0,
            {
                let from_square = match it.next() {
                    None => {
                        break ;
                    },
                    Some(sq) => sq,
                };
                proof {
                    crate::bits::lemma_bit_and(
                        self.piece_boards[our_side as int][piece as int].0,
                        !avoid_pin.0,
                        from_square as u64,
                    );
                }
                let attacks = if rooklike {
                    rook_move_bitboard(t, from_square, blockers)
                } else {
                    bishop_move_bitboard(t, from_square, blockers)
                };
                let base = if follow_pin.has(from_square) {
                    attacks.intersect(evade_check_mask).intersect(follow_pin)
                } else {
                    attacks.intersect(evade_check_mask)
                };
                let targets = base.intersect(our_occupancy.invert()).intersect(
                    enemy_kings.invert(),
                );
                proof {
                    lemma_targets_clean(base.0, our_occupancy.0, enemy_kings.0);
                }
                self.add_targets(&mut moves, from_square, piece, targets, enemy_side, t);
            }
            piece_sel = piece_sel + 1;
        }

        // Pawn moves.
        let pawns = self.piece_boards[our_side][PAWN];
        let file_a = t.file_masks[0];
        let file_h = t.file_masks[7];
        if our_side == WHITE {
            let rank_promo = t.rank_masks[7];
            let rank_start = t.rank_masks[1];
            let pushable = pawns.intersect(pin_d12.invert());
            let pawn_single_moves = pushable.shl(8).intersect(blockers.invert()).intersect(
                evade_check_mask,
            );
            let mut it = pawn_single_moves.into_iter();
            loop
                invariant
                    t.wf(),
                    wf(*self),
                    has_room(*self),
                    our_side == side_of(*self),
                    our_side == 0,
                    pawns == self.piece_boards[0][0],
                    pushable.0 == pawns.0 & !pin_d12.0,
                    pawn_single_moves.0 == ((pushable.0 << 8) & !blockers.0) & evade_check_mask.0,
                    blockers.0 == occ_spec(self.piece_boards, 0) | occ_spec(self.piece_boards, 1),
                    rank_promo.0 == crate::tables::rank_mask_spec(7),
                    all_moves_ok(*self, moves),
                    forall|j: u64|
                        j < 64 && #[trigger] bit64(it.bitset.0, j) ==> bit64(
                            pawn_single_moves.0,
                            j,
                        ),
                decreases it.bitset.0,
            {
                let to = match it.next() {
                    None => {
                        break ;
                    },
                    Some(sq) => sq,
                };
                proof {
                    crate::bits::lemma_bit_and(
                        (pushable.0 << 8) & !blockers.0,
                        evade_check_mask.0,
                        to as u64,
                    );
                    crate::bits::lemma_bit_and(pushable.0 << 8, !blockers.0, to as u64);
                    crate::bits::lemma_bit_not(blockers.0, to as u64);
                    crate::bits::lemma_bit_shl(pushable.0, 8, to as u64);
                    crate::bits::lemma_bit_and(pawns.0, !pin_d12.0, (to - 8) as u64);
                    lemma_sq_unoccupied(self.piece_boards, blockers.0, to as u64);
                    crate::moves::lemma_null_move_fields();
                }
                let from = to - 8;
                if rank_promo.has(to) {
                    let mut promo_piece: usize = 1;
                    while promo_piece <= 4
                        invariant
                            1 <= promo_piece <= 5,
                            all_moves_ok(*self, moves),
                            from < 64,
                            to < 64,
                            from == to - 8,
                            bit64(board_of(self.piece_boards, side_of(*self), 0), from as u64),
                            sq_unoccupied(self.piece_boards, to as int),
                            has_room(*self),
                        decreases 5 - promo_piece,
                    {
                        let mv = Move::new_quiet_promotion(from, to, promo_piece);
                        proof {
                            crate::moves::lemma_null_move_fields();
                            assert(move_ok(*self, mv.0));
                        }
                        moves.add_move(mv);
                        promo_piece = promo_piece + 1;
                    }
                } else {
                    let mv = Move::new_from_to(from, to, PAWN);
                    proof {
                        assert(move_ok(*self, mv.0));
                    }
                    moves.add_move(mv);
                }
            }
            // Double pushes.
            let step1 = pushable.intersect(rank_start).shl(8).intersect(blockers.invert());
            let pawn_double_moves = step1.shl(8).intersect(blockers.invert()).intersect(
                evade_check_mask,
            );
            let mut it = pawn_double_moves.into_iter();
            loop
                invariant
                    t.wf(),
                    wf(*self),
                    has_room(*self),
                    our_side == side_of(*self),
                    our_side == 0,
                    pawns == self.piece_boards[0][0],
                    pushable.0 == pawns.0 & !pin_d12.0,
                    step1.0 == ((pushable.0 & rank_start.0) << 8) & !blockers.0,
                    pawn_double_moves.0 == ((step1.0 << 8) & !blockers.0) & evade_check_mask.0,
                    blockers.0 == occ_spec(self.piece_boards, 0) | occ_spec(self.piece_boards, 1),
                    rank_start.0 == crate::tables::rank_mask_spec(1),
                    all_moves_ok(*self, moves),
                    forall|j: u64|
                        j < 64 && #[trigger] bit64(it.bitset.0, j) ==> bit64(
                            pawn_double_moves.0,
                            j,
                        ),
                decreases it.bitset.0,
            {
                let to = match it.next() {
                    None => {
                        break ;
                    },
                    Some(sq) => sq,
                };
                proof {
                    crate::bits::lemma_bit_and(
                        (step1.0 << 8) & !blockers.0,
                        evade_check_mask.0,
                        to as u64,
                    );
                    crate::bits::lemma_bit_and(step1.0 << 8, !blockers.0, to as u64);
                    crate::bits::lemma_bit_not(blockers.0, to as u64);
                    crate::bits::lemma_bit_shl(step1.0, 8, to as u64);
                    crate::bits::lemma_bit_and(
                        (pushable.0 & rank_start.0) << 8,
                        !blockers.0,
                        (to - 8) as u64,
                    );
                    crate::bits::lemma_bit_not(blockers.0, (to - 8) as u64);
                    crate::bits::lemma_bit_shl(pushable.0 & rank_start.0, 8, (to - 8) as u64);
                    crate::bits::lemma_bit_and(pushable.0, rank_start.0, (to - 16) as u64);
                    crate::bits::lemma_bit_and(pawns.0, !pin_d12.0, (to - 16) as u64);
                    crate::tables::lemma_rank_mask_bits(1, 8, (to - 16) as u64);
                    lemma_sq_unoccupied(self.piece_boards, blockers.0, to as u64);
                    lemma_sq_unoccupied(self.piece_boards, blockers.0, (to - 8) as u64);
                    crate::moves::lemma_null_move_fields();
                }
                let mv = Move::new_double_pawn_push(to - 16, to);
                proof {
                    assert(move_ok(*self, mv.0));
                }
                moves.add_move(mv);
            }
            // Captures, up-left then up-right.
            let mut dir: usize = 0;
            while dir < 2
                invariant
                    t.wf(),
                    wf(*self),
                    has_room(*self),
                    our_side == side_of(*self),
                    our_side == 0,
                    enemy_side == 1,
                    pawns == self.piece_boards[0][0],
                    enemy_kings == self.piece_boards[1][5],
                    enemy_occupancy.0 == occ_spec(self.piece_boards, 1),
                    blockers.0 == occ_spec(self.piece_boards, 0) | occ_spec(self.piece_boards, 1),
                    all_moves_ok(*self, moves),
                decreases 2 - dir,
            {
                let (shift, edge) = if dir == 0 {
                    (7usize, file_a)
                } else {
                    (9usize, file_h)
                };
                let cap_base = pawns.intersect(edge.invert()).intersect(pin_hv.invert()).shl(
                    shift,
                ).intersect(enemy_occupancy).intersect(evade_check_mask).intersect(
                    enemy_kings.invert(),
                );
                let mut it = cap_base.into_iter();
                loop
                    invariant
                        t.wf(),
                        wf(*self),
                        has_room(*self),
                        our_side == side_of(*self),
                        our_side == 0,
                        enemy_side == 1,
                        shift == 7 || shift == 9,
                        pawns == self.piece_boards[0][0],
                        enemy_kings == self.piece_boards[1][5],
                        enemy_occupancy.0 == occ_spec(self.piece_boards, 1),
                        cap_base.0 == ((((pawns.0 & !edge.0) & !pin_hv.0) << shift)
                            & enemy_occupancy.0) & evade_check_mask.0 & !enemy_kings.0,
                        all_moves_ok(*self, moves),
                        forall|j: u64|
                            j < 64 && #[trigger] bit64(it.bitset.0, j) ==> bit64(cap_base.0, j),
                    decreases it.bitset.0,
                {
                    let to = match it.next() {
                        None => {
                            break ;
                        },
                        Some(sq) => sq,
                    };
                    proof {
                        crate::bits::lemma_bit_and(
                            ((((pawns.0 & !edge.0) & !pin_hv.0) << shift) & enemy_occupancy.0)
                                & evade_check_mask.0,
                            !enemy_kings.0,
                            to as u64,
                        );
                        crate::bits::lemma_bit_and(
                            (((pawns.0 & !edge.0) & !pin_hv.0) << shift) & enemy_occupancy.0,
                            evade_check_mask.0,
                            to as u64,
                        );
                        crate::bits::lemma_bit_and(
                            ((pawns.0 & !edge.0) & !pin_hv.0) << shift,
                            enemy_occupancy.0,
                            to as u64,
                        );
                        crate::bits::lemma_bit_not(enemy_kings.0, to as u64);
                        crate::bits::lemma_bit_shl(
                            (pawns.0 & !edge.0) & !pin_hv.0,
                            shift as u64,
                            to as u64,
                        );
                        crate::bits::lemma_bit_and(
                            pawns.0 & !edge.0,
                            !pin_hv.0,
                            (to - shift) as u64,
                        );
                        crate::bits::lemma_bit_and(pawns.0, !edge.0, (to - shift) as u64);
                        lemma_occ_bits(self.piece_boards, 1, to as u64);
                        crate::moves::lemma_null_move_fields();
                    }
                    let from = to - shift;
                    if pin_d12.has(from) && !pin_d12.has(to) {
                        continue ;
                    }
                    let captured = self.find_piece_on(to, enemy_side);
                    proof {
                        assert(captured != 5);
                        assert forall|a: int, b: int|
                            0 <= a < 2 && 0 <= b < 6 && (a != 1 || b != captured as int) implies
                            !bit64(#[trigger] board_of(self.piece_boards, a, b), to as u64) by {
                            if bit64(board_of(self.piece_boards, a, b), to as u64) {
                                assert(bit64(
                                    board_of(self.piece_boards, 1, captured as int),
                                    to as u64,
                                ));
                            }
                        }
                        assert(sq_only(self.piece_boards, to as int, 1, captured as int));
                    }
                    if rank_promo.has(to) {
                        let mut promo_piece: usize = 1;
                        while promo_piece <= 4
                            invariant
                                1 <= promo_piece <= 5,
                                all_moves_ok(*self, moves),
                                from < 64,
                                to < 64,
                                from == to - shift,
                                shift == 7 || shift == 9,
                                captured < 5,
                                bit64(
                                    board_of(self.piece_boards, side_of(*self), 0),
                                    from as u64,
                                ),
                                bit64(
                                    board_of(self.piece_boards, 1 - side_of(*self), captured as int),
                                    to as u64,
                                ),
                                sq_only(self.piece_boards, to as int, 1 - side_of(*self), captured as int),
                                has_room(*self),
                                side_of(*self) == 0,
                            decreases 5 - promo_piece,
                        {
                            let mv = Move::new_capture_promotion(from, to, promo_piece, captured);
                            proof {
                                crate::moves::lemma_null_move_fields();
                                assert(move_ok(*self, mv.0));
                            }
                            moves.add_move(mv);
                            promo_piece = promo_piece + 1;
                        }
                    } else {
                        let mv = Move::new_capture(from, to, PAWN, captured);
                        proof {
                            assert(move_ok(*self, mv.0));
                        }
                        moves.add_move(mv);
                    }
                }
                dir = dir + 1;
            }
            // Castling.
            let free_q = Bitboard(0xEu64);
            let check_free_q = Bitboard(0x1Cu64);
            let free_k = Bitboard(0x60u64);
            let check_free_k = Bitboard(0x70u64);
            proof {
                assert(bit64(0xEu64, 1) && bit64(0xEu64, 2) && bit64(0xEu64, 3) && bit64(
                    0x60u64,
                    5,
                ) && bit64(0x60u64, 6)) by (bit_vector);
            }
            if self.castling_rights[WHITE_QUEENSIDE_CASTLE] && blockers.intersect(free_q).is_empty()
                && king_danger_squares.intersect(check_free_q).is_empty()
                && self.piece_boards[our_side][KING].has(E1)
                && self.piece_boards[our_side][ROOK].has(A1) && !self.has_castled[our_side] {
                let mv = Move::new_castle(CastlingSide::QueenSide, E1, C1);
                proof {
                    crate::bits::lemma_bit_and(blockers.0, 0xEu64, 1);
                    crate::bits::lemma_bit_and(blockers.0, 0xEu64, 2);
                    crate::bits::lemma_bit_and(blockers.0, 0xEu64, 3);
                    crate::bits::lemma_bit_zero(1);
                    crate::bits::lemma_bit_zero(2);
                    crate::bits::lemma_bit_zero(3);
                    lemma_sq_unoccupied(self.piece_boards, blockers.0, 1);
                    lemma_sq_unoccupied(self.piece_boards, blockers.0, 2);
                    lemma_sq_unoccupied(self.piece_boards, blockers.0, 3);
                    crate::moves::lemma_null_move_fields();
                    assert(move_ok(*self, mv.0));
                }
                moves.add_move(mv);
            }
            if self.castling_rights[WHITE_KINGSIDE_CASTLE] && blockers.intersect(free_k).is_empty()
                && king_danger_squares.intersect(check_free_k).is_empty()
                && self.piece_boards[our_side][KING].has(E1)
                && self.piece_boards[our_side][ROOK].has(H1) && !self.has_castled[our_side] {
                let mv = Move::new_castle(CastlingSide::KingSide, E1, G1);
                proof {
                    crate::bits::lemma_bit_and(blockers.0, 0x60u64, 5);
                    crate::bits::lemma_bit_and(blockers.0, 0x60u64, 6);
                    crate::bits::lemma_bit_zero(5);
                    crate::bits::lemma_bit_zero(6);
                    lemma_sq_unoccupied(self.piece_boards, blockers.0, 5);
                    lemma_sq_unoccupied(self.piece_boards, blockers.0, 6);
                    crate::moves::lemma_null_move_fields();
                    assert(move_ok(*self, mv.0));
                }
                moves.add_move(mv);
            }
        } else {
            let rank_promo = t.rank_masks[0];
            let rank_start = t.rank_masks[6];
            let pushable = pawns.intersect(pin_d12.invert());
            let pawn_single_moves = pushable.shr(8).intersect(blockers.invert()).intersect(
                evade_check_mask,
            );
            let mut it = pawn_single_moves.into_iter();
            loop
                invariant
                    t.wf(),
                    wf(*self),
                    has_room(*self),
                    our_side == side_of(*self),
                    our_side == 1,
                    pawns == self.piece_boards[1][0],
                    pushable.0 == pawns.0 & !pin_d12.0,
                    pawn_single_moves.0 == ((pushable.0 >> 8) & !blockers.0) & evade_check_mask.0,
                    blockers.0 == occ_spec(self.piece_boards, 0) | occ_spec(self.piece_boards, 1),
                    rank_promo.0 == crate::tables::rank_mask_spec(0),
                    all_moves_ok(*self, moves),
                    forall|j: u64|
                        j < 64 && #[trigger] bit64(it.bitset.0, j) ==> bit64(
                            pawn_single_moves.0,
                            j,
                        ),
                decreases it.bitset.0,
            {
                let to = match it.next() {
                    None => {
                        break ;
                    },
                    Some(sq) => sq,
                };
                proof {
                    crate::bits::lemma_bit_and(
                        (pushable.0 >> 8) & !blockers.0,
                        evade_check_mask.0,
                        to as u64,
                    );
                    crate::bits::lemma_bit_and(pushable.0 >> 8, !blockers.0, to as u64);
                    crate::bits::lemma_bit_not(blockers.0, to as u64);
                    crate::bits::lemma_bit_shr(pushable.0, 8, to as u64);
                    crate::bits::lemma_bit_and(pawns.0, !pin_d12.0, (to + 8) as u64);
                    lemma_sq_unoccupied(self.piece_boards, blockers.0, to as u64);
                    crate::moves::lemma_null_move_fields();
                }
                let from = to + 8;
                if rank_promo.has(to) {
                    let mut promo_piece: usize = 1;
                    while promo_piece <= 4
                        invariant
                            1 <= promo_piece <= 5,
                            all_moves_ok(*self, moves),
                            from < 64,
                            to < 64,
                            from == to + 8,
                            bit64(board_of(self.piece_boards, side_of(*self), 0), from as u64),
                            sq_unoccupied(self.piece_boards, to as int),
                            has_room(*self),
                        decreases 5 - promo_piece,
                    {
                        let mv = Move::new_quiet_promotion(from, to, promo_piece);
                        proof {
                            crate::moves::lemma_null_move_fields();
                            assert(move_ok(*self, mv.0));
                        }
                        moves.add_move(mv);
                        promo_piece = promo_piece + 1;
                    }
                } else {
                    let mv = Move::new_from_to(from, to, PAWN);
                    proof {
                        assert(move_ok(*self, mv.0));
                    }
                    moves.add_move(mv);
                }
            }
            // Double pushes.
            let step1 = pushable.intersect(rank_start).shr(8).intersect(blockers.invert());
            let pawn_double_moves = step1.shr(8).intersect(blockers.invert()).intersect(
                evade_check_mask,
            );
            let mut it = pawn_double_moves.into_iter();
            loop
                invariant
                    t.wf(),
                    wf(*self),
                    has_room(*self),
                    our_side == side_of(*self),
                    our_side == 1,
                    pawns == self.piece_boards[1][0],
                    pushable.0 == pawns.0 & !pin_d12.0,
                    step1.0 == ((pushable.0 & rank_start.0) >> 8) & !blockers.0,
                    pawn_double_moves.0 == ((step1.0 >> 8) & !blockers.0) & evade_check_mask.0,
                    blockers.0 == occ_spec(self.piece_boards, 0) | occ_spec(self.piece_boards, 1),
                    rank_start.0 == crate::tables::rank_mask_spec(6),
                    all_moves_ok(*self, moves),
                    forall|j: u64|
                        j < 64 && #[trigger] bit64(it.bitset.0, j) ==> bit64(
                            pawn_double_moves.0,
                            j,
                        ),
                decreases it.bitset.0,
            {
                let to = match it.next() {
                    None => {
                        break ;
                    },
                    Some(sq) => sq,
                };
                proof {
                    crate::bits::lemma_bit_and(
                        (step1.0 >> 8) & !blockers.0,
                        evade_check_mask.0,
                        to as u64,
                    );
                    crate::bits::lemma_bit_and(step1.0 >> 8, !blockers.0, to as u64);
                    crate::bits::lemma_bit_not(blockers.0, to as u64);
                    crate::bits::lemma_bit_shr(step1.0, 8, to as u64);
                    crate::bits::lemma_bit_and(
                        (pushable.0 & rank_start.0) >> 8,
                        !blockers.0,
                        (to + 8) as u64,
                    );
                    crate::bits::lemma_bit_not(blockers.0, (to + 8) as u64);
                    crate::bits::lemma_bit_shr(pushable.0 & rank_start.0, 8, (to + 8) as u64);
                    crate::bits::lemma_bit_and(pushable.0, rank_start.0, (to + 16) as u64);
                    crate::bits::lemma_bit_and(pawns.0, !pin_d12.0, (to + 16) as u64);
                    crate::tables::lemma_rank_mask_bits(6, 8, (to + 16) as u64);
                    lemma_sq_unoccupied(self.piece_boards, blockers.0, to as u64);
                    lemma_sq_unoccupied(self.piece_boards, blockers.0, (to + 8) as u64);
                    crate::moves::lemma_null_move_fields();
                }
                let mv = Move::new_double_pawn_push(to + 16, to);
                proof {
                    assert(move_ok(*self, mv.0));
                }
                moves.add_move(mv);
            }
            // Captures, down-right then down-left.
            let mut dir: usize = 0;
            while dir < 2
                invariant
                    t.wf(),
                    wf(*self),
                    has_room(*self),
                    our_side == side_of(*self),
                    our_side == 1,
                    enemy_side == 0,
                    pawns == self.piece_boards[1][0],
                    enemy_kings == self.piece_boards[0][5],
                    enemy_occupancy.0 == occ_spec(self.piece_boards, 0),
                    blockers.0 == occ_spec(self.piece_boards, 0) | occ_spec(self.piece_boards, 1),
                    all_moves_ok(*self, moves),
                decreases 2 - dir,
            {
                let (shift, edge) = if dir == 0 {
                    (7usize, file_h)
                } else {
                    (9usize, file_a)
                };
                let cap_base = pawns.intersect(edge.invert()).intersect(pin_hv.invert()).shr(
                    shift,
                ).intersect(enemy_occupancy).intersect(evade_check_mask).intersect(
                    enemy_kings.invert(),
                );
                let mut it = cap_base.into_iter();
                loop
                    invariant
                        t.wf(),
                        wf(*self),
                        has_room(*self),
                        our_side == side_of(*self),
                        our_side == 1,
                        enemy_side == 0,
                        shift == 7 || shift == 9,
                        pawns == self.piece_boards[1][0],
                        enemy_kings == self.piece_boards[0][5],
                        enemy_occupancy.0 == occ_spec(self.piece_boards, 0),
                        cap_base.0 == ((((pawns.0 & !edge.0) & !pin_hv.0) >> shift)
                            & enemy_occupancy.0) & evade_check_mask.0 & !enemy_kings.0,
                        all_moves_ok(*self, moves),
                        forall|j: u64|
                            j < 64 && #[trigger] bit64(it.bitset.0, j) ==> bit64(cap_base.0, j),
                    decreases it.bitset.0,
                {
                    let to = match it.next() {
                        None => {
                            break ;
                        },
                        Some(sq) => sq,
                    };
                    proof {
                        crate::bits::lemma_bit_and(
                            ((((pawns.0 & !edge.0) & !pin_hv.0) >> shift) & enemy_occupancy.0)
                                & evade_check_mask.0,
                            !enemy_kings.0,
                            to as u64,
                        );
                        crate::bits::lemma_bit_and(
                            (((pawns.0 & !edge.0) & !pin_hv.0) >> shift) & enemy_occupancy.0,
                            evade_check_mask.0,
                            to as u64,
                        );
                        crate::bits::lemma_bit_and(
                            ((pawns.0 & !edge.0) & !pin_hv.0) >> shift,
                            enemy_occupancy.0,
                            to as u64,
                        );
                        crate::bits::lemma_bit_not(enemy_kings.0, to as u64);
                        crate::bits::lemma_bit_shr(
                            (pawns.0 & !edge.0) & !pin_hv.0,
                            shift as u64,
                            to as u64,
                        );
                        crate::bits::lemma_bit_and(
                            pawns.0 & !edge.0,
                            !pin_hv.0,
                            (to + shift) as u64,
                        );
                        crate::bits::lemma_bit_and(pawns.0, !edge.0, (to + shift) as u64);
                        lemma_occ_bits(self.piece_boards, 0, to as u64);
                        crate::moves::lemma_null_move_fields();
                    }
                    let from = to + shift;
                    if pin_d12.has(from) && !pin_d12.has(to) {
                        continue ;
                    }
                    let captured = self.find_piece_on(to, enemy_side);
                    proof {
                        assert(captured != 5);
                        assert forall|a: int, b: int|
                            0 <= a < 2 && 0 <= b < 6 && (a != 0 || b != captured as int) implies
                            !bit64(#[trigger] board_of(self.piece_boards, a, b), to as u64) by {
                            if bit64(board_of(self.piece_boards, a, b), to as u64) {
                                assert(bit64(
                                    board_of(self.piece_boards, 0, captured as int),
                                    to as u64,
                                ));
                            }
                        }
                        assert(sq_only(self.piece_boards, to as int, 0, captured as int));
                    }
                    if rank_promo.has(to) {
                        let mut promo_piece: usize = 1;
                        while promo_piece <= 4
                            invariant
                                1 <= promo_piece <= 5,
                                all_moves_ok(*self, moves),
                                from < 64,
                                to < 64,
                                from == to + shift,
                                shift == 7 || shift == 9,
                                captured < 5,
                                bit64(
                                    board_of(self.piece_boards, side_of(*self), 0),
                                    from as u64,
                                ),
                                bit64(
                                    board_of(self.piece_boards, 1 - side_of(*self), captured as int),
                                    to as u64,
                                ),
                                sq_only(self.piece_boards, to as int, 1 - side_of(*self), captured as int),
                                has_room(*self),
                                side_of(*self) == 1,
                            decreases 5 - promo_piece,
                        {
                            let mv = Move::new_capture_promotion(from, to, promo_piece, captured);
                            proof {
                                crate::moves::lemma_null_move_fields();
                                assert(move_ok(*self, mv.0));
                            }
                            moves.add_move(mv);
                            promo_piece = promo_piece + 1;
                        }
                    } else {
                        let mv = Move::new_capture(from, to, PAWN, captured);
                        proof {
                            assert(move_ok(*self, mv.0));
                        }
                        moves.add_move(mv);
                    }
                }
                dir = dir + 1;
            }
            // Castling.
            let free_q = Bitboard(0x0E00000000000000u64);
            let check_free_q = Bitboard(0x1C00000000000000u64);
            let free_k = Bitboard(0x6000000000000000u64);
            let check_free_k = Bitboard(0x7000000000000000u64);
            proof {
                assert(bit64(0x0E00000000000000u64, 57) && bit64(0x0E00000000000000u64, 58)
                    && bit64(0x0E00000000000000u64, 59) && bit64(0x6000000000000000u64, 61)
                    && bit64(0x6000000000000000u64, 62)) by (bit_vector);
            }
            if self.castling_rights[BLACK_QUEENSIDE_CASTLE] && blockers.intersect(free_q).is_empty()
                && king_danger_squares.intersect(check_free_q).is_empty()
                && self.piece_boards[our_side][KING].has(E8)
                && self.piece_boards[our_side][ROOK].has(A8) && !self.has_castled[our_side] {
                let mv = Move::new_castle(CastlingSide::QueenSide, E8, C8);
                proof {
                    crate::bits::lemma_bit_and(blockers.0, 0x0E00000000000000u64, 57);
                    crate::bits::lemma_bit_and(blockers.0, 0x0E00000000000000u64, 58);
                    crate::bits::lemma_bit_and(blockers.0, 0x0E00000000000000u64, 59);
                    crate::bits::lemma_bit_zero(57);
                    crate::bits::lemma_bit_zero(58);
                    crate::bits::lemma_bit_zero(59);
                    lemma_sq_unoccupied(self.piece_boards, blockers.0, 57);
                    lemma_sq_unoccupied(self.piece_boards, blockers.0, 58);
                    lemma_sq_unoccupied(self.piece_boards, blockers.0, 59);
                    crate::moves::lemma_null_move_fields();
                    assert(move_ok(*self, mv.0));
                }
                moves.add_move(mv);
            }
            if self.castling_rights[BLACK_KINGSIDE_CASTLE] && blockers.intersect(free_k).is_empty()
                && king_danger_squares.intersect(check_free_k).is_empty()
                && self.piece_boards[our_side][KING].has(E8)
                && self.piece_boards[our_side][ROOK].has(H8) && !self.has_castled[our_side] {
                let mv = Move::new_castle(CastlingSide::KingSide, E8, G8);
                proof {
                    crate::bits::lemma_bit_and(blockers.0, 0x6000000000000000u64, 61);
                    crate::bits::lemma_bit_and(blockers.0, 0x6000000000000000u64, 62);
                    crate::bits::lemma_bit_zero(61);
                    crate::bits::lemma_bit_zero(62);
                    lemma_sq_unoccupied(self.piece_boards, blockers.0, 61);
                    lemma_sq_unoccupied(self.piece_boards, blockers.0, 62);
                    crate::moves::lemma_null_move_fields();
                    assert(move_ok(*self, mv.0));
                }
                moves.add_move(mv);
            }
        }
        // En passant, tested by making the move.
        if self.en_passant_board.is_filled() {
            let en_passant_pos = self.en_passant_board.next_piece_index();
            if our_side == WHITE {
                if en_passant_pos >= 7 {
                    self.try_en_passant(&mut moves, en_passant_pos - 7, en_passant_pos, t);
                }
                if en_passant_pos >= 9 {
                    let ghost s_before = *self;
                    self.try_en_passant(&mut moves, en_passant_pos - 9, en_passant_pos, t);
                    proof {
                        lemma_moves_ok_congruence(s_before, s0, moves);
                    }
                }
            } else {
                if en_passant_pos + 7 < 64 {
                    self.try_en_passant(&mut moves, en_passant_pos + 7, en_passant_pos, t);
                }
                if en_passant_pos + 9 < 64 {
                    let ghost s_before = *self;
                    self.try_en_passant(&mut moves, en_passant_pos + 9, en_passant_pos, t);
                    proof {
                        lemma_moves_ok_congruence(s_before, s0, moves);
                    }
                }
            }
        }
        moves
    }
}


impl GameState {
    /// Produce the legal moves of the side to move: the pseudo-legal
    /// candidates, each verified by making it and testing the mover's king,
    /// so that every emitted move satisfies `move_legal` — applying it
    /// cannot leave the mover in check, and an emitted castle never crosses
    /// an attacked square. The position is returned bit-exactly unchanged.
    pub fn generate_moves(&mut self, t: &Tables) -> (r: MoveList)
        requires
            t.wf(),
            wf(*old(self)),
            has_room(*old(self)),
            hashed(*old(self), t.zobrist),
            evaled(*old(self), t.params),
        ensures
            states_equal(*final(self), *old(self)),
            r.length <= 256,
            forall|i: int| 0 <= i < r.length ==> move_legal(*old(self), (#[trigger] r.moves@[i]).0),
            wf(*final(self)),
            hashed(*final(self), t.zobrist),
            evaled(*final(self), t.params),
            has_room(*final(self)),
    {
        let ghost s0 = *self;
        let candidates = self.generate_pseudo_legal_moves(t);
        let mut legal = MoveList::new();
        let mut i: usize = 0;
        while i < candidates.length
            invariant
                t.wf(),
                wf(s0),
                has_room(s0),
                hashed(s0, t.zobrist),
                evaled(s0, t.params),
                s0 == *old(self),
                states_equal(*self, s0),
                i <= candidates.length,
                candidates.length <= 256,
                legal.length <= 256,
                all_moves_ok(s0, candidates),
                forall|k: int|
                    0 <= k < legal.length ==> move_legal(s0, (#[trigger] legal.moves@[k]).0),
            decreases candidates.length - i,
        {
            let m = candidates.moves[i];
            proof {
                lemma_move_ok_congruence(s0, *self, m.0);
                lemma_state_facts_congruence(*self, s0, t.zobrist, t.params);
            }
            let ghost pre = *self;
            if self.apply_pseudo_legal_move(m, t) {
                let ghost mid = *self;
                proof {
                    lemma_make_then_undo_ok(pre, mid, m);
                }
                self.undo_move(t);
                proof {
                    lemma_make_unmake(pre, mid, *self, m, t.params);
                    lemma_move_legal_congruence(pre, s0, m.0);
                }
                legal.add_move(m);
            }
            i = i + 1;
        }
        legal
    }
}

impl GameState {
    /// Try one en-passant capture: re-check every coherence condition at
    /// runtime, then make the move and keep it only if the mover's king is
    /// safe. The position is returned bit-exactly unchanged.
    fn try_en_passant(&mut self, moves: &mut MoveList, from: Square, to: Square, t: &Tables)
        requires
            t.wf(),
            wf(*old(self)),
            has_room(*old(self)),
            hashed(*old(self), t.zobrist),
            evaled(*old(self), t.params),
            from < 64,
            to < 64,
            all_moves_ok(*old(self), *old(moves)),
        ensures
            states_equal(*final(self), *old(self)),
            all_moves_ok(*old(self), *final(moves)),
            wf(*final(self)),
            hashed(*final(self), t.zobrist),
            evaled(*final(self), t.params),
            has_room(*final(self)),
    {
        let ghost s0 = *self;
        let our_side = self.side_to_move();
        let enemy_side = other_side(our_side);
        let geom_ok = if our_side == WHITE {
            to >= 40 && to < 48 && (from + 7 == to || from + 9 == to)
        } else {
            to >= 16 && to < 24 && (from == to + 7 || from == to + 9)
        };
        if !geom_ok {
            return ;
        }
        let ff = from % 8;
        let tf = to % 8;
        if !(ff + 1 == tf || tf + 1 == ff) {
            return ;
        }
        if self.en_passant_board.0 != (1u64 << (to as u64)) {
            return ;
        }
        let behind = if our_side == WHITE {
            to - 8
        } else {
            to + 8
        };
        if !self.piece_boards[our_side][PAWN].has(from) {
            return ;
        }
        if !self.piece_boards[enemy_side][PAWN].has(behind) {
            return ;
        }
        let blockers = self.occupancy(WHITE, t).union(self.occupancy(BLACK, t));
        if (blockers.0 >> (to as u64)) & 1 == 1 {
            return ;
        }
        let mv = Move::new_en_passant_capture(from, to);
        proof {
            lemma_sq_unoccupied(self.piece_boards, blockers.0, to as u64);
            crate::moves::lemma_null_move_fields();
            assert(move_ok(*self, mv.0));
        }
        if self.apply_pseudo_legal_move(mv, t) {
            let ghost mid = *self;
            proof {
                lemma_make_then_undo_ok(s0, *self, mv);
            }
            self.undo_move(t);
            proof {
                lemma_make_unmake(s0, mid, *self, mv, t.params);
            }
            moves.add_move(mv);
        }
    }
}


/// Everything search needs transfers between states that are equal field by
/// field.
pub proof fn lemma_state_facts_congruence(
    a: GameState,
    b: GameState,
    keys: crate::zobrist::ZobristKeys,
    params: crate::params::EvalParams,
)
    requires
        states_equal(a, b),
    ensures
        wf(a) == wf(b),
        hashed(a, keys) == hashed(b, keys),
        evaled(a, params) == evaled(b, params),
        has_room(a) == has_room(b),
        undo_ok(a) == undo_ok(b),
        a.history@ == b.history@,
{
    assert(a.piece_boards == b.piece_boards);
}

/// A state that another was made from, described field by field, is equally
/// described by any state equal to it.
pub proof fn lemma_is_make_congruence(a: GameState, b: GameState, s: GameState, m: Move)
    requires
        states_equal(a, b),
        is_make_of(a, s, m),
    ensures
        is_make_of(b, s, m),
{
    assert(a.piece_boards == b.piece_boards);
}

/// Bounds every coherent move's fields satisfy.
pub proof fn lemma_move_ok_bounds(s: GameState, m: u32)
    requires
        move_ok(s, m),
    ensures
        mv_from(m) < 64,
        mv_to(m) < 64,
        mv_moving(m) < 6,
        mv_is_capture(m) ==> mv_captured(m) < 6,
{
    crate::moves::lemma_move_flag_relations(m);
    crate::moves::lemma_field_ranges(m);
    if mv_is_en_passant(m) {
        crate::moves::lemma_null_move_fields();
        assert(mv_captured(m) < 6);
    }
}

impl GameState {
    /// A field-exact copy of the position.
    pub fn clone_state(&self) -> (r: GameState)
        ensures
            states_equal(r, *self),
    {
        let mut history: Vec<crate::gamestate::History> = Vec::new();
        let n = self.history.len();
        let mut i: usize = 0;
        while i < n
            invariant
                n == self.history@.len(),
                i <= n,
                history@.len() == i,
                forall|j: int| 0 <= j < i ==> history@[j] == self.history@[j],
            decreases n - i,
        {
            history.push(self.history[i]);
            i = i + 1;
        }
        proof {
            assert(history@ =~= self.history@);
        }
        GameState {
            piece_boards: self.piece_boards,
            plys: self.plys,
            en_passant_board: self.en_passant_board,
            castling_rights: self.castling_rights,
            fifty_move_rule: self.fifty_move_rule,
            zobrist: self.zobrist,
            history,
            material: self.material,
            material_eg: self.material_eg,
            psqt_mg: self.psqt_mg,
            psqt_eg: self.psqt_eg,
            phase: self.phase,
            has_castled: self.has_castled,
            search_ply: self.search_ply,
        }
    }

    /// The first legal move of the position, if any.
    pub fn find_first_legal_move(&mut self, t: &Tables) -> (r: Option<Move>)
        requires
            t.wf(),
            wf(*old(self)),
            has_room(*old(self)),
            hashed(*old(self), t.zobrist),
            evaled(*old(self), t.params),
        ensures
            states_equal(*final(self), *old(self)),
            r matches Some(m) ==> move_legal(*old(self), m.0),
    {
        let ghost s0 = *self;
        let moves = self.generate_pseudo_legal_moves(t);
        let mut i: usize = 0;
        while i < moves.length
            invariant
                t.wf(),
                moves.length <= 256,
                i <= moves.length,
                all_moves_ok(s0, moves),
                states_equal(*self, s0),
                s0 == *old(self),
                wf(s0),
                has_room(s0),
                hashed(s0, t.zobrist),
                evaled(s0, t.params),
            decreases moves.length - i,
        {
            let m = moves.moves[i];
            proof {
                lemma_move_ok_congruence(s0, *self, m.0);
                lemma_state_facts_congruence(*self, s0, t.zobrist, t.params);
            }
            let ghost pre = *self;
            if self.apply_pseudo_legal_move(m, t) {
                let ghost mid = *self;
                proof {
                    lemma_make_then_undo_ok(pre, *self, m);
                }
                self.undo_move(t);
                proof {
                    lemma_make_unmake(pre, mid, *self, m, t.params);
                    lemma_move_legal_congruence(pre, s0, m.0);
                }
                return Some(m);
            }
            i = i + 1;
        }
        None
    }

    /// The game has ended: a material draw, the half-move clock or a
    /// repetition, or no legal move.
    pub fn is_game_over(&mut self, t: &Tables) -> (r: bool)
        requires
            t.wf(),
            wf(*old(self)),
            has_room(*old(self)),
            hashed(*old(self), t.zobrist),
            evaled(*old(self), t.params),
        ensures
            states_equal(*final(self), *old(self)),
            (board_of(old(self).piece_boards, 0, 0) == 0 && board_of(old(self).piece_boards, 1, 0)
                == 0 && crate::eval::spec_material_draw(old(self).piece_boards)) ==> r,
            old(self).fifty_move_rule >= 100 ==> r,
            !r ==> exists|m: u32| move_legal(*old(self), m),
    {
        if self.piece_boards[WHITE][PAWN].is_empty() && self.piece_boards[BLACK][PAWN].is_empty()
            && self.is_material_draw(t) {
            return true;
        }
        if self.fifty_move_rule >= 100 || self.has_repitition() {
            return true;
        }
        let r = self.find_first_legal_move(t);
        match r {
            Some(_) => false,
            None => true,
        }
    }

    /// No legal move exists.
    pub fn unavoidable_game_over(&mut self, t: &Tables) -> (r: bool)
        requires
            t.wf(),
            wf(*old(self)),
            has_room(*old(self)),
            hashed(*old(self), t.zobrist),
            evaled(*old(self), t.params),
        ensures
            states_equal(*final(self), *old(self)),
            !r ==> exists|m: u32| move_legal(*old(self), m),
    {
        let r = self.find_first_legal_move(t);
        match r {
            Some(_) => false,
            None => true,
        }
    }
}

} // verus!
