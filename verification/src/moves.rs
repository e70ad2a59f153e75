//! Packed 32-bit move encoding and the fixed-capacity move list.
//!
//! Layout, low to high: from-square (6 bits), to-square (6 bits), moving
//! piece (3 bits), one unused bit, special flags (4 bits: the low two hold
//! the promotion piece or mark en passant / double push / castle side, then
//! a capture bit and a promotion bit), captured piece (3 bits).

use vstd::prelude::*;
use vstd::string::StringSliceAdditionalSpecFns;
use crate::bitboard::Square;

verus! {

pub const MAX_MOVES: usize = 256;

pub type Piece = usize;

#[derive(Default, Copy, Clone, Debug, PartialEq, Eq, Structural)]
#[verifier::ext_equal]
pub struct Move(pub u32);

#[derive(Copy, Clone, PartialEq, Eq, Structural, Debug)]
pub enum CastlingSide {
    QueenSide,
    KingSide,
}

pub open spec fn mv_from(m: u32) -> Square {
    (m & 0x3F) as Square
}

pub open spec fn mv_to(m: u32) -> Square {
    ((m >> 6) & 0x3F) as Square
}

pub open spec fn mv_moving(m: u32) -> Piece {
    ((m >> 12) & 0x7) as Piece
}

pub open spec fn mv_captured(m: u32) -> Piece {
    ((m >> 20) & 0x7) as Piece
}

pub open spec fn mv_is_capture(m: u32) -> bool {
    (m >> 18) & 1 == 1
}

pub open spec fn mv_is_promotion(m: u32) -> bool {
    (m >> 19) & 1 == 1
}

pub open spec fn mv_special(m: u32) -> u32 {
    (m >> 16) & 0xF
}

pub open spec fn mv_promoted(m: u32) -> Piece {
    (((m >> 16) & 0x3) + 1) as Piece
}

pub open spec fn mv_is_en_passant(m: u32) -> bool {
    mv_special(m) == 0b0101
}

pub open spec fn mv_is_double_push(m: u32) -> bool {
    mv_special(m) == 0b0001
}

pub open spec fn mv_castle_side(m: u32) -> Option<CastlingSide> {
    if mv_special(m) == 0b0011 {
        Some(CastlingSide::QueenSide)
    } else if mv_special(m) == 0b0010 {
        Some(CastlingSide::KingSide)
    } else {
        None
    }
}


/// Every decoded field lies in its range.
pub proof fn lemma_field_ranges(m: u32)
    by (bit_vector)
    ensures
        (m & 0x3F) < 64,
        ((m >> 6) & 0x3F) < 64,
        ((m >> 12) & 0x7) < 8,
        ((m >> 16) & 0x3) < 4,
        ((m >> 20) & 0x7) < 8,
{
}

/// The null move decodes to all-zero fields, so any move with a real
/// destination, capture flag or special code is not null.
pub proof fn lemma_null_move_fields()
    by (bit_vector)
    ensures
        (0u32 & 0x3F) == 0,
        ((0u32 >> 6) & 0x3F) == 0,
        ((0u32 >> 12) & 0x7) == 0,
        ((0u32 >> 16) & 0xF) == 0,
        ((0u32 >> 18) & 1) == 0,
        ((0u32 >> 19) & 1) == 0,
        ((0u32 >> 20) & 0x7) == 0,
{
}

/// The special-flag encodings exclude one another: an en-passant move is a
/// capture and nothing else, a double push and a castle are plain moves,
/// and a promotion carries none of the other special codes.
pub proof fn lemma_move_flag_relations(m: u32)
    ensures
        mv_is_en_passant(m) ==> mv_is_capture(m) && !mv_is_promotion(m) && !mv_is_double_push(m)
            && mv_castle_side(m) is None,
        mv_is_double_push(m) ==> !mv_is_capture(m) && !mv_is_promotion(m) && !mv_is_en_passant(m)
            && mv_castle_side(m) is None,
        mv_castle_side(m) is Some ==> !mv_is_capture(m) && !mv_is_promotion(m) && !mv_is_en_passant(
            m,
        ) && !mv_is_double_push(m),
        mv_is_promotion(m) ==> !mv_is_en_passant(m) && !mv_is_double_push(m) && mv_castle_side(
            m,
        ) is None,
{
    assert((((m >> 16) & 0xF) == 5 ==> ((m >> 18) & 1) == 1 && ((m >> 19) & 1) == 0) && (((m >> 16)
        & 0xF) == 1 ==> ((m >> 18) & 1) == 0 && ((m >> 19) & 1) == 0) && (((m >> 16) & 0xF) == 2
        ==> ((m >> 18) & 1) == 0 && ((m >> 19) & 1) == 0) && (((m >> 16) & 0xF) == 3 ==> ((m >> 18)
        & 1) == 0 && ((m >> 19) & 1) == 0) && (((m >> 19) & 1) == 1 ==> ((m >> 16) & 0xF) != 5 && ((
    m >> 16) & 0xF) != 1 && ((m >> 16) & 0xF) != 2 && ((m >> 16) & 0xF) != 3)) by (bit_vector);
}

impl Move {
    #[inline(always)]
    pub fn new_from_to(from: Square, to: Square, moving: Piece) -> (r: Self)
        requires
            from < 64,
            to < 64,
            moving < 8,
        ensures
            mv_from(r.0) == from,
            mv_to(r.0) == to,
            mv_moving(r.0) == moving,
            !mv_is_capture(r.0),
            !mv_is_promotion(r.0),
            mv_special(r.0) == 0,
            mv_captured(r.0) == 0,
    {
        let f = from as u32;
        let t = to as u32;
        let p = moving as u32;
        let m = f | (t << 6u32) | (p << 12u32);
        proof {
            assert((m & 0x3F) == f && ((m >> 6) & 0x3F) == t && ((m >> 12) & 0x7) == p && ((m >> 16)
                & 0xF) == 0 && ((m >> 20) & 0x7) == 0 && ((m >> 18) & 1) == 0 && ((m >> 19) & 1)
                == 0) by (bit_vector)
                requires
                    m == f | (t << 6u32) | (p << 12u32),
                    f < 64,
                    t < 64,
                    p < 8,
            ;
        }
        Move(m)
    }

    #[inline(always)]
    pub fn new_capture(from: Square, to: Square, moving: Piece, captured: Piece) -> (r: Self)
        requires
            from < 64,
            to < 64,
            moving < 8,
            captured < 8,
        ensures
            mv_from(r.0) == from,
            mv_to(r.0) == to,
            mv_moving(r.0) == moving,
            mv_captured(r.0) == captured,
            mv_is_capture(r.0),
            !mv_is_promotion(r.0),
            !mv_is_en_passant(r.0),
            !mv_is_double_push(r.0),
            mv_castle_side(r.0) is None,
    {
        let b = Self::new_from_to(from, to, moving);
        let c = captured as u32;
        let m = b.0 | (c << 20u32) | (1u32 << 18u32);
        proof {
            let b0 = b.0;
            assert((m & 0x3F) == (b0 & 0x3F) && ((m >> 6) & 0x3F) == ((b0 >> 6) & 0x3F) && ((m
                >> 12) & 0x7) == ((b0 >> 12) & 0x7) && ((m >> 20) & 0x7) == c && ((m >> 18) & 1)
                == 1 && ((m >> 19) & 1) == 0 && ((m >> 16) & 0xF) == 0b0100) by (bit_vector)
                requires
                    m == b0 | (c << 20u32) | (1u32 << 18u32),
                    c < 8,
                    ((b0 >> 16) & 0xF) == 0,
                    ((b0 >> 20) & 0x7) == 0,
            ;
        }
        Move(m)
    }

    #[inline(always)]
    pub fn new_en_passant_capture(from: Square, to: Square) -> (r: Self)
        requires
            from < 64,
            to < 64,
        ensures
            mv_from(r.0) == from,
            mv_to(r.0) == to,
            mv_moving(r.0) == 0,
            mv_captured(r.0) == 0,
            mv_is_capture(r.0),
            mv_is_en_passant(r.0),
            !mv_is_promotion(r.0),
            !mv_is_double_push(r.0),
            mv_castle_side(r.0) is None,
    {
        let b = Self::new_from_to(from, to, 0);
        let m = b.0 | (0b101u32 << 16u32);
        proof {
            let b0 = b.0;
            assert((m & 0x3F) == (b0 & 0x3F) && ((m >> 6) & 0x3F) == ((b0 >> 6) & 0x3F) && ((m
                >> 12) & 0x7) == ((b0 >> 12) & 0x7) && ((m >> 20) & 0x7) == 0 && ((m >> 18) & 1)
                == 1 && ((m >> 19) & 1) == 0 && ((m >> 16) & 0xF) == 0b0101) by (bit_vector)
                requires
                    m == b0 | (0b101u32 << 16u32),
                    ((b0 >> 16) & 0xF) == 0,
                    ((b0 >> 20) & 0x7) == 0,
            ;
        }
        Move(m)
    }

    #[inline(always)]
    pub fn new_double_pawn_push(from: Square, to: Square) -> (r: Self)
        requires
            from < 64,
            to < 64,
        ensures
            mv_from(r.0) == from,
            mv_to(r.0) == to,
            mv_moving(r.0) == 0,
            !mv_is_capture(r.0),
            !mv_is_promotion(r.0),
            mv_is_double_push(r.0),
            !mv_is_en_passant(r.0),
            mv_castle_side(r.0) is None,
    {
        let b = Self::new_from_to(from, to, 0);
        let m = b.0 | (0b1u32 << 16u32);
        proof {
            let b0 = b.0;
            assert((m & 0x3F) == (b0 & 0x3F) && ((m >> 6) & 0x3F) == ((b0 >> 6) & 0x3F) && ((m
                >> 12) & 0x7) == ((b0 >> 12) & 0x7) && ((m >> 18) & 1) == 0 && ((m >> 19) & 1) == 0
                && ((m >> 16) & 0xF) == 0b0001) by (bit_vector)
                requires
                    m == b0 | (0b1u32 << 16u32),
                    ((b0 >> 16) & 0xF) == 0,
            ;
        }
        Move(m)
    }

    #[inline(always)]
    pub fn new_castle(side: CastlingSide, from: Square, to: Square) -> (r: Self)
        requires
            from < 64,
            to < 64,
        ensures
            mv_from(r.0) == from,
            mv_to(r.0) == to,
            mv_moving(r.0) == 5,
            !mv_is_capture(r.0),
            !mv_is_promotion(r.0),
            !mv_is_en_passant(r.0),
            !mv_is_double_push(r.0),
            mv_castle_side(r.0) == Some(side),
    {
        let b = Self::new_from_to(from, to, 5);
        let flags: u32 = match side {
            CastlingSide::QueenSide => 0b11u32,
            CastlingSide::KingSide => 0b10u32,
        };
        let m = b.0 | (flags << 16u32);
        proof {
            let b0 = b.0;
            assert((m & 0x3F) == (b0 & 0x3F) && ((m >> 6) & 0x3F) == ((b0 >> 6) & 0x3F) && ((m
                >> 12) & 0x7) == ((b0 >> 12) & 0x7) && ((m >> 18) & 1) == 0 && ((m >> 19) & 1) == 0
                && ((m >> 16) & 0xF) == flags) by (bit_vector)
                requires
                    m == b0 | (flags << 16u32),
                    flags == 0b10u32 || flags == 0b11u32,
                    ((b0 >> 16) & 0xF) == 0,
            ;
        }
        Move(m)
    }

    #[inline(always)]
    pub fn new_quiet_promotion(from: Square, to: Square, piece: Piece) -> (r: Self)
        requires
            from < 64,
            to < 64,
            1 <= piece <= 4,
        ensures
            mv_from(r.0) == from,
            mv_to(r.0) == to,
            mv_moving(r.0) == 0,
            mv_promoted(r.0) == piece,
            mv_is_promotion(r.0),
            !mv_is_capture(r.0),
            !mv_is_en_passant(r.0),
            !mv_is_double_push(r.0),
            mv_castle_side(r.0) is None,
            mv_captured(r.0) == 0,
    {
        let b = Self::new_from_to(from, to, 0);
        let p = (piece - 1) as u32;
        let m = b.0 | (0b1000u32 << 16u32) | (p << 16u32);
        proof {
            let b0 = b.0;
            assert((m & 0x3F) == (b0 & 0x3F) && ((m >> 6) & 0x3F) == ((b0 >> 6) & 0x3F) && ((m
                >> 12) & 0x7) == ((b0 >> 12) & 0x7) && ((m >> 18) & 1) == 0 && ((m >> 19) & 1) == 1
                && ((m >> 16) & 0x3) == p && ((m >> 16) & 0xF) != 0b0101 && ((m >> 16) & 0xF)
                != 0b0001 && ((m >> 16) & 0xF) != 0b0011 && ((m >> 16) & 0xF) != 0b0010 && ((m
                >> 20) & 0x7) == ((b0 >> 20) & 0x7)) by (bit_vector)
                requires
                    m == b0 | (0b1000u32 << 16u32) | (p << 16u32),
                    p < 4,
                    ((b0 >> 16) & 0xF) == 0,
            ;
        }
        Move(m)
    }

    #[inline(always)]
    pub fn new_capture_promotion(from: Square, to: Square, piece: Piece, captured: Piece) -> (r:
        Self)
        requires
            from < 64,
            to < 64,
            1 <= piece <= 4,
            captured < 8,
        ensures
            mv_from(r.0) == from,
            mv_to(r.0) == to,
            mv_moving(r.0) == 0,
            mv_promoted(r.0) == piece,
            mv_captured(r.0) == captured,
            mv_is_promotion(r.0),
            mv_is_capture(r.0),
            !mv_is_en_passant(r.0),
            !mv_is_double_push(r.0),
            mv_castle_side(r.0) is None,
    {
        let b = Self::new_quiet_promotion(from, to, piece);
        let c = captured as u32;
        let m = b.0 | (c << 20u32) | (1u32 << 18u32);
        proof {
            let b0 = b.0;
            assert((m & 0x3F) == (b0 & 0x3F) && ((m >> 6) & 0x3F) == ((b0 >> 6) & 0x3F) && ((m
                >> 12) & 0x7) == ((b0 >> 12) & 0x7) && ((m >> 20) & 0x7) == c && ((m >> 18) & 1)
                == 1 && ((m >> 19) & 1) == ((b0 >> 19) & 1) && ((m >> 16) & 0x3) == ((b0 >> 16)
                & 0x3) && ((m >> 16) & 0xF) != 0b0101 && ((m >> 16) & 0xF) != 0b0001 && ((m >> 16)
                & 0xF) != 0b0011 && ((m >> 16) & 0xF) != 0b0010) by (bit_vector)
                requires
                    m == b0 | (c << 20u32) | (1u32 << 18u32),
                    c < 8,
                    ((b0 >> 20) & 0x7) == 0,
                    ((b0 >> 19) & 1) == 1,
            ;
        }
        Move(m)
    }

    #[inline(always)]
    pub fn is_capture(&self) -> (r: bool)
        ensures
            r == mv_is_capture(self.0),
    {
        (self.0 >> 18u32) & 1 == 1
    }

    #[inline(always)]
    pub fn captured_piece(&self) -> (r: Piece)
        ensures
            r == mv_captured(self.0),
            r < 8,
    {
        let m = self.0;
        proof {
            lemma_field_ranges(m);
        }
        ((m >> 20u32) & 0x7) as Piece
    }

    #[inline(always)]
    pub fn from(&self) -> (r: Square)
        ensures
            r == mv_from(self.0),
            r < 64,
    {
        let m = self.0;
        proof {
            lemma_field_ranges(m);
        }
        (m & 0x3F) as Square
    }

    #[inline(always)]
    pub fn to(&self) -> (r: Square)
        ensures
            r == mv_to(self.0),
            r < 64,
    {
        let m = self.0;
        proof {
            lemma_field_ranges(m);
        }
        ((m >> 6u32) & 0x3F) as Square
    }

    #[inline(always)]
    pub fn is_promotion(&self) -> (r: bool)
        ensures
            r == mv_is_promotion(self.0),
    {
        (self.0 >> 19u32) & 1 == 1
    }

    #[inline(always)]
    pub fn is_capture_and_en_passant(&self) -> (r: bool)
        ensures
            r == mv_is_en_passant(self.0),
    {
        (self.0 >> 16u32) & 0xF == 0b101
    }

    #[inline(always)]
    pub fn promoted_piece(&self) -> (r: Piece)
        ensures
            r == mv_promoted(self.0),
            1 <= r <= 4,
    {
        let m = self.0;
        proof {
            lemma_field_ranges(m);
        }
        (((m >> 16u32) & 0x3) + 1) as Piece
    }

    #[inline(always)]
    pub fn moving_piece(&self) -> (r: Piece)
        ensures
            r == mv_moving(self.0),
            r < 8,
    {
        let m = self.0;
        proof {
            lemma_field_ranges(m);
        }
        ((m >> 12u32) & 0x7) as Piece
    }

    #[inline(always)]
    pub fn is_castle_and_where(&self) -> (r: Option<CastlingSide>)
        ensures
            r == mv_castle_side(self.0),
    {
        let castle_side = (self.0 >> 16u32) & 0xF;
        if castle_side == 0b11 {
            Some(CastlingSide::QueenSide)
        } else if castle_side == 0b10 {
            Some(CastlingSide::KingSide)
        } else {
            None
        }
    }

    #[inline(always)]
    pub fn is_double_pawn_push(&self) -> (r: bool)
        ensures
            r == mv_is_double_push(self.0),
    {
        ((self.0 >> 16u32) & 0xF) == 0b1
    }
}

/// Fixed-capacity list of moves with parallel ordering keys. A full list
/// silently ignores further moves; no position reachable under the rules of
/// chess has more than 218 legal moves, so play never fills the 256 slots,
/// though artificial piece arrangements could.
#[derive(Copy, Clone)]
pub struct MoveList {
    pub moves: [Move; 256],
    pub values: [u32; 256],
    pub length: usize,
}

impl MoveList {
    pub fn new() -> (r: MoveList)
        ensures
            r.length == 0,
            r.moves@.len() == 256,
            r.values@.len() == 256,
            forall|i: int| 0 <= i < 256 ==> r.values@[i] == 0,
    {
        MoveList { moves: [Move(0); 256], values: [0; 256], length: 0 }
    }

    #[inline(always)]
    pub fn add_move(&mut self, mv: Move)
        requires
            old(self).length <= 256,
        ensures
            old(self).length < 256 ==> {
                &&& final(self).length == old(self).length + 1
                &&& final(self).moves@ == old(self).moves@.update(old(self).length as int, mv)
                &&& final(self).values@ == old(self).values@
            },
            old(self).length == 256 ==> *final(self) == *old(self),
            final(self).length <= 256,
    {
        if self.length < 256 {
            self.moves[self.length] = mv;
            self.length = self.length + 1;
        }
    }

    #[inline(always)]
    pub fn into_iter(self) -> (r: MoveIterator)
        ensures
            r.move_list == self,
            r.index == 0,
    {
        MoveIterator { move_list: self, index: 0 }
    }
}

pub struct MoveIterator {
    pub move_list: MoveList,
    pub index: usize,
}

impl MoveIterator {
    #[inline(always)]
    pub fn next(&mut self) -> (r: Option<Move>)
        requires
            old(self).move_list.length <= 256,
            old(self).index <= old(self).move_list.length,
        ensures
            final(self).move_list == old(self).move_list,
            match r {
                None => old(self).index == old(self).move_list.length && final(self).index == old(
                    self,
                ).index,
                Some(m) => old(self).index < old(self).move_list.length && m == old(
                    self,
                ).move_list.moves@[old(self).index as int] && final(self).index == old(self).index
                    + 1,
            },
    {
        if self.index >= self.move_list.length {
            return None;
        }
        let mv = self.move_list.moves[self.index];
        self.index = self.index + 1;
        Some(mv)
    }
}


/// Index of a square written in algebraic notation ("e4"), if well formed.
pub fn algebraic_to_index(algebraic: &str) -> (r: Option<usize>)
    ensures
        r matches Some(i) ==> {
            &&& i < 64
            &&& algebraic.spec_bytes().len() == 2
            &&& i == (algebraic.spec_bytes()[1] - 49) * 8 + (algebraic.spec_bytes()[0] - 97)
        },
        r is Some <==> (algebraic.spec_bytes().len() == 2 && 97 <= algebraic.spec_bytes()[0] < 105
            && 49 <= algebraic.spec_bytes()[1] < 57),
{
    let bytes = algebraic.as_bytes();
    if bytes.len() != 2 {
        return None;
    }
    let fb = bytes[0];
    let rb = bytes[1];
    if fb < 97 || fb >= 105 || rb < 49 || rb >= 57 {
        return None;
    }
    Some(((rb - 49) as usize) * 8 + ((fb - 97) as usize))
}

/// The file letter of a square.
pub open spec fn spec_file_char(sq: int) -> char {
    let f = sq % 8;
    if f == 0 {
        'a'
    } else if f == 1 {
        'b'
    } else if f == 2 {
        'c'
    } else if f == 3 {
        'd'
    } else if f == 4 {
        'e'
    } else if f == 5 {
        'f'
    } else if f == 6 {
        'g'
    } else {
        'h'
    }
}

/// The rank digit of a square.
pub open spec fn spec_rank_char(sq: int) -> char {
    let r = sq / 8;
    if r == 0 {
        '1'
    } else if r == 1 {
        '2'
    } else if r == 2 {
        '3'
    } else if r == 3 {
        '4'
    } else if r == 4 {
        '5'
    } else if r == 5 {
        '6'
    } else if r == 6 {
        '7'
    } else {
        '8'
    }
}

/// A square in algebraic notation, as text.
pub open spec fn spec_square_alg(sq: int) -> Seq<char> {
    seq![spec_file_char(sq), spec_rank_char(sq)]
}

/// The letter of a promotion piece.
pub open spec fn spec_piece_char(p: int) -> char {
    if p == 0 {
        'p'
    } else if p == 1 {
        'r'
    } else if p == 2 {
        'n'
    } else if p == 3 {
        'b'
    } else if p == 4 {
        'q'
    } else {
        'k'
    }
}

fn file_str(sq: Square) -> (r: &'static str)
    requires
        sq < 64,
    ensures
        r@ == seq![spec_file_char(sq as int)],
{
    let f = sq % 8;
    if f == 0 {
        proof {
            reveal_strlit("a");
        }
        "a"
    } else if f == 1 {
        proof {
            reveal_strlit("b");
        }
        "b"
    } else if f == 2 {
        proof {
            reveal_strlit("c");
        }
        "c"
    } else if f == 3 {
        proof {
            reveal_strlit("d");
        }
        "d"
    } else if f == 4 {
        proof {
            reveal_strlit("e");
        }
        "e"
    } else if f == 5 {
        proof {
            reveal_strlit("f");
        }
        "f"
    } else if f == 6 {
        proof {
            reveal_strlit("g");
        }
        "g"
    } else {
        proof {
            reveal_strlit("h");
        }
        "h"
    }
}

fn rank_str(sq: Square) -> (r: &'static str)
    requires
        sq < 64,
    ensures
        r@ == seq![spec_rank_char(sq as int)],
{
    let k = sq / 8;
    if k == 0 {
        proof {
            reveal_strlit("1");
        }
        "1"
    } else if k == 1 {
        proof {
            reveal_strlit("2");
        }
        "2"
    } else if k == 2 {
        proof {
            reveal_strlit("3");
        }
        "3"
    } else if k == 3 {
        proof {
            reveal_strlit("4");
        }
        "4"
    } else if k == 4 {
        proof {
            reveal_strlit("5");
        }
        "5"
    } else if k == 5 {
        proof {
            reveal_strlit("6");
        }
        "6"
    } else if k == 6 {
        proof {
            reveal_strlit("7");
        }
        "7"
    } else {
        proof {
            reveal_strlit("8");
        }
        "8"
    }
}

fn promo_str(p: Piece) -> (r: &'static str)
    requires
        p < 6,
    ensures
        r@ == seq![spec_piece_char(p as int)],
{
    if p == 0 {
        proof {
            reveal_strlit("p");
        }
        "p"
    } else if p == 1 {
        proof {
            reveal_strlit("r");
        }
        "r"
    } else if p == 2 {
        proof {
            reveal_strlit("n");
        }
        "n"
    } else if p == 3 {
        proof {
            reveal_strlit("b");
        }
        "b"
    } else if p == 4 {
        proof {
            reveal_strlit("q");
        }
        "q"
    } else {
        proof {
            reveal_strlit("k");
        }
        "k"
    }
}

impl Move {
    /// One square in algebraic notation.
    pub fn square_to_algebraic(square: Square) -> (r: String)
        requires
            square < 64,
        ensures
            r@ == spec_square_alg(square as int),
    {
        let mut out = String::new();
        out.append(file_str(square));
        out.append(rank_str(square));
        proof {
            assert(out@ =~= spec_square_alg(square as int));
        }
        out
    }

    /// The move in long algebraic notation, with the promotion letter
    /// appended for promotions.
    pub fn to_algebraic(self) -> (r: String)
        ensures
            mv_is_promotion(self.0) ==> r@ == spec_square_alg(mv_from(self.0) as int)
                + spec_square_alg(mv_to(self.0) as int) + seq![
                spec_piece_char(mv_promoted(self.0) as int),
            ],
            !mv_is_promotion(self.0) ==> r@ == spec_square_alg(mv_from(self.0) as int)
                + spec_square_alg(mv_to(self.0) as int),
    {
        let mut out = String::new();
        out.append(file_str(self.from()));
        out.append(rank_str(self.from()));
        out.append(file_str(self.to()));
        out.append(rank_str(self.to()));
        if self.is_promotion() {
            out.append(promo_str(self.promoted_piece()));
            proof {
                assert(out@ =~= spec_square_alg(mv_from(self.0) as int) + spec_square_alg(
                    mv_to(self.0) as int,
                ) + seq![spec_piece_char(mv_promoted(self.0) as int)]);
            }
        } else {
            proof {
                assert(out@ =~= spec_square_alg(mv_from(self.0) as int) + spec_square_alg(
                    mv_to(self.0) as int,
                ));
            }
        }
        out
    }
}



/// The square index written by two algebraic bytes (file letter, rank digit).
pub open spec fn spec_alg_sq(b0: u8, b1: u8) -> int {
    (b1 - 49) * 8 + (b0 - 97)
}

/// The piece a promotion letter names.
pub open spec fn spec_promo_piece(b: u8) -> int {
    if b == 113 {
        4int
    } else if b == 114 {
        1int
    } else if b == 110 {
        2int
    } else {
        3int
    }
}

/// When a long-algebraic text decodes against a position: four or five
/// bytes, squares in range, a piece of either side on the from-square, and a
/// known promotion letter if present.
pub open spec fn text_move_valid(s: crate::gamestate::GameState, bs: Seq<u8>) -> bool {
    &&& (bs.len() == 4 || bs.len() == 5)
    &&& 97 <= bs[0] < 105
    &&& 49 <= bs[1] < 57
    &&& 97 <= bs[2] < 105
    &&& 49 <= bs[3] < 57
    &&& crate::gamestate::occupant_at(s.piece_boards, spec_alg_sq(bs[0], bs[1])) is Some
    &&& (bs.len() == 5 ==> (bs[4] == 113 || bs[4] == 114 || bs[4] == 110 || bs[4] == 98))
}

/// What the decoded move holds: the text's squares; a promotion when a fifth
/// byte names one; en passant when a pawn steps onto the en-passant square;
/// a castle when the king makes its two-square step; otherwise a capture or
/// quiet move of the piece found on the from-square, with the captured piece
/// read off the board.
pub open spec fn decodes_text_move(s: crate::gamestate::GameState, bs: Seq<u8>, m: u32) -> bool {
    let from = spec_alg_sq(bs[0], bs[1]);
    let to = spec_alg_sq(bs[2], bs[3]);
    &&& mv_from(m) == from
    &&& mv_to(m) == to
    &&& if bs.len() == 5 {
        &&& mv_is_promotion(m)
        &&& mv_promoted(m) == spec_promo_piece(bs[4])
        &&& mv_moving(m) == 0
        &&& match crate::gamestate::occupant_at(s.piece_boards, to) {
            Some(sp) => mv_is_capture(m) && mv_captured(m) == sp.1,
            None => !mv_is_capture(m),
        }
    } else {
        match crate::gamestate::occupant_at(s.piece_boards, from) {
            None => false,
            Some(fp) => {
                let piece_from = fp.1;
                if piece_from == 0 && s.en_passant_board.0 == (1u64 << to as u64)
                    && crate::gamestate::occupant_at(s.piece_boards, to) is None {
                    mv_is_en_passant(m)
                } else if piece_from == 5 && crate::gamestate::side_of(s) == 0 && from == 4 && (to
                    == 6 || to == 2) {
                    mv_castle_side(m) == (if to == 6 {
                        Some(CastlingSide::KingSide)
                    } else {
                        Some(CastlingSide::QueenSide)
                    })
                } else if piece_from == 5 && crate::gamestate::side_of(s) == 1 && from == 60 && (to
                    == 62 || to == 58) {
                    mv_castle_side(m) == (if to == 62 {
                        Some(CastlingSide::KingSide)
                    } else {
                        Some(CastlingSide::QueenSide)
                    })
                } else {
                    &&& mv_moving(m) == piece_from
                    &&& match crate::gamestate::occupant_at(s.piece_boards, to) {
                        Some(sp) => mv_is_capture(m) && mv_captured(m) == sp.1,
                        None => !mv_is_capture(m) && !mv_is_promotion(m) && !mv_is_en_passant(m)
                            && mv_castle_side(m) is None,
                    }
                }
            },
        }
    }
}

impl Move {
    /// Decode a move written in long algebraic notation against the current
    /// position: the board supplies the moving and captured pieces, and the
    /// king's two-square steps become castles.
    pub fn from_text_move(gamestate: &crate::gamestate::GameState, text: &str) -> (r: Option<Move>)
        ensures
            r is Some <==> text_move_valid(*gamestate, text.spec_bytes()),
            r matches Some(mv) ==> decodes_text_move(*gamestate, text.spec_bytes(), mv.0),
    {
        let bytes = text.as_bytes();
        if bytes.len() < 4 || bytes.len() > 5 {
            return None;
        }
        let fb = bytes[0];
        let rb = bytes[1];
        let tb = bytes[2];
        let sb = bytes[3];
        if fb < 97 || fb >= 105 || rb < 49 || rb >= 57 || tb < 97 || tb >= 105 || sb < 49 || sb
            >= 57 {
            return None;
        }
        let from = ((rb - 49) as usize) * 8 + ((fb - 97) as usize);
        let to = ((sb - 49) as usize) * 8 + ((tb - 97) as usize);
        let piece_from = match gamestate.find_piece_on_all(from) {
            None => {
                return None;
            },
            Some((side, piece)) => piece,
        };
        let piece_to = gamestate.find_piece_on_all(to);
        if bytes.len() == 5 {
            let promoted_piece: usize = match bytes[4] {
                113 => 4,
                114 => 1,
                110 => 2,
                98 => 3,
                _ => {
                    return None;
                },
            };
            if let Some((_, captured_piece)) = piece_to {
                return Some(Move::new_capture_promotion(from, to, promoted_piece, captured_piece));
            } else {
                return Some(Move::new_quiet_promotion(from, to, promoted_piece));
            }
        }
        if piece_from == 0 && gamestate.en_passant_board.0 == (1u64 << (to as u64))
            && piece_to.is_none() {
            return Some(Move::new_en_passant_capture(from, to));
        }
        if piece_from == 5 {
            if gamestate.side_to_move() == 0 {
                if from == 4 {
                    if to == 6 {
                        return Some(Move::new_castle(CastlingSide::KingSide, from, to));
                    } else if to == 2 {
                        return Some(Move::new_castle(CastlingSide::QueenSide, from, to));
                    }
                }
            } else if from == 60 {
                if to == 62 {
                    return Some(Move::new_castle(CastlingSide::KingSide, from, to));
                } else if to == 58 {
                    return Some(Move::new_castle(CastlingSide::QueenSide, from, to));
                }
            }
        }
        if let Some((_, captured_piece)) = piece_to {
            Some(Move::new_capture(from, to, piece_from, captured_piece))
        } else {
            Some(Move::new_from_to(from, to, piece_from))
        }
    }
}

} // verus!
