//! The tuned evaluation parameter set: piece values, piece-square tables
//! (from the first mover's point of view; the second mover's squares are
//! mirrored), mobility bonuses and pawn-structure terms. Entries are `i16`,
//! which bounds every partial sum the accumulators can reach.

use vstd::prelude::*;

verus! {

pub struct EvalParams {
    pub mg_piece_value: [i16; 6],
    pub eg_piece_value: [i16; 6],
    pub psqt_mg: [[i16; 64]; 6],
    pub psqt_eg: [[i16; 64]; 6],
    pub mg_rook_mobility: [i16; 15],
    pub eg_rook_mobility: [i16; 15],
    pub mg_bishop_mobility: [i16; 14],
    pub eg_bishop_mobility: [i16; 14],
    pub mg_knight_mobility: [i16; 9],
    pub eg_knight_mobility: [i16; 9],
    pub mg_queen_mobility: [i16; 28],
    pub eg_queen_mobility: [i16; 28],
    pub mg_passed: [i16; 8],
    pub eg_passed: [i16; 8],
    pub mg_isolated_penalty: i16,
    pub eg_isolated_penalty: i16,
    pub mg_doubled_isolated_penalty: i16,
    pub eg_doubled_isolated_penalty: i16,
    pub mg_doubled_penalty: i16,
    pub eg_doubled_penalty: i16,
}

impl EvalParams {
    pub fn default_params() -> EvalParams {
        EvalParams {
            mg_piece_value: [88, 579, 404, 414, 1182, 0],
            eg_piece_value: [142, 682, 405, 389, 1182, 0],
            psqt_mg: [
                [
                    0, 0, 0, 0, 0, 0, 0, 0,
                    5, 10, 10, -20, -20, 10, 10, 5,
                    5, -5, -10, 0, 0, -10, -5, 5,
                    0, 0, 20, 20, 20, 0, 0, 0,
                    5, 5, 10, 25, 25, 10, 5, 5,
                    10, 10, 20, 30, 30, 20, 10, 10,
                    50, 50, 50, 50, 50, 50, 50, 50,
                    0, 0, 0, 0, 0, 0, 0, 0,
                ],
                [
                    0, 0, 0, 5, 5, 0, 0, 0,
                    -5, 0, 0, 0, 0, 0, 0, -5,
                    -5, 0, 0, 0, 0, 0, 0, -5,
                    -5, 0, 0, 0, 0, 0, 0, -5,
                    -5, 0, 0, 0, 0, 0, 0, -5,
                    -5, 0, 0, 0, 0, 0, 0, -5,
                    5, 10, 10, 10, 10, 10, 10, 5,
                    0, 0, 0, 0, 0, 0, 0, 0,
                ],
                [
                    -50, -40, -30, -30, -30, -30, -40, -50,
                    -40, -20, 0, 5, 5, 0, -20, -40,
                    -30, 5, 10, 15, 15, 15, 5, -30,
                    -30, 0, 15, 20, 20, 15, 0, -30,
                    -30, 5, 15, 20, 20, 15, 5, -30,
                    -30, 0, 10, 15, 15, 10, 0, -30,
                    -40, -20, 0, 0, 0, 0, -20, -40,
                    -50, -40, -30, -30, -30, -30, -40, -50,
                ],
                [
                    -20, -10, -10, -10, -10, -10, -10, -20,
                    -10, 5, 0, 0, 0, 0, 5, -10,
                    -10, 10, 10, 10, 10, 10, 10, -10,
                    -10, 0, 10, 10, 10, 10, 0, -10,
                    -10, 5, 5, 10, 10, 5, 5, -10,
                    -10, 0, 5, 10, 10, 5, 0, -10,
                    -10, 0, 0, 0, 0, 0, 0, -10,
                    -20, -10, -10, -10, -10, -10, -10, -20,
                ],
                [
                    -20, -10, -10, -5, -5, -10, -10, -20,
                    -10, 0, 5, 0, 0, 0, 0, -10,
                    -10, 5, 5, 5, 5, 5, 0, -10,
                    0, 0, 5, 5, 5, 5, 0, -5,
                    -5, 0, 5, 5, 5, 5, 0, -5,
                    -10, 0, 5, 5, 5, 5, 0, -10,
                    -10, 0, 0, 0, 0, 0, 0, -10,
                    -20, -10, -10, -5, -5, -10, -10, -20,
                ],
                [
                    -20, 30, 20, -30, 0, -30, 30, -20,
                    -50, -50, -50, -50, -50, -50, -50, -50,
                    -50, -50, -50, -50, -50, -50, -50, -50,
                    -50, -50, -50, -50, -50, -50, -50, -50,
                    -50, -50, -50, -50, -50, -50, -50, -50,
                    -50, -50, -50, -50, -50, -50, -50, -50,
                    -50, -50, -50, -50, -50, -50, -50, -50,
                    -50, -50, -50, -50, -50, -50, -50, -50,
                ],
            ],
            psqt_eg: [
                [
                    0, 0, 0, 0, 0, 0, 0, 0,
                    0, 0, 0, 0, 0, 0, 0, 0,
                    0, 0, 0, 0, 0, 0, 0, 0,
                    0, 0, 0, 0, 0, 0, 0, 0,
                    0, 0, 0, 0, 0, 0, 0, 0,
                    0, 0, 0, 0, 0, 0, 0, 0,
                    0, 0, 0, 0, 0, 0, 0, 0,
                    0, 0, 0, 0, 0, 0, 0, 0,
                ],
                [
                    -20, -10, -10, -10, -10, -10, -10, -20,
                    -10, 0, 0, 0, 0, 0, 0, -10,
                    -10, 0, 0, 0, 0, 0, 0, -10,
                    -10, 0, 0, 0, 0, 0, 0, -10,
                    -10, 0, 0, 0, 0, 0, 0, -10,
                    -10, 0, 0, 0, 0, 0, 0, -10,
                    -10, 0, 0, 0, 0, 0, 0, -10,
                    -20, -10, -10, -10, -10, -10, -10, -20,
                ],
                [
                    -30, -20, -20, -20, -20, -20, -20, -30,
                    -20, 0, 0, 0, 0, 0, 0, -20,
                    -20, 0, 0, 0, 0, 0, 0, -20,
                    -20, 0, 0, 0, 0, 0, 0, -20,
                    -20, 0, 0, 0, 0, 0, 0, -20,
                    -20, 0, 0, 0, 0, 0, 0, -20,
                    -20, 0, 0, 0, 0, 0, 0, -20,
                    -30, -20, -20, -20, -20, -20, -20, -30,
                ],
                [
                    -30, 0, 0, 0, 0, 0, 0, -30,
                    0, 0, 0, 0, 0, 0, 0, 0,
                    0, 0, 0, 0, 0, 0, 0, 0,
                    0, 0, 0, 0, 0, 0, 0, 0,
                    0, 0, 0, 0, 0, 0, 0, 0,
                    0, 0, 0, 0, 0, 0, 0, 0,
                    0, 0, 0, 0, 0, 0, 0, 0,
                    -30, 0, 0, 0, 0, 0, 0, -30,
                ],
                [
                    -10, 0, 0, 0, 0, 0, 0, -10,
                    0, 0, 0, 0, 0, 0, 0, 0,
                    0, 0, 0, 0, 0, 0, 0, 0,
                    0, 0, 0, 0, 0, 0, 0, 0,
                    0, 0, 0, 0, 0, 0, 0, 0,
                    0, 0, 0, 0, 0, 0, 0, 0,
                    0, 0, 0, 0, 0, 0, 0, 0,
                    -10, 0, 0, 0, 0, 0, 0, -10,
                ],
                [
                    -40, -30, -30, -30, -30, -30, -30, -40,
                    -30, -10, -10, -10, -10, -10, -10, -30,
                    -30, -10, 5, 5, 5, 5, -10, -30,
                    -30, -10, 5, 10, 10, 5, -10, -30,
                    -30, -10, 5, 10, 10, 5, -10, -30,
                    -30, -10, 5, 5, 5, 5, -10, -30,
                    -30, -10, -10, -10, -10, -10, -10, -30,
                    -40, -30, -30, -30, -30, -30, -30, -40,
                ],
            ],
            mg_rook_mobility: [-60, -20, 2, 3, 3, 11, 22, 31, 40, 40, 41, 48, 57, 57, 62],
            eg_rook_mobility: [
                -78, -17, 23, 39, 70, 99, 103, 121, 134, 139, 158, 164, 168, 169, 172,
            ],
            mg_bishop_mobility: [-48, -20, 16, 26, 38, 51, 55, 63, 63, 68, 81, 81, 91, 98],
            eg_bishop_mobility: [-59, -23, -3, 13, 24, 42, 54, 57, 65, 73, 78, 86, 88, 97],
            mg_knight_mobility: [-62, -53, -12, -4, 3, 13, 22, 28, 33],
            eg_knight_mobility: [-81, -56, -31, -16, 5, 11, 17, 20, 25],
            mg_queen_mobility: [
                -30, -12, -8, -9, 20, 23, 23, 35, 38, 53, 64, 65, 65, 66, 67, 67, 72, 72, 77, 79,
                93, 108, 108, 108, 110, 114, 114, 116,
            ],
            eg_queen_mobility: [
                -48, -30, -7, 19, 40, 55, 59, 75, 78, 96, 96, 100, 121, 127, 131, 133, 136, 141,
                147, 150, 151, 168, 168, 171, 182, 182, 192, 219,
            ],
            mg_passed: [0, 10, 17, 15, 62, 168, 276, 0],
            eg_passed: [0, 28, 33, 41, 72, 177, 260, 0],
            mg_isolated_penalty: 23,
            eg_isolated_penalty: 12,
            mg_doubled_isolated_penalty: -18,
            eg_doubled_isolated_penalty: 37,
            mg_doubled_penalty: 28,
            eg_doubled_penalty: 36,
        }
    }
}

/// Phase weight of each piece kind: how much its presence counts toward the
/// middlegame end of the taper.
pub open spec fn spec_phase_weight(piece: int) -> int {
    if piece == 1 {
        2
    } else if piece == 2 || piece == 3 {
        1
    } else if piece == 4 {
        4
    } else {
        0
    }
}

/// Sum of the phase weights of a full starting army on both sides.
pub const TOTAL_PHASE: i32 = 24;

#[inline(always)]
pub fn phase_weight(piece: usize) -> (r: i32)
    requires
        piece < 6,
    ensures
        r == spec_phase_weight(piece as int),
        0 <= r <= 4,
{
    if piece == 1 {
        2
    } else if piece == 2 || piece == 3 {
        1
    } else if piece == 4 {
        4
    } else {
        0
    }
}

} // verus!
