//! Tapered static evaluation: material and piece-square sums read from the
//! incremental accumulators, mobility and pawn-structure terms computed on
//! the spot, with insufficient-material draws short-circuited to zero.

use vstd::prelude::*;
use crate::bits::{bit64, pop64, popcount64};
use crate::bitboard::{Bitboard, Square};
use crate::gamestate::{GameState, Side, board_of, side_of, wf, evaled, lemma_mat_scan_bound,
    lemma_psqt_scan_bound, lemma_phase_scan_bound, other_side, single_bit, PAWN, ROOK, KNIGHT,
    BISHOP, QUEEN, KING, WHITE, BLACK};
use crate::tables::Tables;
use crate::params::EvalParams;
use crate::moves::Piece;
use crate::movegen::{rook_move_bitboard, bishop_move_bitboard, queen_move_bitboard,
    knight_move_bitboard};

verus! {

pub type Eval = i64;

/// Neither side can force mate with the material on the board: no heavy
/// pieces and too few minors, or bare rook-versus-rook endings.
pub open spec fn spec_material_draw(boards: [[Bitboard; 6]; 2]) -> bool {
    let wr = pop64(board_of(boards, 0, 1));
    let br = pop64(board_of(boards, 1, 1));
    let wq = pop64(board_of(boards, 0, 4));
    let bq = pop64(board_of(boards, 1, 4));
    let wn = pop64(board_of(boards, 0, 2));
    let bn = pop64(board_of(boards, 1, 2));
    let wb = pop64(board_of(boards, 0, 3));
    let bb = pop64(board_of(boards, 1, 3));
    if wr == 0 && br == 0 && wq == 0 && bq == 0 {
        if wb == 0 && bb == 0 {
            wn < 3 && bn < 3
        } else if wn == 0 && bn == 0 {
            (if wb >= bb {
                wb - bb
            } else {
                bb - wb
            }) < 2
        } else {
            ((wn < 3 && wb == 0) || (wb == 1 && wn == 0)) && ((bn < 3 && bb == 0) || (bb == 1 && bn
                == 0))
        }
    } else if wq == 0 && bq == 0 {
        if wr == 1 && br == 1 {
            wn + wb < 2 && bn + bb < 2
        } else if wr == 1 && br == 0 {
            wn + wb == 0 && (bn + bb == 1 || bn + bb == 2)
        } else if br == 1 && wr == 0 {
            bn + bb == 0 && (wn + wb == 1 || wn + wb == 2)
        } else {
            false
        }
    } else {
        false
    }
}

/// The side with a bare king, when the other side has exactly one bishop
/// and one knight and nothing else beyond its king.
pub open spec fn spec_lonesome_side(s: GameState) -> Option<Side> {
    if s.material[0] == 0 && pop64(board_of(s.piece_boards, 1, 1)) == 0 && pop64(
        board_of(s.piece_boards, 1, 4),
    ) == 0 && pop64(board_of(s.piece_boards, 1, 3)) == 1 && pop64(board_of(s.piece_boards, 1, 2))
        == 1 {
        Some(0usize)
    } else if s.material[1] == 0 && pop64(board_of(s.piece_boards, 0, 1)) == 0 && pop64(
        board_of(s.piece_boards, 0, 4),
    ) == 0 && pop64(board_of(s.piece_boards, 0, 3)) == 1 && pop64(board_of(s.piece_boards, 0, 2))
        == 1 {
        Some(1usize)
    } else {
        None
    }
}

/// The per-move time allocation: a fortieth of the clock plus half the
/// increment, held below the remaining time and floored at half the
/// increment.
pub open spec fn spec_movetime(time_left: int, inc: int) -> int {
    let base = time_left / 40 + inc / 2;
    let capped = if base >= time_left {
        time_left - 500
    } else {
        base
    };
    if capped < 0 {
        inc / 2
    } else {
        capped
    }
}


/// The taper phase the accumulator denotes, clamped to 0..256.
pub open spec fn spec_phase(s: GameState) -> int {
    let raw = 24 + s.phase;
    let nonneg = if raw < 0 {
        0int
    } else {
        raw as int
    };
    let scaled = (nonneg * 256 + 12) / 24;
    if scaled > 256 {
        256int
    } else if scaled < 0 {
        0int
    } else {
        scaled
    }
}

/// Middlegame base score: material and piece-square accumulator differences
/// from the side to move's point of view.
pub open spec fn spec_base_mg(s: GameState) -> int {
    let our = side_of(s);
    let enemy = 1 - our;
    (s.material[our] - s.material[enemy]) + (s.psqt_mg[our] - s.psqt_mg[enemy])
}

/// Endgame base score, likewise.
pub open spec fn spec_base_eg(s: GameState) -> int {
    let our = side_of(s);
    let enemy = 1 - our;
    (s.material_eg[our] - s.material_eg[enemy]) + (s.psqt_eg[our] - s.psqt_eg[enemy])
}

/// Division as the machine performs it on signed values: truncating toward
/// zero.
pub open spec fn spec_div_trunc(n: int, d: int) -> int {
    if n >= 0 {
        n / d
    } else {
        -((-n) / d)
    }
}

/// Linear interpolation between the two phases.
pub open spec fn spec_taper(mg: int, eg: int, phase: int) -> int {
    spec_div_trunc(mg * (256 - phase) + eg * phase, 256)
}

/// The final clamp that keeps static scores clear of the mate range.
pub open spec fn spec_clamp_eval(v: int) -> int {
    if v > 25000 {
        25000int
    } else if v < -25000 {
        -25000int
    } else {
        v
    }
}


/// The squares ahead of a pawn from its side's point of view.
pub open spec fn pawn_ahead_mask(our: int, sq: int) -> u64 {
    let rank = sq / 8;
    if our == 0 {
        if rank < 7 {
            0xFFFFFFFFFFFFFFFFu64 << (((rank + 1) * 8) as u64)
        } else {
            0u64
        }
    } else {
        if rank > 0 {
            0xFFFFFFFFFFFFFFFFu64 >> (((8 - rank) * 8) as u64)
        } else {
            0u64
        }
    }
}

/// A pawn's own file and its neighbours.
pub open spec fn pawn_file_span(sq: int) -> u64 {
    let f = sq % 8;
    if f == 0 {
        crate::tables::file_mask_spec(0) | crate::tables::file_mask_spec(1)
    } else if f == 7 {
        crate::tables::file_mask_spec(6) | crate::tables::file_mask_spec(7)
    } else {
        (crate::tables::file_mask_spec(f - 1) | crate::tables::file_mask_spec(f))
            | crate::tables::file_mask_spec(f + 1)
    }
}

/// The files adjacent to a pawn's.
pub open spec fn pawn_neighbour_files(sq: int) -> u64 {
    let f = sq % 8;
    if f == 0 {
        crate::tables::file_mask_spec(1)
    } else if f == 7 {
        crate::tables::file_mask_spec(6)
    } else {
        crate::tables::file_mask_spec(f - 1) | crate::tables::file_mask_spec(f + 1)
    }
}

/// The square directly in front of a pawn.
pub open spec fn pawn_in_front_mask(our: int, sq: int) -> u64 {
    if our == 0 {
        if sq < 56 {
            1u64 << ((sq + 8) as u64)
        } else {
            0u64
        }
    } else {
        if sq >= 8 {
            1u64 << ((sq - 8) as u64)
        } else {
            0u64
        }
    }
}

/// One pawn's structure score: the passed bonus of its rank when no enemy
/// pawn stands ahead on its file or a neighbour, and the isolated / doubled
/// penalties read off the friendly pawns.
pub open spec fn pawn_term(
    params: EvalParams,
    mg: bool,
    our: int,
    our_pawns: u64,
    enemy_pawns: u64,
    sq: int,
) -> int {
    let passed = ((pawn_file_span(sq) & pawn_ahead_mask(our, sq)) & enemy_pawns) == 0;
    let isolated = (pawn_neighbour_files(sq) & our_pawns) == 0;
    let doubled = (pawn_in_front_mask(our, sq) & our_pawns) != 0;
    let passed_rank = if our == 0 {
        sq / 8
    } else {
        7 - sq / 8
    };
    (if passed {
        if mg {
            params.mg_passed[passed_rank] as int
        } else {
            params.eg_passed[passed_rank] as int
        }
    } else {
        0
    }) + (if doubled && isolated {
        if mg {
            -(params.mg_doubled_isolated_penalty as int)
        } else {
            -(params.eg_doubled_isolated_penalty as int)
        }
    } else if isolated {
        if mg {
            -(params.mg_isolated_penalty as int)
        } else {
            -(params.eg_isolated_penalty as int)
        }
    } else {
        0
    }) + (if doubled {
        if mg {
            -(params.mg_doubled_penalty as int)
        } else {
            -(params.eg_doubled_penalty as int)
        }
    } else {
        0
    })
}

/// Sum of the pawn terms over the set squares below `n`.
pub open spec fn pawns_fold(
    params: EvalParams,
    mg: bool,
    our: int,
    our_pawns: u64,
    enemy_pawns: u64,
    n: int,
) -> int
    decreases n,
{
    if n <= 0 {
        0
    } else {
        pawns_fold(params, mg, our, our_pawns, enemy_pawns, n - 1) + (if bit64(
            our_pawns,
            (n - 1) as u64,
        ) {
            pawn_term(params, mg, our, our_pawns, enemy_pawns, n - 1)
        } else {
            0
        })
    }
}

/// Squares without pawns add nothing to the fold.
proof fn lemma_pawns_fold_skip(
    params: EvalParams,
    mg: bool,
    our: int,
    our_pawns: u64,
    enemy_pawns: u64,
    a: int,
    b: int,
)
    requires
        0 <= a <= b <= 64,
        forall|j: u64| a <= j < b ==> !bit64(our_pawns, j),
    ensures
        pawns_fold(params, mg, our, our_pawns, enemy_pawns, b) == pawns_fold(
            params,
            mg,
            our,
            our_pawns,
            enemy_pawns,
            a,
        ),
    decreases b - a,
{
    if b > a {
        lemma_pawns_fold_skip(params, mg, our, our_pawns, enemy_pawns, a, b - 1);
    }
}

proof fn lemma_pawns_fold_bound(
    params: EvalParams,
    mg: bool,
    our: int,
    our_pawns: u64,
    enemy_pawns: u64,
    n: int,
)
    requires
        0 <= n <= 64,
    ensures
        -n * 131072 <= pawns_fold(params, mg, our, our_pawns, enemy_pawns, n) <= n * 131072,
    decreases n,
{
    if n > 0 {
        lemma_pawns_fold_bound(params, mg, our, our_pawns, enemy_pawns, n - 1);
    }
}


/// Manhattan distance from the king to the nearer corner of the bishop's
/// colour.
pub open spec fn spec_corner_distance(bishop_sq: int, king_sq: int) -> int {
    let br = bishop_sq / 8;
    let bf = bishop_sq % 8;
    let kr = king_sq / 8;
    let kf = king_sq % 8;
    let dark_bishop = (br + bf) % 2 == 0;
    let d1 = if dark_bishop {
        kr + kf
    } else {
        kr + (7 - kf)
    };
    let d2 = if dark_bishop {
        (7 - kr) + (7 - kf)
    } else {
        (7 - kr) + kf
    };
    if d1 < d2 {
        d1
    } else {
        d2
    }
}

/// The corner-driving score of a bishop-and-knight ending, from the lone
/// king's position and the winning bishop's square colour.
pub open spec fn spec_kbn_score(s: GameState, lonesome: int) -> int {
    let winner = 1 - lonesome;
    let king_sq = vstd::std_specs::bits::u64_trailing_zeros(
        board_of(s.piece_boards, lonesome, 5),
    ) as int;
    let bishops = board_of(s.piece_boards, winner, 3);
    let bishop_sq = if bishops != 0 {
        vstd::std_specs::bits::u64_trailing_zeros(bishops) as int
    } else {
        0int
    };
    spec_corner_distance(bishop_sq, king_sq) * 100
}


/// Union of the knight attacks from the set squares below `n`.
pub open spec fn defended_fold_knights(knights: u64, n: int) -> u64
    decreases n,
{
    if n <= 0 {
        0u64
    } else {
        defended_fold_knights(knights, n - 1) | (if bit64(knights, (n - 1) as u64) {
            crate::tables::knight_attacks_spec(n - 1)
        } else {
            0u64
        })
    }
}

/// Union of the bishop attacks from the set squares below `n`, on top of an
/// already-collected base.
pub open spec fn defended_fold_bishops(bishops: u64, blockers: u64, base: u64, n: int) -> u64
    decreases n,
{
    if n <= 0 {
        base
    } else {
        defended_fold_bishops(bishops, blockers, base, n - 1) | (if bit64(
            bishops,
            (n - 1) as u64,
        ) {
            crate::magic::slider_attacks(3, n - 1, blockers)
        } else {
            0u64
        })
    }
}

/// Everything the minor pieces of a side defend: knights first, bishops on
/// top, as the scan collects them.
pub open spec fn spec_defended_by_minors(
    boards: [[Bitboard; 6]; 2],
    side: int,
    blockers: u64,
) -> u64 {
    defended_fold_bishops(
        board_of(boards, side, 3),
        blockers,
        defended_fold_knights(board_of(boards, side, 2), 64),
        64,
    )
}

proof fn lemma_defended_knights_skip(knights: u64, a: int, b: int)
    requires
        0 <= a <= b <= 64,
        forall|j: u64| a <= j < b ==> !bit64(knights, j),
    ensures
        defended_fold_knights(knights, b) == defended_fold_knights(knights, a),
    decreases b - a,
{
    if b > a {
        lemma_defended_knights_skip(knights, a, b - 1);
        crate::bits::lemma_or_zero(defended_fold_knights(knights, b - 1));
    }
}

proof fn lemma_defended_bishops_skip(bishops: u64, blockers: u64, base: u64, a: int, b: int)
    requires
        0 <= a <= b <= 64,
        forall|j: u64| a <= j < b ==> !bit64(bishops, j),
    ensures
        defended_fold_bishops(bishops, blockers, base, b) == defended_fold_bishops(
            bishops,
            blockers,
            base,
            a,
        ),
    decreases b - a,
{
    if b > a {
        lemma_defended_bishops_skip(bishops, blockers, base, a, b - 1);
        crate::bits::lemma_or_zero(defended_fold_bishops(bishops, blockers, base, b - 1));
    }
}


/// The mobility area of a side: the whole board less the squares its
/// opponent's pawns attack and less its own pawns on the two ranks before
/// its baseline.
pub open spec fn spec_mobility_area(boards: [[Bitboard; 6]; 2], side: int) -> u64 {
    let enemy_pawns = board_of(boards, 1 - side, 0);
    let own_pawns = board_of(boards, side, 0);
    let attacked = if side == 0 {
        ((enemy_pawns & !crate::tables::file_mask_spec(7)) >> 7) | ((enemy_pawns
            & !crate::tables::file_mask_spec(0)) >> 9)
    } else {
        ((enemy_pawns & !crate::tables::file_mask_spec(0)) << 7) | ((enemy_pawns
            & !crate::tables::file_mask_spec(7)) << 9)
    };
    let low_ranks = if side == 0 {
        crate::tables::rank_mask_spec(1) | crate::tables::rank_mask_spec(2)
    } else {
        crate::tables::rank_mask_spec(6) | crate::tables::rank_mask_spec(5)
    };
    (0xFFFFFFFFFFFFFFFFu64 & !attacked) & !(own_pawns & low_ranks)
}

/// The mobility bonus one piece earns: its attack set inside the mobility
/// area (rooks and queens also avoid squares the enemy minors defend),
/// counted and looked up in its per-piece table, with the count held to the
/// table.
pub open spec fn mobility_term(
    params: EvalParams,
    mg: bool,
    piece: int,
    area: u64,
    defended: u64,
    blockers: u64,
    sq: int,
) -> int {
    if piece == 1 {
        let c = pop64((crate::magic::slider_attacks(1, sq, blockers) & area) & !defended);
        let i = if c > 14 {
            14int
        } else {
            c
        };
        if mg {
            params.mg_rook_mobility[i] as int
        } else {
            params.eg_rook_mobility[i] as int
        }
    } else if piece == 4 {
        let c = pop64(((crate::magic::slider_attacks(3, sq, blockers) | crate::magic::slider_attacks(
            1,
            sq,
            blockers,
        )) & area) & !defended);
        let i = if c > 27 {
            27int
        } else {
            c
        };
        if mg {
            params.mg_queen_mobility[i] as int
        } else {
            params.eg_queen_mobility[i] as int
        }
    } else if piece == 3 {
        let c = pop64(crate::magic::slider_attacks(3, sq, blockers) & area);
        let i = if c > 13 {
            13int
        } else {
            c
        };
        if mg {
            params.mg_bishop_mobility[i] as int
        } else {
            params.eg_bishop_mobility[i] as int
        }
    } else {
        let c = pop64(crate::tables::knight_attacks_spec(sq) & area);
        let i = if c > 8 {
            8int
        } else {
            c
        };
        if mg {
            params.mg_knight_mobility[i] as int
        } else {
            params.eg_knight_mobility[i] as int
        }
    }
}

/// Sum of one piece kind's mobility terms over its set squares below `n`.
pub open spec fn mobility_fold(
    params: EvalParams,
    mg: bool,
    piece: int,
    board: u64,
    area: u64,
    defended: u64,
    blockers: u64,
    n: int,
) -> int
    decreases n,
{
    if n <= 0 {
        0
    } else {
        mobility_fold(params, mg, piece, board, area, defended, blockers, n - 1) + (if bit64(
            board,
            (n - 1) as u64,
        ) {
            mobility_term(params, mg, piece, area, defended, blockers, n - 1)
        } else {
            0
        })
    }
}

/// The whole mobility score of one side, rooks then queens then bishops
/// then knights.
pub open spec fn spec_mobility(
    boards: [[Bitboard; 6]; 2],
    params: EvalParams,
    mg: bool,
    side: int,
    area: u64,
    defended: u64,
    blockers: u64,
) -> int {
    mobility_fold(params, mg, 1, board_of(boards, side, 1), area, defended, blockers, 64)
        + mobility_fold(params, mg, 4, board_of(boards, side, 4), area, defended, blockers, 64)
        + mobility_fold(params, mg, 3, board_of(boards, side, 3), area, defended, blockers, 64)
        + mobility_fold(params, mg, 2, board_of(boards, side, 2), area, defended, blockers, 64)
}

proof fn lemma_mobility_fold_skip(
    params: EvalParams,
    mg: bool,
    piece: int,
    board: u64,
    area: u64,
    defended: u64,
    blockers: u64,
    a: int,
    b: int,
)
    requires
        0 <= a <= b <= 64,
        forall|j: u64| a <= j < b ==> !bit64(board, j),
    ensures
        mobility_fold(params, mg, piece, board, area, defended, blockers, b) == mobility_fold(
            params,
            mg,
            piece,
            board,
            area,
            defended,
            blockers,
            a,
        ),
    decreases b - a,
{
    if b > a {
        lemma_mobility_fold_skip(params, mg, piece, board, area, defended, blockers, a, b - 1);
    }
}

proof fn lemma_mobility_fold_bound(
    params: EvalParams,
    mg: bool,
    piece: int,
    board: u64,
    area: u64,
    defended: u64,
    blockers: u64,
    n: int,
)
    requires
        0 <= n <= 64,
    ensures
        -n * 32768 <= mobility_fold(params, mg, piece, board, area, defended, blockers, n) <= n
            * 32768,
    decreases n,
{
    if n > 0 {
        lemma_mobility_fold_bound(params, mg, piece, board, area, defended, blockers, n - 1);
    }
}


/// The full general-case evaluation: accumulator bases plus mobility and
/// pawn-structure differences, tapered by the phase and held clear of the
/// mate range.
pub open spec fn spec_eval_general(s: GameState, params: EvalParams) -> int {
    let our = side_of(s);
    let enemy = 1 - our;
    let boards = s.piece_boards;
    let blockers = crate::movegen::occ_spec(boards, 0) | crate::movegen::occ_spec(boards, 1);
    let mob_us_mg = spec_mobility(
        boards,
        params,
        true,
        our,
        spec_mobility_area(boards, our),
        spec_defended_by_minors(boards, enemy, blockers),
        blockers,
    );
    let mob_en_mg = spec_mobility(
        boards,
        params,
        true,
        enemy,
        spec_mobility_area(boards, enemy),
        spec_defended_by_minors(boards, our, blockers),
        blockers,
    );
    let mob_us_eg = spec_mobility(
        boards,
        params,
        false,
        our,
        spec_mobility_area(boards, our),
        spec_defended_by_minors(boards, enemy, blockers),
        blockers,
    );
    let mob_en_eg = spec_mobility(
        boards,
        params,
        false,
        enemy,
        spec_mobility_area(boards, enemy),
        spec_defended_by_minors(boards, our, blockers),
        blockers,
    );
    let pawns_us_mg = pawns_fold(params, true, our, board_of(boards, our, 0), board_of(boards, enemy, 0), 64);
    let pawns_en_mg = pawns_fold(params, true, enemy, board_of(boards, enemy, 0), board_of(boards, our, 0), 64);
    let pawns_us_eg = pawns_fold(params, false, our, board_of(boards, our, 0), board_of(boards, enemy, 0), 64);
    let pawns_en_eg = pawns_fold(params, false, enemy, board_of(boards, enemy, 0), board_of(boards, our, 0), 64);
    let mg = spec_base_mg(s) + (mob_us_mg - mob_en_mg) + (pawns_us_mg - pawns_en_mg);
    let eg = spec_base_eg(s) + (mob_us_eg - mob_en_eg) + (pawns_us_eg - pawns_en_eg);
    spec_clamp_eval(spec_taper(mg, eg, spec_phase(s)))
}


/// The static evaluation, path by path: a material draw scores zero, the
/// bishop-and-knight ending scores by the corner distance, everything else
/// by the tapered general formula.
pub open spec fn spec_static_eval(s: GameState, params: EvalParams) -> int {
    let pawnless = board_of(s.piece_boards, 0, 0) == 0 && board_of(s.piece_boards, 1, 0) == 0;
    if pawnless && spec_lonesome_side(s) is Some {
        let lone = spec_lonesome_side(s)->0;
        if lone as int == 1 - side_of(s) {
            20 - spec_kbn_score(s, lone as int)
        } else {
            -20 + spec_kbn_score(s, lone as int)
        }
    } else if pawnless && spec_material_draw(s.piece_boards) {
        0
    } else {
        spec_eval_general(s, params)
    }
}

impl GameState {
    /// Whether the material on the board is a book draw.
    pub fn is_material_draw(&self, t: &Tables) -> (r: bool)
        ensures
            r == spec_material_draw(self.piece_boards),
    {
        let wr = popcount64(self.piece_boards[0][ROOK].0);
        let br = popcount64(self.piece_boards[1][ROOK].0);
        let wq = popcount64(self.piece_boards[0][QUEEN].0);
        let bq = popcount64(self.piece_boards[1][QUEEN].0);
        let wn = popcount64(self.piece_boards[0][KNIGHT].0);
        let bn = popcount64(self.piece_boards[1][KNIGHT].0);
        let wb = popcount64(self.piece_boards[0][BISHOP].0);
        let bb = popcount64(self.piece_boards[1][BISHOP].0);
        if wr == 0 && br == 0 && wq == 0 && bq == 0 {
            if wb == 0 && bb == 0 {
                wn < 3 && bn < 3
            } else if wn == 0 && bn == 0 {
                (if wb >= bb {
                    wb - bb
                } else {
                    bb - wb
                }) < 2
            } else {
                ((wn < 3 && wb == 0) || (wb == 1 && wn == 0)) && ((bn < 3 && bb == 0) || (bb == 1
                    && bn == 0))
            }
        } else if wq == 0 && bq == 0 {
            if wr == 1 && br == 1 {
                wn + wb < 2 && bn + bb < 2
            } else if wr == 1 && br == 0 {
                wn + wb == 0 && (bn + bb == 1 || bn + bb == 2)
            } else if br == 1 && wr == 0 {
                bn + bb == 0 && (wn + wb == 1 || wn + wb == 2)
            } else {
                false
            }
        } else {
            false
        }
    }

    /// The bare-king side of a bishop-and-knight ending, if this is one.
    pub fn knight_bishop_lonesome_side(&self) -> (r: Option<Side>)
        ensures
            r == spec_lonesome_side(*self),
    {
        if self.material[0] == 0 && popcount64(self.piece_boards[1][ROOK].0) == 0 && popcount64(
            self.piece_boards[1][QUEEN].0,
        ) == 0 && popcount64(self.piece_boards[1][BISHOP].0) == 1 && popcount64(
            self.piece_boards[1][KNIGHT].0,
        ) == 1 {
            return Some(0);
        }
        if self.material[1] == 0 && popcount64(self.piece_boards[0][ROOK].0) == 0 && popcount64(
            self.piece_boards[0][QUEEN].0,
        ) == 0 && popcount64(self.piece_boards[0][BISHOP].0) == 1 && popcount64(
            self.piece_boards[0][KNIGHT].0,
        ) == 1 {
            return Some(1);
        }
        None
    }

    /// Manhattan distance of the lone king to the corner of the bishop's
    /// colour, which the winning side must drive it toward.
    pub fn manhatten_distance_corner_bishop(&self, bishop_square: Square, king_square: Square) -> (
        r: Eval)
        requires
            bishop_square < 64,
            king_square < 64,
        ensures
            0 <= r <= 14,
            r == spec_corner_distance(bishop_square as int, king_square as int),
    {
        let br = bishop_square / 8;
        let bf = bishop_square % 8;
        let kr = king_square / 8;
        let kf = king_square % 8;
        let dark_bishop = (br + bf) % 2 == 0;
        // Dark corners are a1 (0,0) and h8 (7,7); light corners a8 and h1.
        let (d1, d2) = if dark_bishop {
            (kr + kf, (7 - kr) + (7 - kf))
        } else {
            (kr + (7 - kf), (7 - kr) + kf)
        };
        let d = if d1 < d2 {
            d1
        } else {
            d2
        };
        d as Eval
    }

    /// Score for driving the lone king into the mating corner.
    pub fn bishop_knight_ending_eval(&self, lonesome_side: Side, t: &Tables) -> (r: Eval)
        requires
            lonesome_side < 2,
            single_bit(board_of(self.piece_boards, lonesome_side as int, 5)),
        ensures
            0 <= r <= 1400,
            r == spec_kbn_score(*self, lonesome_side as int),
    {
        proof {
            crate::gamestate::lemma_single_bit_nonzero(
                board_of(self.piece_boards, lonesome_side as int, 5),
            );
        }
        let king_square = self.piece_boards[lonesome_side][KING].next_piece_index();
        let bishops = self.piece_boards[if lonesome_side == 0 {
            1
        } else {
            0
        }][BISHOP];
        let bishop_square = if bishops.is_filled() {
            bishops.next_piece_index()
        } else {
            0
        };
        let manhatten_distance = self.manhatten_distance_corner_bishop(bishop_square, king_square);
        manhatten_distance * 100
    }

    /// Squares defended by a side's minor pieces: exactly the union fold of
    /// knight and bishop attack sets.
    fn defended_by_minors(&self, minor_side: Side, blockers: Bitboard, t: &Tables) -> (r: Bitboard)
        requires
            t.wf(),
            minor_side < 2,
        ensures
            r.0 == spec_defended_by_minors(self.piece_boards, minor_side as int, blockers.0),
    {
        let mut defended = Bitboard(0);
        let knights = self.piece_boards[minor_side][KNIGHT];
        let bishops = self.piece_boards[minor_side][BISHOP];
        let ghost kb = knights.0;
        let ghost bb = bishops.0;
        let mut it = knights.into_iter();
        let ghost mut bound: int = 0;
        loop
            invariant
                t.wf(),
                kb == board_of(self.piece_boards, minor_side as int, 2),
                0 <= bound <= 64,
                defended.0 == defended_fold_knights(kb, bound),
                forall|j: u64|
                    j < 64 ==> (#[trigger] bit64(it.bitset.0, j) == (bit64(kb, j) && j >= bound)),
            ensures
                defended.0 == defended_fold_knights(kb, 64),
            decreases it.bitset.0,
        {
            let ghost pre_bits = it.bitset.0;
            let sq = match it.next() {
                None => {
                    proof {
                        assert forall|j: u64| bound <= j < 64 implies !bit64(kb, j) by {
                            crate::bits::lemma_bit_zero(j);
                            assert(!bit64(pre_bits, j));
                        }
                        lemma_defended_knights_skip(kb, bound, 64);
                    }
                    break ;
                },
                Some(sq) => sq,
            };
            proof {
                assert forall|j: u64| bound <= j < sq implies !bit64(kb, j) by {
                    assert(!bit64(pre_bits, j));
                }
                lemma_defended_knights_skip(kb, bound, sq as int);
            }
            defended = defended.union(knight_move_bitboard(t, sq));
            proof {
                bound = sq as int + 1;
                assert forall|j: u64|
                    j < 64 implies (#[trigger] bit64(it.bitset.0, j) == (bit64(kb, j) && j
                    >= bound)) by {
                    if j != sq as u64 {
                        assert(bit64(it.bitset.0, j) == bit64(pre_bits, j));
                    }
                }
            }
        }
        let ghost base = defended.0;
        let mut it = bishops.into_iter();
        let ghost mut bound: int = 0;
        loop
            invariant
                t.wf(),
                bb == board_of(self.piece_boards, minor_side as int, 3),
                base == defended_fold_knights(kb, 64),
                kb == board_of(self.piece_boards, minor_side as int, 2),
                0 <= bound <= 64,
                defended.0 == defended_fold_bishops(bb, blockers.0, base, bound),
                forall|j: u64|
                    j < 64 ==> (#[trigger] bit64(it.bitset.0, j) == (bit64(bb, j) && j >= bound)),
            ensures
                defended.0 == defended_fold_bishops(bb, blockers.0, base, 64),
            decreases it.bitset.0,
        {
            let ghost pre_bits = it.bitset.0;
            let sq = match it.next() {
                None => {
                    proof {
                        assert forall|j: u64| bound <= j < 64 implies !bit64(bb, j) by {
                            crate::bits::lemma_bit_zero(j);
                            assert(!bit64(pre_bits, j));
                        }
                        lemma_defended_bishops_skip(bb, blockers.0, base, bound, 64);
                    }
                    break ;
                },
                Some(sq) => sq,
            };
            proof {
                assert forall|j: u64| bound <= j < sq implies !bit64(bb, j) by {
                    assert(!bit64(pre_bits, j));
                }
                lemma_defended_bishops_skip(bb, blockers.0, base, bound, sq as int);
            }
            defended = defended.union(bishop_move_bitboard(t, sq, blockers));
            proof {
                bound = sq as int + 1;
                assert forall|j: u64|
                    j < 64 implies (#[trigger] bit64(it.bitset.0, j) == (bit64(bb, j) && j
                    >= bound)) by {
                    if j != sq as u64 {
                        assert(bit64(it.bitset.0, j) == bit64(pre_bits, j));
                    }
                }
            }
        }
        defended
    }


    /// The squares a side's pieces may move to and have that counted:
    /// everything but squares its opponent's pawns attack and its own pawns
    /// on the two ranks before its baseline.
    fn mobility_area(&self, side: Side, t: &Tables) -> (r: Bitboard)
        requires
            t.wf(),
            side < 2,
        ensures
            r.0 == spec_mobility_area(self.piece_boards, side as int),
    {
        let enemy_side = other_side(side);
        let enemy_pawns = self.piece_boards[enemy_side][PAWN];
        let mut area = Bitboard::full();
        let attacked = if side == WHITE {
            enemy_pawns.intersect(t.file_masks[7].invert()).shr(7).union(
                enemy_pawns.intersect(t.file_masks[0].invert()).shr(9),
            )
        } else {
            enemy_pawns.intersect(t.file_masks[0].invert()).shl(7).union(
                enemy_pawns.intersect(t.file_masks[7].invert()).shl(9),
            )
        };
        area = area.intersect(attacked.invert());
        let low_ranks = if side == WHITE {
            t.rank_masks[1].union(t.rank_masks[2])
        } else {
            t.rank_masks[6].union(t.rank_masks[5])
        };
        area = area.intersect(self.piece_boards[side][PAWN].intersect(low_ranks).invert());
        area
    }

    /// Mobility of one piece kind: exactly the fold of `mobility_term` over
    /// the pieces' squares.
    #[verifier::rlimit(100)]
    fn mobility_piece(
        &self,
        piece: Piece,
        board: Bitboard,
        area: Bitboard,
        defended: Bitboard,
        blockers: Bitboard,
        t: &Tables,
    ) -> (r: (Eval, Eval))
        requires
            t.wf(),
            piece == 1 || piece == 2 || piece == 3 || piece == 4,
        ensures
            r.0 == mobility_fold(
                t.params,
                true,
                piece as int,
                board.0,
                area.0,
                defended.0,
                blockers.0,
                64,
            ),
            r.1 == mobility_fold(
                t.params,
                false,
                piece as int,
                board.0,
                area.0,
                defended.0,
                blockers.0,
                64,
            ),
            -2097152 <= r.0 <= 2097152,
            -2097152 <= r.1 <= 2097152,
    {
        let mut mg_eval: i64 = 0;
        let mut eg_eval: i64 = 0;
        let ghost bd = board.0;
        let mut it = board.into_iter();
        let ghost mut bound: int = 0;
        loop
            invariant
                t.wf(),
                piece == 1 || piece == 2 || piece == 3 || piece == 4,
                bd == board.0,
                0 <= bound <= 64,
                mg_eval == mobility_fold(
                    t.params,
                    true,
                    piece as int,
                    bd,
                    area.0,
                    defended.0,
                    blockers.0,
                    bound,
                ),
                eg_eval == mobility_fold(
                    t.params,
                    false,
                    piece as int,
                    bd,
                    area.0,
                    defended.0,
                    blockers.0,
                    bound,
                ),
                -bound * 32768 <= mg_eval <= bound * 32768,
                -bound * 32768 <= eg_eval <= bound * 32768,
                forall|j: u64|
                    j < 64 ==> (#[trigger] bit64(it.bitset.0, j) == (bit64(bd, j) && j >= bound)),
            ensures
                mg_eval == mobility_fold(
                    t.params,
                    true,
                    piece as int,
                    bd,
                    area.0,
                    defended.0,
                    blockers.0,
                    64,
                ),
                eg_eval == mobility_fold(
                    t.params,
                    false,
                    piece as int,
                    bd,
                    area.0,
                    defended.0,
                    blockers.0,
                    64,
                ),
                -2097152 <= mg_eval <= 2097152,
                -2097152 <= eg_eval <= 2097152,
            decreases it.bitset.0,
        {
            let ghost pre_bits = it.bitset.0;
            let sq = match it.next() {
                None => {
                    proof {
                        assert forall|j: u64| bound <= j < 64 implies !bit64(bd, j) by {
                            crate::bits::lemma_bit_zero(j);
                            assert(!bit64(pre_bits, j));
                        }
                        lemma_mobility_fold_skip(
                            t.params,
                            true,
                            piece as int,
                            bd,
                            area.0,
                            defended.0,
                            blockers.0,
                            bound,
                            64,
                        );
                        lemma_mobility_fold_skip(
                            t.params,
                            false,
                            piece as int,
                            bd,
                            area.0,
                            defended.0,
                            blockers.0,
                            bound,
                            64,
                        );
                        lemma_mobility_fold_bound(
                            t.params,
                            true,
                            piece as int,
                            bd,
                            area.0,
                            defended.0,
                            blockers.0,
                            64,
                        );
                        lemma_mobility_fold_bound(
                            t.params,
                            false,
                            piece as int,
                            bd,
                            area.0,
                            defended.0,
                            blockers.0,
                            64,
                        );
                    }
                    break ;
                },
                Some(sq) => sq,
            };
            proof {
                assert forall|j: u64| bound <= j < sq implies !bit64(bd, j) by {
                    assert(!bit64(pre_bits, j));
                }
                lemma_mobility_fold_skip(
                    t.params,
                    true,
                    piece as int,
                    bd,
                    area.0,
                    defended.0,
                    blockers.0,
                    bound,
                    sq as int,
                );
                lemma_mobility_fold_skip(
                    t.params,
                    false,
                    piece as int,
                    bd,
                    area.0,
                    defended.0,
                    blockers.0,
                    bound,
                    sq as int,
                );
            }
            let masked = if piece == 1 {
                rook_move_bitboard(t, sq, blockers).intersect(area).intersect(defended.invert())
            } else if piece == 4 {
                queen_move_bitboard(t, sq, blockers).intersect(area).intersect(defended.invert())
            } else if piece == 3 {
                bishop_move_bitboard(t, sq, blockers).intersect(area)
            } else {
                knight_move_bitboard(t, sq).intersect(area)
            };
            let cap: usize = if piece == 1 {
                14
            } else if piece == 4 {
                27
            } else if piece == 3 {
                13
            } else {
                8
            };
            let mut c = popcount64(masked.0) as usize;
            if c > cap {
                c = cap;
            }
            let (v_mg, v_eg): (i64, i64) = if piece == 1 {
                (t.params.mg_rook_mobility[c] as i64, t.params.eg_rook_mobility[c] as i64)
            } else if piece == 4 {
                (t.params.mg_queen_mobility[c] as i64, t.params.eg_queen_mobility[c] as i64)
            } else if piece == 3 {
                (t.params.mg_bishop_mobility[c] as i64, t.params.eg_bishop_mobility[c] as i64)
            } else {
                (t.params.mg_knight_mobility[c] as i64, t.params.eg_knight_mobility[c] as i64)
            };
            proof {
                assert(v_mg == mobility_term(
                    t.params,
                    true,
                    piece as int,
                    area.0,
                    defended.0,
                    blockers.0,
                    sq as int,
                ));
                assert(v_eg == mobility_term(
                    t.params,
                    false,
                    piece as int,
                    area.0,
                    defended.0,
                    blockers.0,
                    sq as int,
                ));
            }
            mg_eval = mg_eval + v_mg;
            eg_eval = eg_eval + v_eg;
            proof {
                bound = sq as int + 1;
                assert forall|j: u64|
                    j < 64 implies (#[trigger] bit64(it.bitset.0, j) == (bit64(bd, j) && j
                    >= bound)) by {
                    if j != sq as u64 {
                        assert(bit64(it.bitset.0, j) == bit64(pre_bits, j));
                    }
                }
            }
        }
        (mg_eval, eg_eval)
    }

    /// Mobility bonuses of one side: exactly the fold sum over rooks,
    /// queens, bishops and knights.
    fn mobility(&self, our_side: Side, mobility_area: Bitboard, blockers: Bitboard, t: &Tables) -> (
        r: (Eval, Eval))
        requires
            t.wf(),
            our_side < 2,
        ensures
            r.0 == spec_mobility(
                self.piece_boards,
                t.params,
                true,
                our_side as int,
                mobility_area.0,
                spec_defended_by_minors(
                    self.piece_boards,
                    1 - our_side as int,
                    blockers.0,
                ),
                blockers.0,
            ),
            r.1 == spec_mobility(
                self.piece_boards,
                t.params,
                false,
                our_side as int,
                mobility_area.0,
                spec_defended_by_minors(
                    self.piece_boards,
                    1 - our_side as int,
                    blockers.0,
                ),
                blockers.0,
            ),
            -8388608 <= r.0 <= 8388608,
            -8388608 <= r.1 <= 8388608,
    {
        let enemy_side = other_side(our_side);
        let defended_by_minors = self.defended_by_minors(enemy_side, blockers, t);
        let rooks = self.mobility_piece(
            ROOK,
            self.piece_boards[our_side][ROOK],
            mobility_area,
            defended_by_minors,
            blockers,
            t,
        );
        let queens = self.mobility_piece(
            QUEEN,
            self.piece_boards[our_side][QUEEN],
            mobility_area,
            defended_by_minors,
            blockers,
            t,
        );
        let bishops = self.mobility_piece(
            BISHOP,
            self.piece_boards[our_side][BISHOP],
            mobility_area,
            defended_by_minors,
            blockers,
            t,
        );
        let knights = self.mobility_piece(
            KNIGHT,
            self.piece_boards[our_side][KNIGHT],
            mobility_area,
            defended_by_minors,
            blockers,
            t,
        );
        let mg = rooks.0 + queens.0 + bishops.0 + knights.0;
        let eg = rooks.1 + queens.1 + bishops.1 + knights.1;
        (mg, eg)
    }

    /// Passed, isolated and doubled pawn terms of one side: exactly the
    /// fold of `pawn_term` over the side's pawns.
    #[verifier::rlimit(100)]
    fn pawns(&self, our_side: Side, t: &Tables) -> (r: (Eval, Eval))
        requires
            t.wf(),
            our_side < 2,
        ensures
            r.0 == pawns_fold(
                t.params,
                true,
                our_side as int,
                board_of(self.piece_boards, our_side as int, 0),
                board_of(self.piece_boards, 1 - our_side as int, 0),
                64,
            ),
            r.1 == pawns_fold(
                t.params,
                false,
                our_side as int,
                board_of(self.piece_boards, our_side as int, 0),
                board_of(self.piece_boards, 1 - our_side as int, 0),
                64,
            ),
            -8388608 <= r.0 <= 8388608,
            -8388608 <= r.1 <= 8388608,
    {
        let mut pawns_mg: i64 = 0;
        let mut pawns_eg: i64 = 0;
        let enemy_side = other_side(our_side);
        let our_pawns = self.piece_boards[our_side][PAWN];
        let enemy_pawns = self.piece_boards[enemy_side][PAWN];
        let ghost op = our_pawns.0;
        let ghost ep = enemy_pawns.0;
        let ghost side = our_side as int;
        let mut it = our_pawns.into_iter();
        let ghost mut bound: int = 0;
        loop
            invariant
                t.wf(),
                our_side < 2,
                side == our_side as int,
                op == board_of(self.piece_boards, side, 0),
                ep == board_of(self.piece_boards, 1 - side, 0),
                our_pawns.0 == op,
                enemy_pawns.0 == ep,
                0 <= bound <= 64,
                pawns_mg == pawns_fold(t.params, true, side, op, ep, bound),
                pawns_eg == pawns_fold(t.params, false, side, op, ep, bound),
                -bound * 131072 <= pawns_mg <= bound * 131072,
                -bound * 131072 <= pawns_eg <= bound * 131072,
                forall|j: u64|
                    j < 64 ==> (#[trigger] bit64(it.bitset.0, j) == (bit64(op, j) && j
                        >= bound)),
            ensures
                pawns_mg == pawns_fold(t.params, true, side, op, ep, 64),
                pawns_eg == pawns_fold(t.params, false, side, op, ep, 64),
                -8388608 <= pawns_mg <= 8388608,
                -8388608 <= pawns_eg <= 8388608,
            decreases it.bitset.0,
        {
            let ghost pre_bits = it.bitset.0;
            let pawn = match it.next() {
                None => {
                    proof {
                        assert forall|j: u64| bound <= j < 64 implies !bit64(op, j) by {
                            crate::bits::lemma_bit_zero(j);
                            assert(!bit64(pre_bits, j));
                        }
                        lemma_pawns_fold_skip(t.params, true, side, op, ep, bound, 64);
                        lemma_pawns_fold_skip(t.params, false, side, op, ep, bound, 64);
                        lemma_pawns_fold_bound(t.params, true, side, op, ep, 64);
                        lemma_pawns_fold_bound(t.params, false, side, op, ep, 64);
                    }
                    break ;
                },
                Some(sq) => sq,
            };
            proof {
                assert(bit64(op, pawn as u64) && pawn as int >= bound);
                assert forall|j: u64| bound <= j < pawn implies !bit64(op, j) by {
                    assert(!bit64(pre_bits, j));
                }
                lemma_pawns_fold_skip(t.params, true, side, op, ep, bound, pawn as int);
                lemma_pawns_fold_skip(t.params, false, side, op, ep, bound, pawn as int);
            }
            let file = pawn % 8;
            let rank = pawn / 8;
            let file_span = if file == 0 {
                t.file_masks[0].union(t.file_masks[1])
            } else if file == 7 {
                t.file_masks[6].union(t.file_masks[7])
            } else {
                t.file_masks[file - 1].union(t.file_masks[file]).union(t.file_masks[file + 1])
            };
            let ahead = if our_side == WHITE {
                if rank < 7 {
                    Bitboard::full().shl((rank + 1) * 8)
                } else {
                    Bitboard(0)
                }
            } else {
                if rank > 0 {
                    Bitboard::full().shr((8 - rank) * 8)
                } else {
                    Bitboard(0)
                }
            };
            let passed = file_span.intersect(ahead).intersect(enemy_pawns).is_empty();
            let neighbour_files = if file == 0 {
                t.file_masks[1]
            } else if file == 7 {
                t.file_masks[6]
            } else {
                t.file_masks[file - 1].union(t.file_masks[file + 1])
            };
            let isolated = neighbour_files.intersect(our_pawns).is_empty();
            let in_front = if our_side == WHITE {
                if pawn < 56 {
                    Bitboard::square(pawn + 8)
                } else {
                    Bitboard(0)
                }
            } else {
                if pawn >= 8 {
                    Bitboard::square(pawn - 8)
                } else {
                    Bitboard(0)
                }
            };
            let doubled = in_front.intersect(our_pawns).is_filled();
            proof {
                assert(file_span.0 == pawn_file_span(pawn as int));
                assert(ahead.0 == pawn_ahead_mask(side, pawn as int));
                assert(neighbour_files.0 == pawn_neighbour_files(pawn as int));
                assert(in_front.0 == pawn_in_front_mask(side, pawn as int));
            }
            let mut term_mg: i64 = 0;
            let mut term_eg: i64 = 0;
            if passed {
                let passed_rank = if our_side == WHITE {
                    rank
                } else {
                    7 - rank
                };
                term_mg = term_mg + (t.params.mg_passed[passed_rank] as i64);
                term_eg = term_eg + (t.params.eg_passed[passed_rank] as i64);
            }
            if doubled && isolated {
                term_mg = term_mg - (t.params.mg_doubled_isolated_penalty as i64);
                term_eg = term_eg - (t.params.eg_doubled_isolated_penalty as i64);
            } else if isolated {
                term_mg = term_mg - (t.params.mg_isolated_penalty as i64);
                term_eg = term_eg - (t.params.eg_isolated_penalty as i64);
            }
            if doubled {
                term_mg = term_mg - (t.params.mg_doubled_penalty as i64);
                term_eg = term_eg - (t.params.eg_doubled_penalty as i64);
            }
            proof {
                assert(term_mg == pawn_term(t.params, true, side, op, ep, pawn as int));
                assert(term_eg == pawn_term(t.params, false, side, op, ep, pawn as int));
            }
            pawns_mg = pawns_mg + term_mg;
            pawns_eg = pawns_eg + term_eg;
            proof {
                bound = pawn as int + 1;
                assert forall|j: u64|
                    j < 64 implies (#[trigger] bit64(it.bitset.0, j) == (bit64(op, j) && j
                    >= bound)) by {
                    if j != pawn as u64 {
                        assert(bit64(it.bitset.0, j) == bit64(pre_bits, j));
                    }
                }
            }
        }
        proof {
            lemma_pawns_fold_bound(t.params, true, side, op, ep, 64);
            lemma_pawns_fold_bound(t.params, false, side, op, ep, 64);
        }
        (pawns_mg, pawns_eg)
    }

    /// The game phase for tapering, from 0 (middlegame) to 256 (endgame).
    pub fn phase(&self, t: &Tables) -> (r: Eval)
        requires
            evaled(*self, t.params),
        ensures
            0 <= r <= 256,
            r == spec_phase(*self),
    {
        proof {
            lemma_phase_scan_bound(self.piece_boards, 12);
        }
        let total: i64 = 24;
        let mut phase: i64 = (24 as i64) + (self.phase as i64);
        if phase < 0 {
            phase = 0;
        }
        let mut scaled = (phase * 256 + 12) / 24;
        if scaled > 256 {
            scaled = 256;
        }
        if scaled < 0 {
            scaled = 0;
        }
        scaled
    }

    /// Any earlier position in the history had the same Zobrist hash.
    pub fn has_repitition(&self) -> (r: bool)
        ensures
            r == exists|i: int|
                0 <= i < self.history@.len() && (#[trigger] self.history@[i]).zobrist
                    == self.zobrist,
    {
        let n = self.history.len();
        let mut idx: usize = 0;
        while idx < n
            invariant
                n == self.history@.len(),
                idx <= n,
                forall|i: int|
                    0 <= i < idx ==> (#[trigger] self.history@[i]).zobrist != self.zobrist,
            decreases n - idx,
        {
            if self.history[idx].zobrist.0 == self.zobrist.0 {
                proof {
                    assert(self.history@[idx as int].zobrist.0 == self.zobrist.0);
                    assert(self.history@[idx as int].zobrist == self.zobrist);
                }
                return true;
            }
            idx = idx + 1;
        }
        false
    }

    /// Time to spend on this move: the mover's clock and increment, through
    /// the allocation rule.
    pub fn calculate_movetime(&self, wtime: u64, btime: u64, winc: u64, binc: u64) -> (r: u64)
        requires
            wtime < 0x4000000000000000,
            btime < 0x4000000000000000,
            winc < 0x4000000000000000,
            binc < 0x4000000000000000,
        ensures
            side_of(*self) == 0 ==> r == spec_movetime(wtime as int, winc as int),
            side_of(*self) == 1 ==> r == spec_movetime(btime as int, binc as int),
    {
        if self.side_to_move() == WHITE {
            self.calculate_movetime_simple_side(wtime as i64, winc as i64)
        } else {
            self.calculate_movetime_simple_side(btime as i64, binc as i64)
        }
    }

    /// A fortieth of the clock plus half the increment, held below the
    /// remaining time and floored at half the increment.
    pub fn calculate_movetime_simple_side(&self, time_left: i64, inc: i64) -> (r: u64)
        requires
            0 <= time_left < 0x4000000000000000,
            0 <= inc < 0x4000000000000000,
        ensures
            r == spec_movetime(time_left as int, inc as int),
    {
        let mut time_left_move = time_left / 40 + inc / 2;
        if time_left_move >= time_left {
            time_left_move = time_left - 500;
        }
        if time_left_move < 0 {
            time_left_move = inc / 2;
        }
        time_left_move as u64
    }

    /// Static evaluation in centipawns from the side to move's point of
    /// view. Material-draw positions evaluate to zero exactly.
    pub fn static_eval(&self, t: &Tables) -> (r: Eval)
        requires
            t.wf(),
            wf(*self),
            evaled(*self, t.params),
        ensures
            -25000 <= r <= 25000,
            r == spec_static_eval(*self, t.params),
    {
        let our_side = self.side_to_move();
        let enemy_side = other_side(our_side);
        if self.piece_boards[WHITE][PAWN].is_empty() && self.piece_boards[BLACK][PAWN].is_empty() {
            if let Some(side) = self.knight_bishop_lonesome_side() {
                if side == enemy_side {
                    return 20 - self.bishop_knight_ending_eval(side, t);
                } else {
                    return -20 + self.bishop_knight_ending_eval(side, t);
                }
            }
            if self.is_material_draw(t) {
                return 0;
            }
        }
        proof {
            lemma_mat_scan_bound(self.piece_boards, 0, t.params.mg_piece_value, 6);
            lemma_mat_scan_bound(self.piece_boards, 1, t.params.mg_piece_value, 6);
            lemma_mat_scan_bound(self.piece_boards, 0, t.params.eg_piece_value, 6);
            lemma_mat_scan_bound(self.piece_boards, 1, t.params.eg_piece_value, 6);
            lemma_psqt_scan_bound(self.piece_boards, 0, t.params.psqt_mg, 6);
            lemma_psqt_scan_bound(self.piece_boards, 1, t.params.psqt_mg, 6);
            lemma_psqt_scan_bound(self.piece_boards, 0, t.params.psqt_eg, 6);
            lemma_psqt_scan_bound(self.piece_boards, 1, t.params.psqt_eg, 6);
        }
        let mut mg_eval: i64 = (self.material[our_side] - self.material[enemy_side]) + (
        self.psqt_mg[our_side] - self.psqt_mg[enemy_side]);
        let mut eg_eval: i64 = (self.material_eg[our_side] - self.material_eg[enemy_side]) + (
        self.psqt_eg[our_side] - self.psqt_eg[enemy_side]);
        let blockers = self.occupancy(WHITE, t).union(self.occupancy(BLACK, t));
        let our_area = self.mobility_area(our_side, t);
        let enemy_area = self.mobility_area(enemy_side, t);
        let mobility_us = self.mobility(our_side, our_area, blockers, t);
        let mobility_enemy = self.mobility(enemy_side, enemy_area, blockers, t);
        mg_eval = mg_eval + mobility_us.0 - mobility_enemy.0;
        eg_eval = eg_eval + mobility_us.1 - mobility_enemy.1;
        let pawns_us = self.pawns(our_side, t);
        let pawns_enemy = self.pawns(enemy_side, t);
        mg_eval = mg_eval + pawns_us.0 - pawns_enemy.0;
        eg_eval = eg_eval + pawns_us.1 - pawns_enemy.1;
        let phase = self.phase(t);
        proof {
            assert(-68719476736 <= mg_eval * (256 - phase) <= 68719476736) by (nonlinear_arith)
                requires
                    -268435456 <= mg_eval <= 268435456,
                    0 <= 256 - phase <= 256,
            ;
            assert(-68719476736 <= eg_eval * phase <= 68719476736) by (nonlinear_arith)
                requires
                    -268435456 <= eg_eval <= 268435456,
                    0 <= phase <= 256,
            ;
        }
        let mut score = ((mg_eval * (256 - phase)) + (eg_eval * phase)) / 256;
        if score > 25000 {
            score = 25000;
        }
        if score < -25000 {
            score = -25000;
        }
        proof {
            assert(score == spec_eval_general(*self, t.params));
        }
        score
    }
}

} // verus!
