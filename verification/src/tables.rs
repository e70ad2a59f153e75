//! The read-only context a position computes against: Zobrist keys, the
//! evaluation parameter set, and the precomputed attack tables (magic
//! sliding-piece tables, king and knight leaper tables, file and rank masks,
//! and the square-to-square ray table the move generator's check evasion
//! uses). Built once at program start and passed by reference everywhere.

use vstd::prelude::*;
use crate::bits::bit64;
use crate::bitboard::Bitboard;
use crate::zobrist::ZobristKeys;
use crate::params::EvalParams;
use crate::magic::{MagicEntry, table_good, relevant_mask, find_magic_entry};

verus! {

/// The single-square mask one (rank, file) step away, or empty off the board.
pub open spec fn step_mask(sq: int, dr: int, df: int) -> u64 {
    let r = sq / 8 + dr;
    let f = sq % 8 + df;
    if 0 <= r < 8 && 0 <= f < 8 {
        1u64 << ((r * 8 + f) as u64)
    } else {
        0u64
    }
}

/// The squares a king attacks.
pub open spec fn king_attacks_spec(sq: int) -> u64 {
    ((((((step_mask(sq, -1, -1) | step_mask(sq, -1, 0)) | step_mask(sq, -1, 1)) | step_mask(
        sq,
        0,
        -1,
    )) | step_mask(sq, 0, 1)) | step_mask(sq, 1, -1)) | step_mask(sq, 1, 0)) | step_mask(sq, 1, 1)
}

/// The squares a knight attacks.
pub open spec fn knight_attacks_spec(sq: int) -> u64 {
    ((((((step_mask(sq, -2, -1) | step_mask(sq, -2, 1)) | step_mask(sq, -1, -2)) | step_mask(
        sq,
        -1,
        2,
    )) | step_mask(sq, 1, -2)) | step_mask(sq, 1, 2)) | step_mask(sq, 2, -1)) | step_mask(sq, 2, 1)
}

/// The squares of one file, accumulated over the first `n` ranks.
pub open spec fn file_mask_upto(f: int, n: int) -> u64
    decreases n,
{
    if n <= 0 {
        0u64
    } else {
        (1u64 << (((n - 1) * 8 + f) as u64)) | file_mask_upto(f, n - 1)
    }
}

pub open spec fn file_mask_spec(f: int) -> u64 {
    file_mask_upto(f, 8)
}

/// The squares of one rank, accumulated over the first `n` files.
pub open spec fn rank_mask_upto(r: int, n: int) -> u64
    decreases n,
{
    if n <= 0 {
        0u64
    } else {
        (1u64 << ((r * 8 + n - 1) as u64)) | rank_mask_upto(r, n - 1)
    }
}

pub open spec fn rank_mask_spec(r: int) -> u64 {
    rank_mask_upto(r, 8)
}

/// A square is on the file mask exactly when its file matches.
pub proof fn lemma_file_mask_bits(f: int, n: int, i: u64)
    requires
        0 <= f < 8,
        0 <= n <= 8,
        i < 64,
    ensures
        bit64(file_mask_upto(f, n), i) <==> (i as int % 8 == f && i as int / 8 < n),
    decreases n,
{
    if n > 0 {
        lemma_file_mask_bits(f, n - 1, i);
        let s = (((n - 1) * 8 + f)) as u64;
        crate::bits::lemma_bit_or(1u64 << s, file_mask_upto(f, n - 1), i);
        crate::bits::lemma_bit_single(s, i);
    } else {
        assert(!bit64(0u64, i)) by (bit_vector);
    }
}

/// A square is on the rank mask exactly when its rank matches.
pub proof fn lemma_rank_mask_bits(r: int, n: int, i: u64)
    requires
        0 <= r < 8,
        0 <= n <= 8,
        i < 64,
    ensures
        bit64(rank_mask_upto(r, n), i) <==> (i as int / 8 == r && i as int % 8 < n),
    decreases n,
{
    if n > 0 {
        lemma_rank_mask_bits(r, n - 1, i);
        let s = ((r * 8 + n - 1)) as u64;
        crate::bits::lemma_bit_or(1u64 << s, rank_mask_upto(r, n - 1), i);
        crate::bits::lemma_bit_single(s, i);
    } else {
        assert(!bit64(0u64, i)) by (bit_vector);
    }
}

pub struct Tables {
    pub zobrist: ZobristKeys,
    pub params: EvalParams,
    pub rook_entries: Vec<MagicEntry>,
    pub rook_plays: Vec<Vec<Bitboard>>,
    pub bishop_entries: Vec<MagicEntry>,
    pub bishop_plays: Vec<Vec<Bitboard>>,
    pub king_moves: Vec<Bitboard>,
    pub knight_moves: Vec<Bitboard>,
    pub file_masks: Vec<Bitboard>,
    pub rank_masks: Vec<Bitboard>,
    pub ray_from_to: Vec<Vec<Bitboard>>,
}

impl Tables {
    /// Every table answers by its mathematical definition.
    pub open spec fn wf(self) -> bool {
        &&& self.rook_entries@.len() == 64
        &&& self.rook_plays@.len() == 64
        &&& self.bishop_entries@.len() == 64
        &&& self.bishop_plays@.len() == 64
        &&& self.king_moves@.len() == 64
        &&& self.knight_moves@.len() == 64
        &&& self.file_masks@.len() == 8
        &&& self.rank_masks@.len() == 8
        &&& self.ray_from_to@.len() == 64
        &&& (forall|sq: int| 0 <= sq < 64 ==> (#[trigger] self.ray_from_to@[sq])@.len() == 64)
        &&& (forall|sq: int|
            0 <= sq < 64 ==> {
                let e = #[trigger] self.rook_entries@[sq];
                &&& e.mask.0 == relevant_mask(1, sq)
                &&& 0 < e.index_bits <= 20
                &&& self.rook_plays@[sq]@.len() == (1u64 << e.index_bits as u64)
                &&& table_good(1, sq, e, self.rook_plays@[sq]@)
            })
        &&& (forall|sq: int|
            0 <= sq < 64 ==> {
                let e = #[trigger] self.bishop_entries@[sq];
                &&& e.mask.0 == relevant_mask(3, sq)
                &&& 0 < e.index_bits <= 20
                &&& self.bishop_plays@[sq]@.len() == (1u64 << e.index_bits as u64)
                &&& table_good(3, sq, e, self.bishop_plays@[sq]@)
            })
        &&& (forall|sq: int|
            0 <= sq < 64 ==> (#[trigger] self.king_moves@[sq]).0 == king_attacks_spec(sq))
        &&& (forall|sq: int|
            0 <= sq < 64 ==> (#[trigger] self.knight_moves@[sq]).0 == knight_attacks_spec(sq))
        &&& (forall|f: int| 0 <= f < 8 ==> (#[trigger] self.file_masks@[f]).0 == file_mask_spec(f))
        &&& (forall|r: int| 0 <= r < 8 ==> (#[trigger] self.rank_masks@[r]).0 == rank_mask_spec(r))
    }

    /// Build every table. Fails only if no magic multiplier is found.
    pub fn new() -> (r: Option<Tables>)
        ensures
            r matches Some(t) ==> t.wf(),
    {
        let mut rook_entries: Vec<MagicEntry> = Vec::new();
        let mut rook_plays: Vec<Vec<Bitboard>> = Vec::new();
        let mut bishop_entries: Vec<MagicEntry> = Vec::new();
        let mut bishop_plays: Vec<Vec<Bitboard>> = Vec::new();
        let mut sq: usize = 0;
        while sq < 64
            invariant
                sq <= 64,
                rook_entries@.len() == sq,
                rook_plays@.len() == sq,
                bishop_entries@.len() == sq,
                bishop_plays@.len() == sq,
                forall|i: int|
                    0 <= i < sq ==> {
                        let e = #[trigger] rook_entries@[i];
                        &&& e.mask.0 == relevant_mask(1, i)
                        &&& 0 < e.index_bits <= 20
                        &&& rook_plays@[i]@.len() == (1u64 << e.index_bits as u64)
                        &&& table_good(1, i, e, rook_plays@[i]@)
                    },
                forall|i: int|
                    0 <= i < sq ==> {
                        let e = #[trigger] bishop_entries@[i];
                        &&& e.mask.0 == relevant_mask(3, i)
                        &&& 0 < e.index_bits <= 20
                        &&& bishop_plays@[i]@.len() == (1u64 << e.index_bits as u64)
                        &&& table_good(3, i, e, bishop_plays@[i]@)
                    },
            decreases 64 - sq,
        {
            let re = find_magic_entry(1, sq);
            let be = find_magic_entry(3, sq);
            match (re, be) {
                (Some(rp), Some(bp)) => {
                    rook_entries.push(rp.0);
                    rook_plays.push(rp.1);
                    bishop_entries.push(bp.0);
                    bishop_plays.push(bp.1);
                },
                _ => {
                    return None;
                },
            }
            sq = sq + 1;
        }
        let mut king_moves: Vec<Bitboard> = Vec::new();
        let mut knight_moves: Vec<Bitboard> = Vec::new();
        let mut s2: usize = 0;
        while s2 < 64
            invariant
                s2 <= 64,
                king_moves@.len() == s2,
                knight_moves@.len() == s2,
                forall|i: int|
                    0 <= i < s2 ==> (#[trigger] king_moves@[i]).0 == king_attacks_spec(i),
                forall|i: int|
                    0 <= i < s2 ==> (#[trigger] knight_moves@[i]).0 == knight_attacks_spec(i),
            decreases 64 - s2,
        {
            let k = ((((((step_to(s2, -1, -1) | step_to(s2, -1, 0)) | step_to(s2, -1, 1)) | step_to(
                s2,
                0,
                -1,
            )) | step_to(s2, 0, 1)) | step_to(s2, 1, -1)) | step_to(s2, 1, 0)) | step_to(s2, 1, 1);
            let n = ((((((step_to(s2, -2, -1) | step_to(s2, -2, 1)) | step_to(s2, -1, -2))
                | step_to(s2, -1, 2)) | step_to(s2, 1, -2)) | step_to(s2, 1, 2)) | step_to(
                s2,
                2,
                -1,
            )) | step_to(s2, 2, 1);
            king_moves.push(Bitboard(k));
            knight_moves.push(Bitboard(n));
            s2 = s2 + 1;
        }
        let mut file_masks: Vec<Bitboard> = Vec::new();
        let mut rank_masks: Vec<Bitboard> = Vec::new();
        let mut fr: usize = 0;
        while fr < 8
            invariant
                fr <= 8,
                file_masks@.len() == fr,
                rank_masks@.len() == fr,
                forall|i: int| 0 <= i < fr ==> (#[trigger] file_masks@[i]).0 == file_mask_spec(i),
                forall|i: int| 0 <= i < fr ==> (#[trigger] rank_masks@[i]).0 == rank_mask_spec(i),
            decreases 8 - fr,
        {
            file_masks.push(Bitboard(file_mask_exec(fr, 8)));
            rank_masks.push(Bitboard(rank_mask_exec(fr, 8)));
            fr = fr + 1;
        }
        let ray_from_to = build_rays();
        Some(
            Tables {
                zobrist: ZobristKeys::new(),
                params: EvalParams::default_params(),
                rook_entries,
                rook_plays,
                bishop_entries,
                bishop_plays,
                king_moves,
                knight_moves,
                file_masks,
                rank_masks,
                ray_from_to,
            },
        )
    }
}

/// One leaper step from a square, empty when it leaves the board.
fn step_to(sq: usize, dr: i32, df: i32) -> (r: u64)
    requires
        sq < 64,
        -2 <= dr <= 2,
        -2 <= df <= 2,
    ensures
        r == step_mask(sq as int, dr as int, df as int),
{
    let rr = (sq / 8) as i32 + dr;
    let ff = (sq % 8) as i32 + df;
    if 0 <= rr && rr < 8 && 0 <= ff && ff < 8 {
        1u64 << ((rr * 8 + ff) as u64)
    } else {
        0
    }
}

fn file_mask_exec(f: usize, n: usize) -> (r: u64)
    requires
        f < 8,
        n <= 8,
    ensures
        r == file_mask_upto(f as int, n as int),
    decreases n,
{
    if n == 0 {
        0
    } else {
        (1u64 << (((n - 1) * 8 + f) as u64)) | file_mask_exec(f, n - 1)
    }
}

fn rank_mask_exec(r: usize, n: usize) -> (res: u64)
    requires
        r < 8,
        n <= 8,
    ensures
        res == rank_mask_upto(r as int, n as int),
    decreases n,
{
    if n == 0 {
        0
    } else {
        (1u64 << ((r * 8 + n - 1) as u64)) | rank_mask_exec(r, n - 1)
    }
}

/// For every (from, to): the squares from just outside `from` along the ray
/// toward `to` up to and including `to`, or empty when no ray joins them.
/// Used only to narrow check evasions, so it carries no contract beyond its
/// shape.
fn build_rays() -> (r: Vec<Vec<Bitboard>>)
    ensures
        r@.len() == 64,
        forall|i: int| 0 <= i < 64 ==> (#[trigger] r@[i])@.len() == 64,
{
    let mut rays: Vec<Vec<Bitboard>> = Vec::new();
    let mut from: usize = 0;
    while from < 64
        invariant
            from <= 64,
            rays@.len() == from,
            forall|i: int| 0 <= i < from ==> (#[trigger] rays@[i])@.len() == 64,
        decreases 64 - from,
    {
        let mut row: Vec<Bitboard> = Vec::new();
        let mut to: usize = 0;
        while to < 64
            invariant
                to <= 64,
                row@.len() == to,
                from < 64,
            decreases 64 - to,
        {
            row.push(Bitboard(ray_between(from, to)));
            to = to + 1;
        }
        rays.push(row);
        from = from + 1;
    }
    rays
}

/// Walk the eight ray directions from `from`; if one reaches `to`, return
/// the squares walked, `to` included.
fn ray_between(from: usize, to: usize) -> (r: u64)
    requires
        from < 64,
        to < 64,
{
    let dirs: [[i32; 2]; 8] = [
        [0, 1],
        [0, -1],
        [1, 0],
        [-1, 0],
        [1, 1],
        [1, -1],
        [-1, 1],
        [-1, -1],
    ];
    proof {
        assert(forall|k: int| 0 <= k < 8 ==> -1 <= #[trigger] dirs[k][0] <= 1 && -1 <= dirs[k][1]
            <= 1);
    }
    let mut d: usize = 0;
    while d < 8
        invariant
            from < 64,
            to < 64,
            forall|k: int| 0 <= k < 8 ==> -1 <= #[trigger] dirs[k][0] <= 1 && -1 <= dirs[k][1] <= 1,
        decreases 8 - d,
    {
        let mut mask: u64 = 0;
        let mut rr = (from / 8) as i32;
        let mut ff = (from % 8) as i32;
        let mut steps: u32 = 0;
        while steps < 8
            invariant
                0 <= rr <= 7,
                0 <= ff <= 7,
                to < 64,
                d < 8,
                -1 <= dirs[d as int][0] <= 1,
                -1 <= dirs[d as int][1] <= 1,
            decreases 8 - steps,
        {
            let r2 = rr + dirs[d][0];
            let f2 = ff + dirs[d][1];
            if !(0 <= r2 && r2 < 8 && 0 <= f2 && f2 < 8) {
                break ;
            }
            rr = r2;
            ff = f2;
            let sq = (rr * 8 + ff) as usize;
            mask = mask | (1u64 << (sq as u64));
            if sq == to {
                return mask;
            }
            steps = steps + 1;
        }
        d = d + 1;
    }
    0
}

} // verus!
