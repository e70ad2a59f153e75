//! Sliding-piece attacks and their magic-multiply lookup tables.
//!
//! `slider_attacks` is the mathematical definition: walk each ray until the
//! board edge or the first blocker, inclusive. A magic table for a square
//! maps `(blockers AND mask) * magic >> (64 - bits)` to the attack set;
//! `table_good` states that the table agrees with `slider_attacks` on every
//! blocker subset of the mask, and the constructors prove it.

use vstd::prelude::*;
use crate::bits::bit64;
use crate::bitboard::{Bitboard, Square};

verus! {

/// Rank step of ray `d` of a rook (piece 1) or bishop (piece 3).
pub open spec fn dr_of(piece: int, d: int) -> int {
    if piece == 1 {
        if d == 0 {
            0
        } else if d == 1 {
            0
        } else if d == 2 {
            1
        } else {
            -1
        }
    } else {
        if d == 0 {
            1
        } else if d == 1 {
            1
        } else if d == 2 {
            -1
        } else {
            -1
        }
    }
}

/// File step of ray `d` of a rook (piece 1) or bishop (piece 3).
pub open spec fn df_of(piece: int, d: int) -> int {
    if piece == 1 {
        if d == 0 {
            1
        } else if d == 1 {
            -1
        } else if d == 2 {
            0
        } else {
            0
        }
    } else {
        if d == 0 {
            1
        } else if d == 1 {
            -1
        } else if d == 2 {
            1
        } else {
            -1
        }
    }
}

/// The squares a ray reaches from (`r`, `f`): every square up to and
/// including the first occupied one, stopping at the board edge.
pub open spec fn ray_plays_spec(r: int, f: int, dr: int, df: int, occ: u64, n: nat) -> u64
    decreases n,
{
    if n == 0 {
        0u64
    } else {
        let r2 = r + dr;
        let f2 = f + df;
        if !(0 <= r2 < 8 && 0 <= f2 < 8) {
            0u64
        } else {
            let sq2 = (r2 * 8 + f2) as u64;
            (1u64 << sq2) | (if bit64(occ, sq2) {
                0u64
            } else {
                ray_plays_spec(r2, f2, dr, df, occ, (n - 1) as nat)
            })
        }
    }
}

/// The attack set of a rook or bishop on `sq` with blockers `occ`.
pub open spec fn slider_attacks(piece: int, sq: int, occ: u64) -> u64 {
    let r = sq / 8;
    let f = sq % 8;
    (((ray_plays_spec(r, f, dr_of(piece, 0), df_of(piece, 0), occ, 8) | ray_plays_spec(
        r,
        f,
        dr_of(piece, 1),
        df_of(piece, 1),
        occ,
        8,
    )) | ray_plays_spec(r, f, dr_of(piece, 2), df_of(piece, 2), occ, 8)) | ray_plays_spec(
        r,
        f,
        dr_of(piece, 3),
        df_of(piece, 3),
        occ,
        8,
    ))
}

/// The relevant-blocker squares of a ray: its interior squares, leaving the
/// edge square out (a blocker there cannot change the attack set).
pub open spec fn ray_relevant_spec(r: int, f: int, dr: int, df: int, n: nat) -> u64
    decreases n,
{
    if n == 0 {
        0u64
    } else {
        let r2 = r + dr;
        let f2 = f + df;
        if !(0 <= r2 < 8 && 0 <= f2 < 8) {
            0u64
        } else if !(0 <= r2 + dr < 8 && 0 <= f2 + df < 8) {
            0u64
        } else {
            (1u64 << ((r2 * 8 + f2) as u64)) | ray_relevant_spec(r2, f2, dr, df, (n - 1) as nat)
        }
    }
}

/// All relevant-blocker squares of a rook or bishop on `sq`.
pub open spec fn relevant_mask(piece: int, sq: int) -> u64 {
    let r = sq / 8;
    let f = sq % 8;
    (((ray_relevant_spec(r, f, dr_of(piece, 0), df_of(piece, 0), 8) | ray_relevant_spec(
        r,
        f,
        dr_of(piece, 1),
        df_of(piece, 1),
        8,
    )) | ray_relevant_spec(r, f, dr_of(piece, 2), df_of(piece, 2), 8)) | ray_relevant_spec(
        r,
        f,
        dr_of(piece, 3),
        df_of(piece, 3),
        8,
    ))
}

#[derive(Clone, Copy, Debug)]
pub struct MagicEntry {
    pub mask: Bitboard,
    pub magic: u64,
    pub index_bits: u8,
}

/// Where the magic multiply files a blocker set.
pub open spec fn spec_magic_index(entry: MagicEntry, blockers: u64) -> u64 {
    vstd::wrapping::u64_specs::wrapping_mul(blockers & entry.mask.0, entry.magic) >> (64
        - entry.index_bits) as u64
}

/// The index always fits the table.
pub proof fn lemma_magic_index_bounded(entry: MagicEntry, blockers: u64)
    requires
        0 < entry.index_bits <= 20,
    ensures
        spec_magic_index(entry, blockers) < (1u64 << entry.index_bits as u64),
        (1u64 << entry.index_bits as u64) <= 0x200000u64,
{
    let h = vstd::wrapping::u64_specs::wrapping_mul(blockers & entry.mask.0, entry.magic);
    let bits = entry.index_bits;
    assert(0 < bits <= 20 ==> (h >> (64 - bits) as u64) < (1u64 << bits as u64) && (1u64 << bits
        as u64) <= 0x200000u64) by (bit_vector);
}

/// Table lookups index by the masked blockers alone.
#[inline(always)]
pub fn magic_index(entry: MagicEntry, blockers: Bitboard) -> (r: usize)
    requires
        0 < entry.index_bits <= 20,
    ensures
        r == spec_magic_index(entry, blockers.0),
        r < (1u64 << entry.index_bits as u64),
        r < 0x200000,
    {
    proof {
        lemma_magic_index_bounded(entry, blockers.0);
    }
    let relevant_blockers = blockers.0 & entry.mask.0;
    let hash = relevant_blockers.wrapping_mul(entry.magic);
    (hash >> (64u64 - (entry.index_bits as u64))) as usize
}

/// A filled table answers every blocker subset of the mask with the true
/// attack set.
pub open spec fn table_good(piece: int, sq: int, entry: MagicEntry, table: Seq<Bitboard>) -> bool {
    forall|b: u64|
        b & entry.mask.0 == b ==> table[#[trigger] spec_magic_index(entry, b) as int].0
            == slider_attacks(piece, sq, b)
}


/// The (rank, file) steps of the four rays of a rook or bishop.
pub fn get_rays_for_piece(piece: crate::moves::Piece) -> (r: [[i32; 2]; 4])
    requires
        piece == 1 || piece == 3,
    ensures
        forall|d: int|
            0 <= d < 4 ==> #[trigger] r[d][0] == dr_of(piece as int, d) && r[d][1] == df_of(
                piece as int,
                d,
            ),
        forall|d: int| 0 <= d < 4 ==> -1 <= #[trigger] r[d][0] <= 1 && -1 <= r[d][1] <= 1,
{
    if piece == 1 {
        [[0, 1], [0, -1], [1, 0], [-1, 0]]
    } else {
        [[1, 1], [1, -1], [-1, 1], [-1, -1]]
    }
}

/// Walk one ray, collecting every square up to and including the first
/// blocker.
fn ray_plays(r: i32, f: i32, dr: i32, df: i32, occ: u64, n: u32) -> (res: u64)
    requires
        -8 <= r <= 8,
        -8 <= f <= 8,
        -1 <= dr <= 1,
        -1 <= df <= 1,
        n <= 8,
    ensures
        res == ray_plays_spec(r as int, f as int, dr as int, df as int, occ, n as nat),
    decreases n,
{
    if n == 0 {
        return 0;
    }
    let r2 = r + dr;
    let f2 = f + df;
    if !(0 <= r2 && r2 < 8 && 0 <= f2 && f2 < 8) {
        return 0;
    }
    let sq2 = (r2 * 8 + f2) as u64;
    let rest: u64 = if (occ >> sq2) & 1 == 1 {
        0
    } else {
        ray_plays(r2, f2, dr, df, occ, n - 1)
    };
    (1u64 << sq2) | rest
}

/// Walk one ray, collecting its interior squares only.
fn ray_relevant(r: i32, f: i32, dr: i32, df: i32, n: u32) -> (res: u64)
    requires
        -8 <= r <= 8,
        -8 <= f <= 8,
        -1 <= dr <= 1,
        -1 <= df <= 1,
        n <= 8,
    ensures
        res == ray_relevant_spec(r as int, f as int, dr as int, df as int, n as nat),
    decreases n,
{
    if n == 0 {
        return 0;
    }
    let r2 = r + dr;
    let f2 = f + df;
    if !(0 <= r2 && r2 < 8 && 0 <= f2 && f2 < 8) {
        return 0;
    }
    if !(0 <= r2 + dr && r2 + dr < 8 && 0 <= f2 + df && f2 + df < 8) {
        return 0;
    }
    let sq2 = (r2 * 8 + f2) as u64;
    (1u64 << sq2) | ray_relevant(r2, f2, dr, df, n - 1)
}

/// The attack set of a rook or bishop, by walking its four rays.
pub fn slider_plays_for_blockers(square: Square, piece: crate::moves::Piece, blockers: Bitboard) -> (
    res: Bitboard)
    requires
        square < 64,
        piece == 1 || piece == 3,
    ensures
        res.0 == slider_attacks(piece as int, square as int, blockers.0),
{
    let rays = get_rays_for_piece(piece);
    let r = (square / 8) as i32;
    let f = (square % 8) as i32;
    let p0 = ray_plays(r, f, rays[0][0], rays[0][1], blockers.0, 8);
    let p1 = ray_plays(r, f, rays[1][0], rays[1][1], blockers.0, 8);
    let p2 = ray_plays(r, f, rays[2][0], rays[2][1], blockers.0, 8);
    let p3 = ray_plays(r, f, rays[3][0], rays[3][1], blockers.0, 8);
    Bitboard(((p0 | p1) | p2) | p3)
}

/// The relevant-blocker mask of a rook or bishop on a square.
pub fn relevant_slider_blockers(square: Square, piece: crate::moves::Piece) -> (res: Bitboard)
    requires
        square < 64,
        piece == 1 || piece == 3,
    ensures
        res.0 == relevant_mask(piece as int, square as int),
{
    let rays = get_rays_for_piece(piece);
    let r = (square / 8) as i32;
    let f = (square % 8) as i32;
    let p0 = ray_relevant(r, f, rays[0][0], rays[0][1], 8);
    let p1 = ray_relevant(r, f, rays[1][0], rays[1][1], 8);
    let p2 = ray_relevant(r, f, rays[2][0], rays[2][1], 8);
    let p3 = ray_relevant(r, f, rays[3][0], rays[3][1], 8);
    Bitboard(((p0 | p1) | p2) | p3)
}


/// Two distinct blocker subsets of the mask land in one slot with different
/// attack sets: the only way a magic candidate is rejected.
pub open spec fn magic_collision(piece: int, sq: int, entry: MagicEntry) -> bool {
    exists|b1: u64, b2: u64|
        #![trigger spec_magic_index(entry, b1), spec_magic_index(entry, b2)]
        b1 & entry.mask.0 == b1 && b2 & entry.mask.0 == b2 && b1 != b2 && spec_magic_index(
            entry,
            b1,
        ) == spec_magic_index(entry, b2) && slider_attacks(piece, sq, b1) != slider_attacks(
            piece,
            sq,
            b2,
        )
}

/// Every filled slot is owned by the blocker subset whose attacks it holds.
pub open spec fn slots_owned(
    piece: int,
    sq: int,
    entry: MagicEntry,
    filled: Seq<bool>,
    table: Seq<Bitboard>,
    owners: Seq<u64>,
) -> bool {
    forall|i: int|
        0 <= i < filled.len() && #[trigger] filled[i] ==> owners[i] & entry.mask.0 == owners[i]
            && spec_magic_index(entry, owners[i]) == i && table[i].0 == slider_attacks(
            piece,
            sq,
            owners[i],
        )
}

/// Fill every entry the blocker subsets of `partial | rest` (those that
/// contain all of `partial`) hash to. Fails only when two subsets collide on
/// distinct attack sets.
fn fill_table(
    piece: crate::moves::Piece,
    square: Square,
    entry: MagicEntry,
    rest: u64,
    partial: u64,
    table: &mut Vec<Bitboard>,
    filled: &mut Vec<bool>,
    owners: &mut Vec<u64>,
) -> (ok: bool)
    requires
        piece == 1 || piece == 3,
        square < 64,
        0 < entry.index_bits <= 20,
        old(table)@.len() == (1u64 << entry.index_bits as u64),
        old(filled)@.len() == old(table)@.len(),
        old(owners)@.len() == old(table)@.len(),
        rest & entry.mask.0 == rest,
        partial & entry.mask.0 == partial,
        rest & partial == 0,
        slots_owned(piece as int, square as int, entry, old(filled)@, old(table)@, old(owners)@),
    ensures
        final(table)@.len() == old(table)@.len(),
        final(filled)@.len() == old(filled)@.len(),
        final(owners)@.len() == old(owners)@.len(),
        slots_owned(piece as int, square as int, entry, final(filled)@, final(table)@, final(owners)@),
        forall|i: int|
            0 <= i < final(filled)@.len() && old(filled)@[i] ==> final(filled)@[i] && final(table)@[i] == old(
                table,
            )@[i],
        ok ==> forall|b: u64|
            (b & (partial | rest) == b && b & partial == partial) ==> final(filled)@[#[trigger]
            spec_magic_index(entry, b) as int] && final(table)@[spec_magic_index(entry, b) as int].0
                == slider_attacks(piece as int, square as int, b),
        !ok ==> magic_collision(piece as int, square as int, entry),
    decreases rest,
{
    if rest == 0 {
        let plays = slider_plays_for_blockers(square, piece, Bitboard(partial));
        let idx = magic_index(entry, Bitboard(partial));
        proof {
            assert(forall|b: u64| (b & (partial | 0) == b && b & partial == partial) ==> b
                == partial) by (bit_vector);
        }
        if filled[idx] {
            if table[idx].0 == plays.0 {
                return true;
            }
            proof {
                let owner = owners@[idx as int];
                assert(slider_attacks(piece as int, square as int, owner) != slider_attacks(
                    piece as int,
                    square as int,
                    partial,
                ));
                assert(spec_magic_index(entry, owner) == spec_magic_index(entry, partial));
                assert(owner != partial);
                assert(magic_collision(piece as int, square as int, entry));
            }
            return false;
        }
        table[idx] = plays;
        filled[idx] = true;
        owners[idx] = partial;
        true
    } else {
        let lc = rest & (rest - 1);
        let lb = rest ^ lc;
        proof {
            let mask = entry.mask.0;
            assert(lc < rest && (lb | lc) == rest && (lb & lc) == 0 && (lb & partial) == 0 && (lc
                & mask) == lc && ((partial | lb) & mask) == (partial | lb) && (lc & (partial | lb))
                == 0 && (lc & partial) == 0 && lb != 0 && (lb & ((lb - 1) as u64)) == 0) by (bit_vector)
                requires
                    rest != 0,
                    lc == rest & ((rest - 1) as u64),
                    lb == rest ^ lc,
                    rest & mask == rest,
                    partial & mask == partial,
                    rest & partial == 0,
            ;
        }
        let ok1 = fill_table(piece, square, entry, lc, partial, table, filled, owners);
        if !ok1 {
            return false;
        }
        let ghost table_mid = table@;
        let ghost filled_mid = filled@;
        let ok2 = fill_table(piece, square, entry, lc, partial | lb, table, filled, owners);
        if !ok2 {
            return false;
        }
        proof {
            assert forall|b: u64|
                (b & (partial | rest) == b && b & partial == partial) implies filled@[#[trigger]
            spec_magic_index(entry, b) as int] && table@[spec_magic_index(entry, b) as int].0
                == slider_attacks(piece as int, square as int, b) by {
                lemma_magic_index_bounded(entry, b);
                let idx = spec_magic_index(entry, b) as int;
                if b & lb == 0 {
                    assert(b & (partial | lc) == b) by (bit_vector)
                        requires
                            b & (partial | rest) == b,
                            b & lb == 0,
                            (lb | lc) == rest,
                    ;
                    assert(filled_mid[idx] && table_mid[idx].0 == slider_attacks(
                        piece as int,
                        square as int,
                        b,
                    ));
                    assert(filled@[idx] && table@[idx] == table_mid[idx]);
                } else {
                    assert(b & ((partial | lb) | lc) == b && b & (partial | lb) == (partial
                        | lb)) by (bit_vector)
                        requires
                            b & (partial | rest) == b,
                            b & partial == partial,
                            b & lb != 0,
                            (lb | lc) == rest,
                            (lb & lc) == 0,
                            (lb & partial) == 0,
                            lb != 0,
                            (lb & ((lb - 1) as u64)) == 0,
                    ;
                    assert(filled@[idx] && table@[idx].0 == slider_attacks(
                        piece as int,
                        square as int,
                        b,
                    ));
                }
            }
        }
        true
    }
}

/// Try to build the whole attack table for one magic candidate.
pub fn try_make_table(piece: crate::moves::Piece, square: Square, entry_candidate: MagicEntry) -> (r:
    Option<Vec<Bitboard>>)
    requires
        piece == 1 || piece == 3,
        square < 64,
        0 < entry_candidate.index_bits <= 20,
    ensures
        r is Some ==> table_good(piece as int, square as int, entry_candidate, r->0@) && r->0@.len()
            == (1u64 << entry_candidate.index_bits as u64),
        r is None ==> magic_collision(piece as int, square as int, entry_candidate),
{
    let size = 1usize << (entry_candidate.index_bits as usize);
    proof {
        let b = entry_candidate.index_bits;
        assert(0 < b <= 20 ==> (1usize << b as usize) == (1u64 << b as u64) && (1u64 << b as u64)
            <= 0x200000u64) by (bit_vector);
    }
    let mut possible_table: Vec<Bitboard> = Vec::new();
    let mut filled: Vec<bool> = Vec::new();
    let mut owners: Vec<u64> = Vec::new();
    let mut i: usize = 0;
    while i < size
        invariant
            possible_table@.len() == i,
            filled@.len() == i,
            owners@.len() == i,
            i <= size,
            forall|j: int| 0 <= j < i ==> !filled@[j],
        decreases size - i,
    {
        possible_table.push(Bitboard(0));
        filled.push(false);
        owners.push(0);
        i = i + 1;
    }
    let mask = entry_candidate.mask.0;
    proof {
        assert((mask & mask) == mask && (0u64 & mask) == 0 && (mask & 0u64) == 0) by (bit_vector);
    }
    let ok = fill_table(
        piece,
        square,
        entry_candidate,
        mask,
        0,
        &mut possible_table,
        &mut filled,
        &mut owners,
    );
    if ok {
        proof {
            assert forall|b: u64| b & entry_candidate.mask.0 == b implies possible_table@[
            #[trigger] spec_magic_index(entry_candidate, b) as int].0 == slider_attacks(
                piece as int,
                square as int,
                b,
            ) by {
                assert(b & (0u64 | mask) == b && b & 0u64 == 0u64) by (bit_vector)
                    requires
                        b & mask == b,
                ;
            }
        }
        Some(possible_table)
    } else {
        None
    }
}

/// Search for a working magic by drawing sparse random multipliers.
pub fn find_magic_entry(piece: crate::moves::Piece, square: Square) -> (r: Option<
    (MagicEntry, Vec<Bitboard>)>)
    requires
        piece == 1 || piece == 3,
        square < 64,
    ensures
        r matches Some(p) ==> {
            &&& table_good(piece as int, square as int, p.0, p.1@)
            &&& p.0.mask.0 == relevant_mask(piece as int, square as int)
            &&& 0 < p.0.index_bits <= 20
            &&& p.1@.len() == (1u64 << p.0.index_bits as u64)
        },
{
    let relevant_mask_bb = relevant_slider_blockers(square, piece);
    let bits = crate::bits::popcount64(relevant_mask_bb.0) + 3;
    if bits > 20 {
        return None;
    }
    let mut tries: u32 = 0;
    while tries < 100000000
        invariant
            piece == 1 || piece == 3,
            square < 64,
            0 < bits <= 20,
            relevant_mask_bb.0 == relevant_mask(piece as int, square as int),
        decreases 100000000 - tries,
    {
        let magic_candidate = rand::random::<u64>() & rand::random::<u64>();
        let magic_entry_candidate = MagicEntry {
            mask: relevant_mask_bb,
            magic: magic_candidate,
            index_bits: bits as u8,
        };
        if let Some(table) = try_make_table(piece, square, magic_entry_candidate) {
            return Some((magic_entry_candidate, table));
        }
        tries = tries + 1;
    }
    None
}


/// Blockers outside the relevant mask cannot change a ray: every square the
/// walk tests, except the edge square where it stops anyway, lies in the
/// mask.
pub proof fn lemma_ray_plays_masked(r: int, f: int, dr: int, df: int, occ: u64, mask: u64, n: nat)
    requires
        forall|j: u64|
            j < 64 && #[trigger] bit64(ray_relevant_spec(r, f, dr, df, n), j) ==> bit64(mask, j),
    ensures
        ray_plays_spec(r, f, dr, df, occ & mask, n) == ray_plays_spec(r, f, dr, df, occ, n),
    decreases n,
{
    if n == 0 {
    } else {
        let r2 = r + dr;
        let f2 = f + df;
        if !(0 <= r2 < 8 && 0 <= f2 < 8) {
        } else {
            let sq2 = (r2 * 8 + f2) as u64;
            let rel = ray_relevant_spec(r, f, dr, df, n);
            let rel_inner = ray_relevant_spec(r2, f2, dr, df, (n - 1) as nat);
            if 0 <= r2 + dr < 8 && 0 <= f2 + df < 8 {
                assert(rel == (1u64 << sq2) | rel_inner);
                assert(bit64(rel, sq2)) by {
                    crate::bits::lemma_bit_or(1u64 << sq2, rel_inner, sq2);
                    crate::bits::lemma_bit_single(sq2, sq2);
                }
                assert(bit64(occ & mask, sq2) == bit64(occ, sq2)) by {
                    crate::bits::lemma_bit_and(occ, mask, sq2);
                }
                assert forall|j: u64| j < 64 && #[trigger] bit64(rel_inner, j) implies bit64(
                    mask,
                    j,
                ) by {
                    crate::bits::lemma_bit_or(1u64 << sq2, rel_inner, j);
                }
                lemma_ray_plays_masked(r2, f2, dr, df, occ, mask, (n - 1) as nat);
            } else {
                // The walk stops at the edge regardless of the blocker bit.
                assert forall|j: u64|
                    j < 64 && #[trigger] bit64(ray_relevant_spec(r2, f2, dr, df, (n - 1) as nat), j)
                    implies bit64(mask, j) by {
                }
                lemma_ray_plays_masked(r2, f2, dr, df, occ, mask, (n - 1) as nat);
                assert(ray_plays_spec(r2, f2, dr, df, occ, (n - 1) as nat) == 0);
                assert(ray_plays_spec(r2, f2, dr, df, occ & mask, (n - 1) as nat) == 0);
            }
        }
    }
}

/// Restricting the blockers to the relevant mask leaves the attack set
/// unchanged.
pub proof fn lemma_slider_attacks_masked(piece: int, sq: int, occ: u64)
    requires
        0 <= sq < 64,
        piece == 1 || piece == 3,
    ensures
        slider_attacks(piece, sq, occ & relevant_mask(piece, sq)) == slider_attacks(
            piece,
            sq,
            occ,
        ),
{
    let r = sq / 8;
    let f = sq % 8;
    let mask = relevant_mask(piece, sq);
    let rel0 = ray_relevant_spec(r, f, dr_of(piece, 0), df_of(piece, 0), 8);
    let rel1 = ray_relevant_spec(r, f, dr_of(piece, 1), df_of(piece, 1), 8);
    let rel2 = ray_relevant_spec(r, f, dr_of(piece, 2), df_of(piece, 2), 8);
    let rel3 = ray_relevant_spec(r, f, dr_of(piece, 3), df_of(piece, 3), 8);
    assert forall|j: u64| j < 64 && #[trigger] bit64(rel0, j) implies bit64(mask, j) by {
        crate::bits::lemma_bit_or(((rel0 | rel1) | rel2), rel3, j);
        crate::bits::lemma_bit_or((rel0 | rel1), rel2, j);
        crate::bits::lemma_bit_or(rel0, rel1, j);
    }
    assert forall|j: u64| j < 64 && #[trigger] bit64(rel1, j) implies bit64(mask, j) by {
        crate::bits::lemma_bit_or(((rel0 | rel1) | rel2), rel3, j);
        crate::bits::lemma_bit_or((rel0 | rel1), rel2, j);
        crate::bits::lemma_bit_or(rel0, rel1, j);
    }
    assert forall|j: u64| j < 64 && #[trigger] bit64(rel2, j) implies bit64(mask, j) by {
        crate::bits::lemma_bit_or(((rel0 | rel1) | rel2), rel3, j);
        crate::bits::lemma_bit_or((rel0 | rel1), rel2, j);
    }
    assert forall|j: u64| j < 64 && #[trigger] bit64(rel3, j) implies bit64(mask, j) by {
        crate::bits::lemma_bit_or(((rel0 | rel1) | rel2), rel3, j);
    }
    lemma_ray_plays_masked(r, f, dr_of(piece, 0), df_of(piece, 0), occ, mask, 8);
    lemma_ray_plays_masked(r, f, dr_of(piece, 1), df_of(piece, 1), occ, mask, 8);
    lemma_ray_plays_masked(r, f, dr_of(piece, 2), df_of(piece, 2), occ, mask, 8);
    lemma_ray_plays_masked(r, f, dr_of(piece, 3), df_of(piece, 3), occ, mask, 8);
}

impl Bitboard {
    /// Enumerate the non-empty subsets of this bit set.
    pub fn iter_all_subsets(&self) -> (r: BitSubset)
        ensures
            r.set == *self,
            r.subset.0 == 0,
    {
        BitSubset::new(*self)
    }
}

/// Enumerator of the subsets of a bit set by the carry-rippler step; after
/// the empty subset it yields every other subset once and then stops.
pub struct BitSubset {
    pub set: Bitboard,
    pub subset: Bitboard,
}

/// The carry-rippler step yields the numerically smallest subset of the set
/// above the previous one, and wraps to empty after the full set.
proof fn lemma_carry_rippler_step(prev: u64, set: u64)
    by (bit_vector)
    requires
        prev & set == prev,
    ensures
        (vstd::wrapping::u64_specs::wrapping_sub(prev, set) & set) & set == (
        vstd::wrapping::u64_specs::wrapping_sub(prev, set) & set),
        prev == set ==> (vstd::wrapping::u64_specs::wrapping_sub(prev, set) & set) == 0,
        prev != set ==> (vstd::wrapping::u64_specs::wrapping_sub(prev, set) & set) > prev,
        forall|x: u64|
            ((#[trigger] (x & set)) == x && x > prev) ==> x
                >= (vstd::wrapping::u64_specs::wrapping_sub(prev, set) & set),
{
}

impl BitSubset {
    pub fn new(set: Bitboard) -> (r: BitSubset)
        ensures
            r.set == set,
            r.subset.0 == 0,
    {
        BitSubset { set, subset: Bitboard(0) }
    }

    /// One carry-rippler step: the next subset is exactly
    /// `(subset - set) & set`, which is the numerically smallest subset of
    /// the set above the previous one; the walk therefore yields each
    /// non-empty subset exactly once, in increasing order, and stops after
    /// the full set wraps to the empty one.
    pub fn next(&mut self) -> (r: Option<Bitboard>)
        requires
            old(self).subset.0 & old(self).set.0 == old(self).subset.0,
        ensures
            final(self).set == old(self).set,
            final(self).subset.0 == vstd::wrapping::u64_specs::wrapping_sub(
                old(self).subset.0,
                old(self).set.0,
            ) & old(self).set.0,
            r is None <==> old(self).subset.0 == old(self).set.0,
            match r {
                None => final(self).subset.0 == 0,
                Some(b) => b == final(self).subset && (b.0 & old(self).set.0) == b.0 && b.0 != 0
                    && b.0 > old(self).subset.0 && (forall|x: u64|
                    ((#[trigger] (x & old(self).set.0)) == x && x > old(self).subset.0) ==> x
                        >= b.0),
            },
    {
        proof {
            lemma_carry_rippler_step(self.subset.0, self.set.0);
        }
        let stepped = self.subset.0.wrapping_sub(self.set.0) & self.set.0;
        self.subset = Bitboard(stepped);
        if stepped == 0 {
            None
        } else {
            Some(self.subset)
        }
    }
}

} // verus!
