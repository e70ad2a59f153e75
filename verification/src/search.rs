//! Iterative-deepening negamax alpha-beta search with quiescence, null-move
//! pruning, late-move reduction, killer and history ordering and the shared
//! transposition table. Every make is paired with an unmake, and the search
//! returns its position bit-exactly unchanged.

use vstd::prelude::*;
use crate::moves::{Move, MoveList, Piece, mv_from, mv_to, mv_moving, mv_captured, mv_is_capture};
use crate::gamestate::{GameState, Side, wf, hashed, evaled, has_room, move_ok, states_equal,
    lemma_make_then_undo_ok, lemma_make_unmake};
use crate::movegen::{all_moves_ok, lemma_move_ok_congruence, lemma_move_legal_congruence,
    lemma_state_facts_congruence, lemma_is_make_congruence, lemma_move_ok_bounds};
use crate::lockless::{LockLessTransTable, LockLessValue, LockLessFlag};
use crate::tables::Tables;

verus! {

pub type Eval = i64;

pub const INFINITY: Eval = 30000;

pub const AB_BOUND: Eval = 27000;

pub const MAX_DEPTH: usize = 50;

pub const ISMATE: Eval = 26950;

pub const MAX_SEARCH_DEPTH: u8 = 30;

pub const MAX_QUIESCENT_DEPTH: u8 = 10;

pub const MAX_CHECK_EXTENSIONS: u8 = 8;

/// An opaque timestamp.
#[verifier::external_type_specification]
#[verifier::external_body]
pub struct ExInstant(std::time::Instant);

/// Relies on std::time::Instant::now: a timestamp of the present moment.
/// The clock decides the value, so nothing is promised of it.
#[verifier::external_body]
pub fn instant_now() -> (r: std::time::Instant) {
    std::time::Instant::now()
}

/// Relies on std::time::Instant::elapsed: the time since the timestamp.
/// The clock decides the value, so nothing is promised of it.
#[verifier::external_body]
fn instant_elapsed(start: &std::time::Instant) -> (r: std::time::Duration) {
    start.elapsed()
}

/// Relies on std::time::Duration::as_millis: the span in whole
/// milliseconds.
#[verifier::external_body]
fn duration_as_millis(d: &std::time::Duration) -> (r: u128) {
    d.as_millis()
}

/// Milliseconds since the timestamp, saturated into 64 bits.
pub fn elapsed_millis(start: &std::time::Instant) -> (r: u64) {
    let d = instant_elapsed(start);
    let ms = duration_as_millis(&d);
    if ms > 0xFFFFFFFFFFFFFFFF {
        0xFFFFFFFFFFFFFFFF
    } else {
        ms as u64
    }
}

/// The two most recent quiet cutoff moves per search depth.
pub struct KillerTable {
    pub slots: [[Move; 2]; 128],
}

impl KillerTable {
    pub fn new() -> (r: KillerTable) {
        KillerTable { slots: [[Move(0); 2]; 128] }
    }

    /// Remember a quiet move that caused a cutoff at this depth: it takes
    /// the first slot and the previous first killer moves to the second,
    /// unless it already is the first.
    pub fn store_killer(&mut self, depth: u8, mv: Move)
        requires
            depth < 128,
        ensures
            final(self).slots@ == (if old(self).slots[depth as int][0].0 == mv.0 {
                old(self).slots@
            } else {
                old(self).slots@.update(
                    depth as int,
                    [mv, old(self).slots[depth as int][0]],
                )
            }),
    {
        if self.slots[depth as usize][0].0 != mv.0 {
            let mut row = self.slots[depth as usize];
            row[1] = row[0];
            row[0] = mv;
            proof {
                broadcast use vstd::array::axiom_array_ext_equal;

                assert(row =~= [mv, old(self).slots[depth as int][0]]);
            }
            self.slots[depth as usize] = row;
        } else {
            proof {
                broadcast use vstd::array::axiom_array_ext_equal;

                assert(self.slots[depth as int][0] =~= mv);
                assert(self.slots@ =~= old(self).slots@);
            }
        }
    }

    /// Which killer slot holds the move at this depth, if any.
    pub fn is_killer(&self, depth: u8, mv: Move) -> (r: Option<u8>)
        requires
            depth < 128,
        ensures
            r == (if self.slots[depth as int][0].0 == mv.0 {
                Some(0u8)
            } else if self.slots[depth as int][1].0 == mv.0 {
                Some(1u8)
            } else {
                None
            }),
    {
        if self.slots[depth as usize][0].0 == mv.0 {
            return Some(0);
        }
        if self.slots[depth as usize][1].0 == mv.0 {
            return Some(1);
        }
        None
    }
}

/// Per-search bookkeeping: the time budget, the killer and history tables
/// and a node counter.
pub struct SearchInfo {
    pub start_time: std::time::Instant,
    pub max_time_ms: u64,
    pub use_time_limit: bool,
    pub killer_table: KillerTable,
    pub history_table: Vec<u32>,
    pub search_depth: u8,
    pub nodes_searched: u64,
}

impl SearchInfo {
    pub open spec fn wf(self) -> bool {
        self.history_table@.len() == 8192
    }

    pub fn new(max_time_ms: u64, use_time_limit: bool) -> (r: SearchInfo)
        ensures
            r.wf(),
    {
        let mut history_table: Vec<u32> = Vec::new();
        let mut i: usize = 0;
        while i < 8192
            invariant
                history_table@.len() == i,
                i <= 8192,
            decreases 8192 - i,
        {
            history_table.push(0);
            i = i + 1;
        }
        SearchInfo {
            start_time: instant_now(),
            max_time_ms,
            use_time_limit,
            killer_table: KillerTable::new(),
            history_table,
            search_depth: 0,
            nodes_searched: 0,
        }
    }

    /// Whether the budget for this move has run out.
    pub fn time_over(&self) -> bool {
        self.use_time_limit && elapsed_millis(&self.start_time) > self.max_time_ms
    }

    pub fn clear_for_search(&mut self)
        requires
            old(self).wf(),
        ensures
            final(self).wf(),
            final(self).nodes_searched == 0,
    {
        self.nodes_searched = 0;
    }

    /// Nodes searched per second so far.
    pub fn nps(&self) -> u64 {
        let ms = elapsed_millis(&self.start_time);
        if ms == 0 {
            0
        } else {
            let per_ms = self.nodes_searched / ms;
            if per_ms > 0xFFFFFFFFFFFF {
                0xFFFFFFFFFFFF
            } else {
                per_ms * 1000
            }
        }
    }
}

/// Most-valuable-victim / least-valuable-attacker ordering key.
pub open spec fn spec_mvv_lva(victim: int, attacker: int) -> int {
    (if victim == 0 {
        10int
    } else if victim == 1 {
        40int
    } else if victim == 2 {
        20int
    } else if victim == 3 {
        30int
    } else if victim == 4 {
        50int
    } else {
        0int
    }) + (if attacker == 0 {
        5int
    } else if attacker == 1 {
        2int
    } else if attacker == 2 {
        4int
    } else if attacker == 3 {
        3int
    } else if attacker == 4 {
        1int
    } else {
        0int
    })
}

/// The ordering key a move receives: the best-move boost is added by the
/// caller; captures rank by victim and attacker above both killers, killers
/// above every quiet move, and quiet moves by their history counter.
pub open spec fn spec_order_key(
    kt: KillerTable,
    hist: Seq<u32>,
    depth: int,
    side: int,
    m: u32,
) -> int {
    if mv_is_capture(m) {
        MVV_LVA_VALUE + spec_mvv_lva(mv_captured(m) as int, mv_moving(m) as int)
    } else if kt.slots[depth][0].0 == m {
        KILLER_VALUE as int
    } else if kt.slots[depth][1].0 == m {
        SECONDARY_KILLER_VALUE as int
    } else {
        let h = hist[side * 4096 + mv_from(m) * 64 + mv_to(m)] as int;
        if h >= SECONDARY_KILLER_VALUE {
            SECONDARY_KILLER_VALUE - 1
        } else {
            h
        }
    }
}

fn mvv_lva(victim: Piece, attacker: Piece) -> (r: u32)
    requires
        victim < 6,
        attacker < 6,
    ensures
        r <= 55,
        r == spec_mvv_lva(victim as int, attacker as int),
{
    let victim_base: u32 = if victim == 0 {
        10
    } else if victim == 1 {
        40
    } else if victim == 2 {
        20
    } else if victim == 3 {
        30
    } else if victim == 4 {
        50
    } else {
        0
    };
    let attacker_rank: u32 = if attacker == 0 {
        5
    } else if attacker == 1 {
        2
    } else if attacker == 2 {
        4
    } else if attacker == 3 {
        3
    } else if attacker == 4 {
        1
    } else {
        0
    };
    victim_base + attacker_rank
}

pub const MVV_LVA_VALUE: u32 = 4294966295;

pub const KILLER_VALUE: u32 = 4294965295;

pub const SECONDARY_KILLER_VALUE: u32 = 4294964295;

impl MoveList {
    /// Assign each move its ordering key: captures by victim and attacker,
    /// then the killers of this depth, then the history counter.
    pub fn value_moves(&mut self, info: &SearchInfo, depth: u8, side_to_move: Side)
        requires
            info.wf(),
            depth < 128,
            side_to_move < 2,
            old(self).length <= 256,
            forall|i: int|
                0 <= i < old(self).length ==> (mv_is_capture((#[trigger] old(self).moves@[i]).0)
                    ==> mv_captured(old(self).moves@[i].0) < 6 && mv_moving(old(self).moves@[i].0)
                    < 6),
        ensures
            final(self).moves@ == old(self).moves@,
            final(self).length == old(self).length,
            forall|i: int|
                0 <= i < final(self).length ==> final(self).values@[i] == spec_order_key(
                    info.killer_table,
                    info.history_table@,
                    depth as int,
                    side_to_move as int,
                    (#[trigger] final(self).moves@[i]).0,
                ),
    {
        let mut i: usize = 0;
        while i < self.length
            invariant
                info.wf(),
                depth < 128,
                side_to_move < 2,
                self.length <= 256,
                i <= self.length,
                self.moves@ == old(self).moves@,
                self.length == old(self).length,
                forall|k: int|
                    0 <= k < self.length ==> (mv_is_capture((#[trigger] self.moves@[k]).0)
                        ==> mv_captured(self.moves@[k].0) < 6 && mv_moving(self.moves@[k].0) < 6),
                forall|k: int|
                    0 <= k < i ==> self.values@[k] == spec_order_key(
                        info.killer_table,
                        info.history_table@,
                        depth as int,
                        side_to_move as int,
                        (#[trigger] self.moves@[k]).0,
                    ),
            decreases self.length - i,
        {
            let mv = self.moves[i];
            proof {
                crate::moves::lemma_field_ranges(mv.0);
            }
            let key: u32 = if mv.is_capture() {
                MVV_LVA_VALUE + mvv_lva(mv.captured_piece(), mv.moving_piece())
            } else if let Some(slot) = info.killer_table.is_killer(depth, mv) {
                if slot == 0 {
                    KILLER_VALUE
                } else {
                    SECONDARY_KILLER_VALUE
                }
            } else {
                let h = info.history_table[side_to_move * 4096 + mv.from() * 64 + mv.to()];
                if h >= SECONDARY_KILLER_VALUE {
                    SECONDARY_KILLER_VALUE - 1
                } else {
                    h
                }
            };
            self.values[i] = key;
            i = i + 1;
        }
    }

    /// Capture-only ordering keys, for quiescence.
    pub fn value_moves_mvv_lva(&mut self)
        requires
            old(self).length <= 256,
            forall|i: int|
                0 <= i < old(self).length ==> (mv_is_capture((#[trigger] old(self).moves@[i]).0)
                    ==> mv_captured(old(self).moves@[i].0) < 6 && mv_moving(old(self).moves@[i].0)
                    < 6),
        ensures
            final(self).moves@ == old(self).moves@,
            final(self).length == old(self).length,
    {
        let mut i: usize = 0;
        while i < self.length
            invariant
                self.length <= 256,
                i <= self.length,
                self.moves@ == old(self).moves@,
                self.length == old(self).length,
                forall|k: int|
                    0 <= k < self.length ==> (mv_is_capture((#[trigger] self.moves@[k]).0)
                        ==> mv_captured(self.moves@[k].0) < 6 && mv_moving(self.moves@[k].0) < 6),
            decreases self.length - i,
        {
            let mv = self.moves[i];
            if mv.is_capture() {
                self.values[i] = MVV_LVA_VALUE + mvv_lva(mv.captured_piece(), mv.moving_piece());
            }
            i = i + 1;
        }
    }

    /// Exchange two entries together with their keys.
    pub fn swap(&mut self, index1: usize, index2: usize)
        requires
            index1 < 256,
            index2 < 256,
        ensures
            final(self).moves@ == old(self).moves@.update(index1 as int, old(self).moves@[index2 as int]).update(
                index2 as int,
                old(self).moves@[index1 as int],
            ),
            final(self).length == old(self).length,
    {
        let temp_value = self.values[index1];
        let temp_move = self.moves[index1];
        self.values[index1] = self.values[index2];
        self.moves[index1] = self.moves[index2];
        self.values[index2] = temp_value;
        self.moves[index2] = temp_move;
    }

    /// Selection step: bring the best-keyed remaining move to `start_index`.
    /// The list stays a rearrangement of itself.
    pub fn highest_next_to_index(&mut self, start_index: usize)
        requires
            old(self).length <= 256,
            start_index < old(self).length,
        ensures
            final(self).length == old(self).length,
            forall|k: int|
                0 <= k < final(self).length ==> old(self).moves@.subrange(
                    0,
                    old(self).length as int,
                ).contains(#[trigger] final(self).moves@[k]),
    {
        let mut index = start_index + 1;
        let ghost window = old(self).moves@.subrange(0, old(self).length as int);
        proof {
            assert forall|k: int|
                0 <= k < self.length implies window.contains(#[trigger] self.moves@[k]) by {
                assert(window[k] == self.moves@[k]);
            }
        }
        while index < self.length
            invariant
                self.length == old(self).length,
                self.length <= 256,
                start_index < self.length,
                start_index < index,
                window == old(self).moves@.subrange(0, old(self).length as int),
                forall|k: int|
                    0 <= k < self.length ==> window.contains(#[trigger] self.moves@[k]),
            decreases self.length - index,
        {
            if self.values[index] > self.values[start_index] {
                let ghost before = self.moves@;
                self.swap(start_index, index);
                proof {
                    assert forall|k: int|
                        0 <= k < self.length implies window.contains(#[trigger] self.moves@[k]) by {
                        let src = if k == start_index {
                            index as int
                        } else if k == index {
                            start_index as int
                        } else {
                            k
                        };
                        assert(self.moves@[k] == before[src]);
                        assert(window.contains(before[src]));
                    }
                }
            }
            index = index + 1;
        }
    }
}


/// An earlier position in the history had this position's hash.
pub open spec fn spec_has_repetition(s: GameState) -> bool {
    exists|i: int| 0 <= i < s.history@.len() && (#[trigger] s.history@[i]).zobrist == s.zobrist
}

/// Quiescence: stand on the static evaluation and explore captures only,
/// to a bounded depth. Returns the position bit-exactly unchanged; at the
/// repetition or half-move-clock boundary the score is exactly zero.
pub fn quiescent_search(
    state: &mut GameState,
    alpha: Eval,
    beta: Eval,
    depth: u8,
    info: &mut SearchInfo,
    t: &Tables,
) -> (r: Eval)
    requires
        t.wf(),
        old(info).wf(),
        wf(*old(state)),
        hashed(*old(state), t.zobrist),
        evaled(*old(state), t.params),
        -30000 <= alpha <= 30000,
        -30000 <= beta <= 30000,
        depth <= 10,
        old(state).history@.len() + 2 * depth + 4 < 0x40000000,
    ensures
        states_equal(*final(state), *old(state)),
        final(info).wf(),
        -30000 <= r <= 30000,
        (spec_has_repetition(*old(state)) || old(state).fifty_move_rule >= 100) ==> r == 0,
        (depth == 0 && !spec_has_repetition(*old(state)) && old(state).fifty_move_rule < 100)
            ==> r == crate::eval::spec_static_eval(*old(state), t.params),
        (depth > 0 && !spec_has_repetition(*old(state)) && old(state).fifty_move_rule < 100
            && crate::eval::spec_static_eval(*old(state), t.params) >= beta) ==> r == beta,
        (depth > 0 && !spec_has_repetition(*old(state)) && old(state).fifty_move_rule < 100
            && crate::eval::spec_static_eval(*old(state), t.params) < beta && (forall|m: u32|
            !(#[trigger] crate::movegen::move_legal(*old(state), m)))) ==> r == (if alpha
            < crate::eval::spec_static_eval(*old(state), t.params) {
            crate::eval::spec_static_eval(*old(state), t.params)
        } else {
            alpha as int
        }),
    decreases depth,
{
    let ghost s0 = *state;
    if info.nodes_searched < 0xFFFFFFFFFFFFFFF {
        info.nodes_searched = info.nodes_searched + 1;
    }
    if state.has_repitition() || state.fifty_move_rule >= 100 {
        return 0;
    }
    let stand_pat = state.static_eval(t);
    if depth == 0 {
        return stand_pat;
    }
    let mut cur_alpha = alpha;
    if stand_pat >= beta {
        return beta;
    }
    if cur_alpha < stand_pat {
        cur_alpha = stand_pat;
    }
    let ghost raised_alpha = cur_alpha as int;
    let mut ordered_moves = state.generate_pseudo_legal_moves(t);
    proof {
        assert forall|i: int|
            0 <= i < ordered_moves.length implies (mv_is_capture(
            (#[trigger] ordered_moves.moves@[i]).0,
        ) ==> mv_captured(ordered_moves.moves@[i].0) < 6 && mv_moving(ordered_moves.moves@[i].0)
            < 6) by {
            lemma_move_ok_bounds(s0, ordered_moves.moves@[i].0);
        }
    }
    ordered_moves.value_moves_mvv_lva();
    let ghost window = ordered_moves.moves@.subrange(0, ordered_moves.length as int);
    proof {
        assert forall|k: int|
            0 <= k < ordered_moves.length implies move_ok(
            s0,
            (#[trigger] ordered_moves.moves@[k]).0,
        ) by {
            assert(window[k] == ordered_moves.moves@[k]);
        }
    }
    let mut move_index: usize = 0;
    while move_index < ordered_moves.length
        invariant
            t.wf(),
            info.wf(),
            wf(s0),
            hashed(s0, t.zobrist),
            evaled(s0, t.params),
            has_room(s0),
            s0 == *old(state),
            states_equal(*state, s0),
            !spec_has_repetition(s0),
            s0.fifty_move_rule < 100,
            -30000 <= cur_alpha <= 30000,
            -30000 <= beta <= 30000,
            depth <= 10,
            1 <= depth,
            stand_pat == crate::eval::spec_static_eval(s0, t.params),
            stand_pat < beta,
            raised_alpha == (if alpha < stand_pat {
                stand_pat as int
            } else {
                alpha as int
            }),
            (forall|m: u32| !(#[trigger] crate::movegen::move_legal(s0, m))) ==> cur_alpha as int
                == raised_alpha,
            s0.history@.len() + 2 * depth + 4 < 0x40000000,
            move_index <= ordered_moves.length,
            ordered_moves.length <= 256,
            forall|k: int|
                0 <= k < ordered_moves.length ==> move_ok(
                    s0,
                    (#[trigger] ordered_moves.moves@[k]).0,
                ),
        decreases ordered_moves.length - move_index,
    {
        let ghost pre_order = ordered_moves.moves@.subrange(0, ordered_moves.length as int);
        ordered_moves.highest_next_to_index(move_index);
        proof {
            assert forall|k: int|
                0 <= k < ordered_moves.length implies move_ok(
                s0,
                (#[trigger] ordered_moves.moves@[k]).0,
            ) by {
                assert(pre_order.contains(ordered_moves.moves@[k]));
                let j = choose|j: int|
                    0 <= j < pre_order.len() && pre_order[j] == ordered_moves.moves@[k];
                assert(move_ok(s0, pre_order[j].0));
            }
        }
        let mv = ordered_moves.moves[move_index];
        if !mv.is_capture() {
            move_index = move_index + 1;
            continue ;
        }
        proof {
            lemma_move_ok_congruence(s0, *state, mv.0);
            lemma_state_facts_congruence(*state, s0, t.zobrist, t.params);
        }
        let ghost pre = *state;
        if state.apply_pseudo_legal_move(mv, t) {
            proof {
                lemma_move_legal_congruence(pre, s0, mv.0);
                assert(crate::movegen::move_legal(s0, mv.0));
            }
            let score = match quiescent_search(state, -beta, -cur_alpha, depth - 1, info, t) {
                v => -v,
            };
            let ghost mid = *state;
            proof {
                lemma_is_make_congruence(mid, mid, pre, mv);
                lemma_make_then_undo_ok(pre, mid, mv);
            }
            state.undo_move(t);
            proof {
                lemma_make_unmake(pre, mid, *state, mv, t.params);
            }
            if info.time_over() {
                return cur_alpha;
            }
            if score >= beta {
                return beta;
            }
            if score > cur_alpha {
                cur_alpha = score;
            }
        }
        move_index = move_index + 1;
    }
   
    cur_alpha
}



/// A stored mate score is corrected from distance-to-root to
/// distance-from-here, then held to the score range.
pub open spec fn spec_tt_adjust(v: int, ply: int) -> int {
    let adjusted = if v > ISMATE {
        v - ply
    } else if v < -ISMATE {
        v + ply
    } else {
        v
    };
    if adjusted > 30000 {
        30000int
    } else if adjusted < -30000 {
        -30000int
    } else {
        adjusted
    }
}

/// The depth a node searches after the check extension.
pub open spec fn spec_effective_depth(s: GameState, depth: int, check_extensions: int) -> int {
    if crate::movegen::in_check(s) && check_extensions < 8 {
        depth + 1
    } else {
        depth
    }
}


/// Whether a probed entry cuts the node off before any move is tried: an
/// exact hit at sufficient depth, or a bound that already closes the window.
pub open spec fn spec_tt_cut(
    probed: Option<LockLessValue>,
    eff_depth: int,
    alpha: int,
    beta: int,
    ply: int,
) -> bool {
    match probed {
        None => false,
        Some(e) => {
            let code = crate::lockless::spec_flag_of(e.0);
            let v = spec_tt_adjust(crate::lockless::spec_value_of(e.0), ply);
            &&& crate::lockless::spec_depth_of(e.0) >= eff_depth
            &&& (code == 2 || code == 3 || (code == 0 && v <= alpha) || (code == 1 && v >= beta))
        },
    }
}

/// Whether the node tries a null move before generating its own.
pub open spec fn spec_null_tried(s: GameState, do_null: bool, eff_depth: int, beta: int) -> bool {
    &&& do_null
    &&& eff_depth >= 4
    &&& !crate::movegen::in_check(s)
    &&& crate::eval::spec_phase(s) <= 220
    &&& s.search_ply > 0
    &&& beta < 30000
    &&& beta >= -29999
}

/// Negamax alpha-beta with check extension, transposition-table bounds,
/// null-move pruning and late-move reduction. Returns the position
/// bit-exactly unchanged; at the repetition and half-move-clock boundaries
/// the score is exactly zero and the search prunes there.
#[verifier::rlimit(100)]
pub fn alpha_beta(
    state: &mut GameState,
    alpha: Eval,
    beta: Eval,
    depth: u8,
    info: &mut SearchInfo,
    tt: &mut LockLessTransTable,
    t: &Tables,
    do_null: bool,
    check_extensions: u8,
) -> (r: Eval)
    requires
        t.wf(),
        old(tt).wf(),
        old(info).wf(),
        wf(*old(state)),
        hashed(*old(state), t.zobrist),
        evaled(*old(state), t.params),
        -30000 <= alpha <= 30000,
        -30000 <= beta <= 30000,
        depth <= 70,
        check_extensions <= 8,
        old(state).search_ply + depth + (8 - check_extensions) <= 120,
        old(state).history@.len() + 2 * depth + 2 * (8 - check_extensions) + 24 < 0x40000000,
    ensures
        states_equal(*final(state), *old(state)),
        final(info).wf(),
        final(tt).wf(),
        -30000 <= r <= 30000,
        (depth > 0 && (spec_has_repetition(*old(state)) || old(state).fifty_move_rule >= 100))
            ==> r == 0,
        (depth == 0 && !spec_has_repetition(*old(state)) && old(state).fifty_move_rule < 100
            && crate::eval::spec_static_eval(*old(state), t.params) >= beta) ==> r == beta,
        (depth == 0 && !spec_has_repetition(*old(state)) && old(state).fifty_move_rule < 100
            && crate::eval::spec_static_eval(*old(state), t.params) < beta && (forall|m: u32|
            !(#[trigger] crate::movegen::move_legal(*old(state), m)))) ==> r == (if alpha
            < crate::eval::spec_static_eval(*old(state), t.params) {
            crate::eval::spec_static_eval(*old(state), t.params)
        } else {
            alpha as int
        }),
        ({
            let probed = old(tt).probe_spec(old(state).zobrist);
            let payload = match probed {
                Some(e) => e.0,
                None => 0u64,
            };
            (probed is Some && depth > 0 && !spec_has_repetition(*old(state))
                && old(state).fifty_move_rule < 100 && crate::lockless::spec_flag_of(payload) == 2
                && crate::lockless::spec_depth_of(payload) >= spec_effective_depth(
                *old(state),
                depth as int,
                check_extensions as int,
            )) ==> r == spec_tt_adjust(
                crate::lockless::spec_value_of(payload),
                old(state).search_ply as int,
            )
        }),
        ({
            let probed = old(tt).probe_spec(old(state).zobrist);
            let eff = spec_effective_depth(*old(state), depth as int, check_extensions as int);
            (depth > 0 && !spec_has_repetition(*old(state)) && old(state).fifty_move_rule < 100
                && !spec_tt_cut(
                probed,
                eff,
                alpha as int,
                beta as int,
                old(state).search_ply as int,
            ) && !spec_null_tried(*old(state), do_null, eff, beta as int) && (forall|m: u32|
                !(#[trigger] crate::movegen::move_legal(*old(state), m)))) ==> r == (
            if crate::movegen::in_check(*old(state)) {
                -27000 + old(state).search_ply
            } else {
                0int
            })
        }),
    decreases depth + 9 - check_extensions,
{
    let ghost s0 = *state;
    if info.nodes_searched < 0xFFFFFFFFFFFFFFF {
        info.nodes_searched = info.nodes_searched + 1;
    }
    if depth == 0 {
        return quiescent_search(state, alpha, beta, MAX_QUIESCENT_DEPTH, info, t);
    }
    if state.has_repitition() || state.fifty_move_rule >= 100 {
        return 0;
    }
    let in_check_now = state.is_in_check(t);
    let mut depth_now = depth;
    let mut exts = check_extensions;
    if in_check_now && exts < MAX_CHECK_EXTENSIONS {
        depth_now = depth_now + 1;
        exts = exts + 1;
    }
    let mut alpha = alpha;
    let original_alpha = alpha;
    let mut pvmove = Move(0);
    if let Some(entry) = tt.get(state.zobrist) {
        pvmove = entry.best_move();
        let mut value = entry.value();
        if value > ISMATE {
            value = value - (state.search_ply as i64);
        } else if value < -ISMATE {
            value = value + (state.search_ply as i64);
        }
        if value > 30000 {
            value = 30000;
        }
        if value < -30000 {
            value = -30000;
        }
        if (entry.depth() as u8) >= depth_now {
            match entry.flag() {
                LockLessFlag::Alpha => {
                    if value <= alpha {
                        return alpha;
                    }
                },
                LockLessFlag::Beta => {
                    if value >= beta {
                        return beta;
                    }
                },
                LockLessFlag::Exact => {
                    return value;
                },
            }
        }
    }
    // Null-move pruning.
    if do_null && depth_now >= 4 && !in_check_now && state.phase(t) <= 220 && state.search_ply > 0
        && beta < 30000 && beta >= -29999 {
        let ghost pre_null = *state;
        state.make_null_move(t);
        let null_move_value = match alpha_beta(
            state,
            -beta,
            -beta + 1,
            depth_now - 4,
            info,
            tt,
            t,
            false,
            exts,
        ) {
            v => -v,
        };
        state.undo_null_move(t);
        proof {
            assert(state.history@ =~= pre_null.history@);
            assert(states_equal(*state, pre_null));
        }
        let abs_null = if null_move_value >= 0 {
            null_move_value
        } else {
            -null_move_value
        };
        if null_move_value >= beta && abs_null < ISMATE {
            return beta;
        }
    }
    let mut legals: u32 = 0;
    let mut moves = state.generate_pseudo_legal_moves(t);
    proof {
        assert forall|i: int|
            0 <= i < moves.length implies (mv_is_capture((#[trigger] moves.moves@[i]).0)
            ==> mv_captured(moves.moves@[i].0) < 6 && mv_moving(moves.moves@[i].0) < 6) by {
            lemma_move_ok_bounds(s0, moves.moves@[i].0);
        }
    }
    let side_now = state.side_to_move();
    moves.value_moves(info, if depth_now < 128 {
        depth_now
    } else {
        127
    }, side_now);
    if pvmove.0 != 0 {
        let mut bi: usize = 0;
        while bi < moves.length
            invariant
                moves.length <= 256,
                bi <= moves.length,
                forall|k: int|
                    0 <= k < moves.length ==> move_ok(s0, (#[trigger] moves.moves@[k]).0),
            decreases moves.length - bi,
        {
            if moves.moves[bi].0 == pvmove.0 {
                moves.values[bi] = 4294967295u32;
            }
            bi = bi + 1;
        }
    }
    let mut best_move = Move(0);
    let mut best_value: i64 = -30000;
    let mut move_index: usize = 0;
    while move_index < moves.length
        invariant
            t.wf(),
            info.wf(),
            tt.wf(),
            wf(s0),
            hashed(s0, t.zobrist),
            evaled(s0, t.params),
            has_room(s0),
            s0 == *old(state),
            states_equal(*state, s0),
            !spec_has_repetition(s0),
            s0.fifty_move_rule < 100,
            -30000 <= alpha <= 30000,
            -30000 <= beta <= 30000,
            -30000 <= best_value <= 30000,
            alpha >= original_alpha,
            -30000 <= original_alpha <= 30000,
            1 <= depth_now <= 71,
            exts <= 8,
            depth_now as int + 9 - exts >= 1,
            depth_now as int + 9 - exts <= depth + 9 - check_extensions,
            s0.search_ply + depth_now + (8 - exts) <= 120,
            s0.history@.len() + 2 * depth_now + 2 * (8 - exts) + 24 < 0x40000000,
            move_index <= moves.length,
            moves.length <= 256,
            legals <= 256,
            side_now < 2,
            1 <= depth,
            (forall|m: u32| !(#[trigger] crate::movegen::move_legal(s0, m))) ==> legals == 0,
            ({
                let probed = old(tt).probe_spec(old(state).zobrist);
                let payload = match probed {
                    Some(e) => e.0,
                    None => 0u64,
                };
                !(probed is Some && crate::lockless::spec_flag_of(payload) == 2
                    && crate::lockless::spec_depth_of(payload) >= spec_effective_depth(
                    *old(state),
                    depth as int,
                    check_extensions as int,
                ))
            }),
            forall|k: int|
                0 <= k < moves.length ==> move_ok(s0, (#[trigger] moves.moves@[k]).0),
        decreases moves.length - move_index,
    {
        let ghost pre_order = moves.moves@.subrange(0, moves.length as int);
        moves.highest_next_to_index(move_index);
        proof {
            assert forall|k: int|
                0 <= k < moves.length implies move_ok(s0, (#[trigger] moves.moves@[k]).0) by {
                assert(pre_order.contains(moves.moves@[k]));
                let j = choose|j: int|
                    0 <= j < pre_order.len() && pre_order[j] == moves.moves@[k];
                assert(move_ok(s0, pre_order[j].0));
            }
        }
        let mv = moves.moves[move_index];
        proof {
            lemma_move_ok_congruence(s0, *state, mv.0);
            lemma_state_facts_congruence(*state, s0, t.zobrist, t.params);
        }
        let ghost pre = *state;
        if !state.apply_pseudo_legal_move(mv, t) {
            move_index = move_index + 1;
            continue ;
        }
        proof {
            lemma_move_legal_congruence(pre, s0, mv.0);
            assert(crate::movegen::move_legal(s0, mv.0));
        }
        if legals < 256 {
            legals = legals + 1;
        }
        let is_killer_move = info.killer_table.is_killer(if depth_now < 128 {
            depth_now
        } else {
            127
        }, mv).is_some();
        let value: i64 = if depth_now > 3 && legals > 3 && !mv.is_capture() && !mv.is_promotion()
            && !in_check_now && !is_killer_move {
            let reduction: u8 = if legals > 6 {
                2
            } else {
                1
            };
            let tmp_value = match alpha_beta(
                state,
                -beta,
                -alpha,
                depth_now - 1 - reduction,
                info,
                tt,
                t,
                true,
                exts,
            ) {
                v => -v,
            };
            if tmp_value > alpha {
                match alpha_beta(
                    state,
                    -beta,
                    -alpha,
                    depth_now - 1,
                    info,
                    tt,
                    t,
                    true,
                    exts,
                ) {
                    v => -v,
                }
            } else {
                tmp_value
            }
        } else {
            match alpha_beta(state, -beta, -alpha, depth_now - 1, info, tt, t, true, exts) {
                v => -v,
            }
        };
        let ghost mid = *state;
        proof {
            lemma_make_then_undo_ok(pre, mid, mv);
        }
        state.undo_move(t);
        proof {
            lemma_make_unmake(pre, mid, *state, mv, t.params);
        }
        if info.time_over() {
            return alpha;
        }
        if value > best_value {
            best_value = value;
            best_move = mv;
            if value > alpha {
                if value >= beta {
                    if !mv.is_capture() {
                        info.killer_table.store_killer(if depth_now < 128 {
                            depth_now
                        } else {
                            127
                        }, mv);
                    }
                    let mut beta_store = beta;
                    if beta_store > ISMATE {
                        beta_store = beta_store + (state.search_ply as i64);
                    } else if beta_store < -ISMATE {
                        beta_store = beta_store - (state.search_ply as i64);
                    }
                    if beta_store > 30000 {
                        beta_store = 30000;
                    }
                    if beta_store < -30000 {
                        beta_store = -30000;
                    }
                    if best_move.0 < 0x2000000 && depth_now < 64 {
                        tt.insert(
                            state.zobrist,
                            LockLessValue::new(best_move, LockLessFlag::Beta, beta_store, depth_now),
                        );
                    }
                    return beta;
                }
                alpha = value;
                if !mv.is_capture() {
                    proof {
                        lemma_move_ok_bounds(s0, mv.0);
                    }
                    let hist_index = side_now * 4096 + mv.from() * 64 + mv.to();
                    if hist_index < 8192 {
                        let h = info.history_table[hist_index];
                        if h < 4294000000u32 {
                            info.history_table[hist_index] = h + (depth_now as u32);
                        }
                    }
                }
            }
        }
        move_index = move_index + 1;
    }
    if legals == 0 {
        if in_check_now {
            return -AB_BOUND + (state.search_ply as i64);
        } else {
            return 0;
        }
    }
    // If every move failed low, report the first legal one as best.
    if best_move.0 == 0 {
        let mut idx: usize = 0;
        while idx < moves.length
            invariant
                t.wf(),
                wf(s0),
                hashed(s0, t.zobrist),
                evaled(s0, t.params),
                has_room(s0),
                s0 == *old(state),
                states_equal(*state, s0),
                idx <= moves.length,
                moves.length <= 256,
                1 <= depth,
                ({
                let probed = old(tt).probe_spec(old(state).zobrist);
                let payload = match probed {
                    Some(e) => e.0,
                    None => 0u64,
                };
                !(probed is Some && crate::lockless::spec_flag_of(payload) == 2
                    && crate::lockless::spec_depth_of(payload) >= spec_effective_depth(
                    *old(state),
                    depth as int,
                    check_extensions as int,
                ))
            }),
                forall|k: int|
                    0 <= k < moves.length ==> move_ok(s0, (#[trigger] moves.moves@[k]).0),
            decreases moves.length - idx,
        {
            let mv = moves.moves[idx];
            proof {
                lemma_move_ok_congruence(s0, *state, mv.0);
                lemma_state_facts_congruence(*state, s0, t.zobrist, t.params);
            }
            let ghost pre = *state;
            if state.apply_pseudo_legal_move(mv, t) {
                let ghost mid = *state;
                proof {
                    lemma_make_then_undo_ok(pre, mid, mv);
                }
                state.undo_move(t);
                proof {
                    lemma_make_unmake(pre, mid, *state, mv, t.params);
                }
                best_move = mv;
                break ;
            }
            idx = idx + 1;
        }
    }
    if best_move.0 != 0 && best_move.0 < 0x2000000 && depth_now < 64 {
        if alpha != original_alpha {
            tt.insert(
                state.zobrist,
                LockLessValue::new(best_move, LockLessFlag::Exact, best_value, depth_now),
            );
        } else {
            tt.insert(
                state.zobrist,
                LockLessValue::new(best_move, LockLessFlag::Alpha, best_value, depth_now),
            );
        }
    }
    alpha
}


/// Walk the principal variation out of the transposition table: take the
/// stored best move while it is one of the position's legal moves, apply
/// it, and repeat to a bounded depth.
pub fn extract_pv(state: &GameState, tt: &LockLessTransTable, t: &Tables) -> (r: Vec<Move>)
    requires
        t.wf(),
        tt.wf(),
        wf(*state),
        state.history@.len() < 0x3F000000,
        hashed(*state, t.zobrist),
        evaled(*state, t.params),
    ensures
        r@.len() > 0 ==> crate::movegen::move_legal(*state, r@[0].0),
{
    let mut copy_state = state.clone_state();
    proof {
        lemma_state_facts_congruence(copy_state, *state, t.zobrist, t.params);
    }
    let mut pv: Vec<Move> = Vec::new();
    let mut steps: u8 = 0;
    while steps < 40
        invariant
            t.wf(),
            tt.wf(),
            wf(copy_state),
            hashed(copy_state, t.zobrist),
            evaled(copy_state, t.params),
            copy_state.history@.len() + 40 - steps < 0x3F000100,
            steps <= 40,
            pv@.len() == 0 ==> states_equal(copy_state, *state),
            pv@.len() > 0 ==> crate::movegen::move_legal(*state, pv@[0].0),
        decreases 40 - steps,
    {
        let entry = match tt.get(copy_state.zobrist) {
            None => {
                break ;
            },
            Some(e) => e,
        };
        if (steps as u8) > entry.depth() {
            break ;
        }
        let pvmove = entry.best_move();
        let ghost pre = copy_state;
        let moves = copy_state.generate_pseudo_legal_moves(t);
        let mut found = false;
        let mut i: usize = 0;
        while i < moves.length
            invariant
                moves.length <= 256,
                i <= moves.length,
                all_moves_ok(pre, moves),
                found ==> move_ok(pre, pvmove.0),
            decreases moves.length - i,
        {
            if moves.moves[i].0 == pvmove.0 {
                found = true;
            }
            i = i + 1;
        }
        proof {
            lemma_state_facts_congruence(copy_state, pre, t.zobrist, t.params);
            if found {
                lemma_move_ok_congruence(pre, copy_state, pvmove.0);
            }
        }
        if !found {
            break ;
        }
        let ghost copy_before = copy_state;
        if !copy_state.apply_pseudo_legal_move(pvmove, t) {
            break ;
        }
        proof {
            if pv@.len() == 0 {
                crate::movegen::lemma_move_legal_congruence(copy_before, *state, pvmove.0);
            }
        }
        pv.push(pvmove);
        steps = steps + 1;
    }
    if pv.len() == 0 {
        let ghost copy_before = copy_state;
        let first = copy_state.find_first_legal_move(t);
        if let Some(m) = first {
            proof {
                crate::movegen::lemma_move_legal_congruence(copy_before, *state, m.0);
            }
            pv.push(m);
        }
    }
    pv
}

/// Deepen one ply at a time from `start_depth`, keeping the best move of
/// the deepest completed iteration; stop on the time budget or a forced
/// mate. The position comes back bit-exactly unchanged.
pub fn iterative_deepening(
    state: &mut GameState,
    info: &mut SearchInfo,
    tt: &mut LockLessTransTable,
    max_depth: u8,
    start_depth: u8,
    t: &Tables,
) -> (r: (Move, Eval))
    requires
        t.wf(),
        old(tt).wf(),
        old(info).wf(),
        wf(*old(state)),
        hashed(*old(state), t.zobrist),
        evaled(*old(state), t.params),
        old(state).search_ply == 0,
        old(state).history@.len() < 0x30000000,
        1 <= start_depth,
        max_depth <= 30,
    ensures
        states_equal(*final(state), *old(state)),
        final(info).wf(),
        final(tt).wf(),
        -30000 <= r.1 <= 30000,
        ({
            let mv = r.0;
            mv.0 != 0 ==> crate::movegen::move_legal(*old(state), mv.0)
        }),
{
    let ghost s0 = *state;
    let mut best_move = Move(0);
    let mut best_eval: Eval = -AB_BOUND;
    let mut depth = start_depth;
    while depth <= max_depth
        invariant
            t.wf(),
            tt.wf(),
            info.wf(),
            wf(s0),
            hashed(s0, t.zobrist),
            evaled(s0, t.params),
            has_room(s0),
            s0 == *old(state),
            states_equal(*state, s0),
            s0.search_ply == 0,
            s0.history@.len() < 0x30000000,
            1 <= depth,
            max_depth <= 30,
            -30000 <= best_eval <= 30000,
            best_move.0 != 0 ==> crate::movegen::move_legal(s0, best_move.0),
        decreases max_depth + 1 - depth,
    {
        info.search_depth = depth;
        proof {
            lemma_state_facts_congruence(*state, s0, t.zobrist, t.params);
        }
        let score = alpha_beta(state, -AB_BOUND, AB_BOUND, depth, info, tt, t, true, 0);
        if depth > 2 && info.time_over() {
            break ;
        }
        best_eval = score;
        proof {
            lemma_state_facts_congruence(*state, s0, t.zobrist, t.params);
        }
        let ghost state_now = *state;
        let pv = extract_pv(state, tt, t);
        if pv.len() > 0 {
            best_move = pv[0];
            proof {
                if best_move.0 != 0 {
                    crate::movegen::lemma_move_legal_congruence(state_now, s0, best_move.0);
                }
            }
        }
        info.clear_for_search();
        let abs_eval = if best_eval >= 0 {
            best_eval
        } else {
            -best_eval
        };
        if abs_eval >= ISMATE {
            break ;
        }
        depth = depth + 1;
    }
    (best_move, best_eval)
}


/// Sum of the first `n` weights.
pub open spec fn weight_sum(ws: Seq<u32>, n: int) -> int
    decreases n,
{
    if n <= 0 {
        0
    } else {
        weight_sum(ws, n - 1) + ws[n - 1]
    }
}

proof fn lemma_weight_sum_bound(ws: Seq<u32>, n: int)
    requires
        0 <= n <= ws.len(),
    ensures
        0 <= weight_sum(ws, n) <= n * 0x100000000,
    decreases n,
{
    if n > 0 {
        lemma_weight_sum_bound(ws, n - 1);
    }
}

/// Draw one index from a weighted list: the entry whose cumulative-weight
/// interval contains `draw` modulo the total weight. `None` exactly when
/// every weight is zero.
pub fn pick_weighted(weights: &Vec<u32>, draw: u64) -> (r: Option<usize>)
    requires
        weights@.len() <= 0x100000,
    ensures
        r is Some <==> weight_sum(weights@, weights@.len() as int) > 0,
        r matches Some(i) ==> {
            let pick = draw as int % weight_sum(weights@, weights@.len() as int);
            &&& i < weights@.len()
            &&& weight_sum(weights@, i as int) <= pick < weight_sum(weights@, i as int + 1)
        },
{
    let n = weights.len();
    let mut total: u64 = 0;
    let mut i: usize = 0;
    proof {
        lemma_weight_sum_bound(weights@, n as int);
    }
    while i < n
        invariant
            i <= n,
            n == weights@.len() <= 0x100000,
            total == weight_sum(weights@, i as int),
            total <= 0x10000000000000,
        decreases n - i,
    {
        proof {
            lemma_weight_sum_bound(weights@, i as int + 1);
            assert((i as int + 1) * 0x100000000 <= 0x100000 * 0x100000000) by (nonlinear_arith)
                requires
                    i as int + 1 <= 0x100000,
            ;
        }
        total = total + (weights[i] as u64);
        i = i + 1;
    }
    if total == 0 {
        return None;
    }
    let pick = draw % total;
    let mut acc: u64 = 0;
    let mut i: usize = 0;
    while i < n
        invariant
            i <= n,
            n == weights@.len() <= 0x100000,
            total == weight_sum(weights@, n as int),
            acc == weight_sum(weights@, i as int),
            acc <= pick,
            pick < total,
            pick == draw % total,
            0 < total,
            total <= 0x10000000000000,
        decreases n - i,
    {
        if pick < acc + (weights[i] as u64) {
            return Some(i);
        }
        acc = acc + (weights[i] as u64);
        proof {
            lemma_weight_sum_bound(weights@, i as int + 1);
        }
        i = i + 1;
    }
    proof {
        assert(acc == total);
        assert(false);
    }
    None
}

} // verus!
