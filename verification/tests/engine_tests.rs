// Evaluation boundaries, the transposition-table round trip, attack-table
// behaviour and end-to-end search scenarios.

use chesscore::gamestate::GameState;
use chesscore::tables::Tables;
use chesscore::moves::Move;
use chesscore::bitboard::Bitboard;
use chesscore::lockless::{LockLessTransTable, LockLessValue, LockLessFlag};
use chesscore::zobrist::ZobristHash;
use chesscore::search::{SearchInfo, alpha_beta, iterative_deepening, AB_BOUND, ISMATE};

#[test]
fn insufficient_material_evaluates_to_zero() {
    let t = Tables::new().unwrap();
    let state = GameState::new_from_fen("4k3/8/8/8/8/8/8/4KB2 w - - 0 1", &t).unwrap();
    assert_eq!(state.static_eval(&t), 0);
    let knights = GameState::new_from_fen("4k3/8/8/8/8/8/8/4KN2 b - - 0 1", &t).unwrap();
    assert_eq!(knights.static_eval(&t), 0);
}

#[test]
fn stalemate_yields_no_moves_and_draw_score() {
    let t = Tables::new().unwrap();
    let mut state = GameState::new_from_fen("7k/5Q2/6K1/8/8/8/8/8 b - - 0 1", &t).unwrap();
    let moves = state.generate_moves(&t);
    assert_eq!(moves.length, 0);
    let mut info = SearchInfo::new(0, false);
    let mut tt = LockLessTransTable::new();
    let score = alpha_beta(&mut state, -AB_BOUND, AB_BOUND, 2, &mut info, &mut tt, &t, true, 0);
    assert_eq!(score, 0);
}

#[test]
fn mate_in_one_is_found() {
    let t = Tables::new().unwrap();
    let mut state = GameState::new_from_fen("4k3/R7/4K3/8/8/8/8/7R w - - 0 1", &t).unwrap();
    let mut info = SearchInfo::new(0, false);
    let mut tt = LockLessTransTable::new();
    let (best, score) = iterative_deepening(&mut state, &mut info, &mut tt, 2, 1, &t);
    assert!(score >= ISMATE);
    // The mating move must be the rook to the back rank.
    assert_eq!(best.to_algebraic(), "h1h8");
}

#[test]
fn repetition_draw_is_recognised() {
    let t = Tables::new().unwrap();
    let mut state = GameState::new_from_fen("4k3/8/8/8/8/8/8/R3K3 w - - 0 1", &t).unwrap();
    // Shuffle the rooks and kings back and forth until the start position
    // has appeared three times in the history.
    let shuffle = ["a1b1", "e8d8", "b1a1", "d8e8", "a1b1", "e8d8", "b1a1", "d8e8"];
    for text in shuffle.iter() {
        let mv = Move::from_text_move(&state, text).unwrap();
        state.apply_legal_move(mv, &t);
    }
    assert!(state.has_repitition());
    let mut info = SearchInfo::new(0, false);
    let mut tt = LockLessTransTable::new();
    let score = alpha_beta(&mut state, -AB_BOUND, AB_BOUND, 3, &mut info, &mut tt, &t, true, 0);
    assert_eq!(score, 0);
}

#[test]
fn half_move_clock_boundary_scores_zero() {
    let t = Tables::new().unwrap();
    let mut state = GameState::new_from_fen(
        "rnbqkbnr/pppppppp/8/8/8/8/PPPPPPPP/RNBQKBNR w KQkq - 100 80",
        &t,
    )
    .unwrap();
    let mut info = SearchInfo::new(0, false);
    let mut tt = LockLessTransTable::new();
    let score = alpha_beta(&mut state, -AB_BOUND, AB_BOUND, 3, &mut info, &mut tt, &t, true, 0);
    assert_eq!(score, 0);
}

#[test]
fn depth_zero_root_returns_a_quiescence_score() {
    let t = Tables::new().unwrap();
    // The side to move is in check; a depth-zero call must answer with a
    // static/quiescence score, not a mate or draw claim.
    let mut state = GameState::new_from_fen("4k3/4R3/4K3/8/8/8/8/8 b - - 0 1", &t).unwrap();
    let mut info = SearchInfo::new(0, false);
    let mut tt = LockLessTransTable::new();
    let score = alpha_beta(&mut state, -AB_BOUND, AB_BOUND, 0, &mut info, &mut tt, &t, true, 0);
    assert!(score > -ISMATE);
    assert!(score < ISMATE);
}

#[test]
fn legal_generator_moves_survive_the_king_test() {
    let t = Tables::new().unwrap();
    // A pinned bishop: every generated move must keep the king safe.
    let mut state =
        GameState::new_from_fen("4k3/8/8/8/8/4r3/4B3/4K3 w - - 0 1", &t).unwrap();
    let moves = state.generate_moves(&t);
    let mut i = 0;
    while i < moves.length {
        assert!(state.apply_pseudo_legal_move(moves.moves[i], &t));
        state.undo_move(&t);
        i += 1;
    }
    // The pinned bishop may not move off the file; the king has four flights
    // blocked by the rook's reach, so only few moves exist.
    assert!(moves.length > 0);
}

#[test]
fn weighted_pick_lands_in_the_right_interval() {
    let weights: Vec<u32> = vec![0, 3, 0, 2];
    assert_eq!(chesscore::search::pick_weighted(&weights, 0), Some(1));
    assert_eq!(chesscore::search::pick_weighted(&weights, 2), Some(1));
    assert_eq!(chesscore::search::pick_weighted(&weights, 3), Some(3));
    assert_eq!(chesscore::search::pick_weighted(&weights, 4), Some(3));
    assert_eq!(chesscore::search::pick_weighted(&weights, 5), Some(1));
    let none: Vec<u32> = vec![0, 0];
    assert_eq!(chesscore::search::pick_weighted(&none, 7), None);
}

#[test]
fn subset_walk_visits_each_nonempty_subset_once_ascending() {
    let set = Bitboard(0b1010);
    let mut it = chesscore::magic::BitSubset::new(set);
    assert_eq!(it.next().map(|b| b.0), Some(0b0010));
    assert_eq!(it.next().map(|b| b.0), Some(0b1000));
    assert_eq!(it.next().map(|b| b.0), Some(0b1010));
    assert_eq!(it.next().map(|b| b.0), None);
}

#[test]
fn transposition_store_then_probe_round_trips() {
    let mut tt = LockLessTransTable::new();
    let key = ZobristHash(0x123456789ABCDEFu64);
    let mv = Move::new_from_to(12, 28, 0);
    let value = LockLessValue::new(mv, LockLessFlag::Exact, 77, 5);
    tt.insert(key, value);
    let got = tt.get(key).unwrap();
    assert_eq!(got.value(), 77);
    assert_eq!(got.depth(), 5);
    assert_eq!(got.best_move().0, mv.0);
    assert!(matches!(got.flag(), LockLessFlag::Exact));
    // A different hash that maps elsewhere misses.
    let other = ZobristHash(0xFEDCBA987654321u64);
    assert!(tt.get(other).is_none());
}

#[test]
fn attack_lookups_depend_only_on_masked_blockers() {
    let t = Tables::new().unwrap();
    // Blockers outside the relevant mask of a rook on a1: the edge squares
    // a8 and h1 cannot matter.
    let base = Bitboard(1u64 << 16);
    let with_edges = Bitboard((1u64 << 16) | (1u64 << 56) | (1u64 << 7));
    let a = chesscore::movegen::rook_move_bitboard(&t, 0, base);
    let b = chesscore::movegen::rook_move_bitboard(&t, 0, with_edges);
    assert_eq!(a.0, b.0);
    let c = chesscore::movegen::bishop_move_bitboard(&t, 0, Bitboard(1u64 << 18));
    let d = chesscore::movegen::bishop_move_bitboard(
        &t,
        0,
        Bitboard((1u64 << 18) | (1u64 << 63)),
    );
    assert_eq!(c.0, d.0);
    // Queen attacks are the union of rook and bishop attacks.
    let q = chesscore::movegen::queen_move_bitboard(&t, 0, base);
    let r = chesscore::movegen::rook_move_bitboard(&t, 0, base);
    let bi = chesscore::movegen::bishop_move_bitboard(&t, 0, base);
    assert_eq!(q.0, r.0 | bi.0);
}

#[test]
fn slider_rays_stop_at_the_first_blocker() {
    // A rook on d4 with a blocker on d6 attacks d5 and d6 but not d7.
    let blockers = Bitboard(1u64 << 43);
    let plays = chesscore::magic::slider_plays_for_blockers(27, 1, blockers);
    assert!(plays.0 & (1u64 << 35) != 0);
    assert!(plays.0 & (1u64 << 43) != 0);
    assert_eq!(plays.0 & (1u64 << 51), 0);
}

#[test]
fn movetime_follows_the_allocation_rule() {
    let t = Tables::new().unwrap();
    let state = GameState::new_starting_pos(&t).unwrap();
    // time/40 + inc/2
    assert_eq!(state.calculate_movetime(40000, 0, 1000, 0), 1500);
    assert_eq!(state.calculate_movetime_simple_side(900, 1000), 522);
    // capped below the remaining time, then floored at inc/2
    assert_eq!(state.calculate_movetime_simple_side(40, 100), 50);
    assert_eq!(state.calculate_movetime_simple_side(400, 0), 10);
}

#[test]
fn kbn_ending_drives_the_lone_king_to_the_corner() {
    let t = Tables::new().unwrap();
    // Lone black king; white has king, bishop and knight.
    let near = GameState::new_from_fen("k7/8/1K6/8/3N4/8/8/5B2 b - - 0 1", &t).unwrap();
    let far = GameState::new_from_fen("3k4/8/1K6/8/3N4/8/8/5B2 b - - 0 1", &t).unwrap();
    // Scores are for the side to move, the lone king: nearer the mating
    // corner is worse for it.
    assert!(near.static_eval(&t) < far.static_eval(&t));
}
