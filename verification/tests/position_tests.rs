// Make/unmake round trips and the perft counts that pin the move generator
// down against the rules of chess.

use chesscore::gamestate::GameState;
use chesscore::tables::Tables;

fn perft(state: &mut GameState, depth: u32, t: &Tables) -> u64 {
    if depth == 0 {
        return 1;
    }
    let mut nodes: u64 = 0;
    let moves = state.generate_pseudo_legal_moves(t);
    let mut i = 0;
    while i < moves.length {
        if state.apply_pseudo_legal_move(moves.moves[i], t) {
            nodes += perft(state, depth - 1, t);
            state.undo_move(t);
        }
        i += 1;
    }
    nodes
}

#[test]
fn test_do_undo_move() {
    let t = Tables::new().unwrap();
    let mut starting_pos = GameState::new_starting_pos(&t).unwrap();
    let moves = starting_pos.generate_moves(&t);
    let mut i = 0;
    while i < moves.length {
        let m = moves.moves[i];
        let old_state = starting_pos.clone_state();
        starting_pos.apply_legal_move(m, &t);
        starting_pos.undo_move(&t);
        if old_state == starting_pos {
        } else {
            assert_eq!(true, false);
        }
        i += 1;
    }
}

#[test]
fn perft_starting_pos() {
    let t = Tables::new().unwrap();
    let mut starting_pos = GameState::new_starting_pos(&t).unwrap();
    assert_eq!(perft(&mut starting_pos, 0, &t), 1);
    assert_eq!(perft(&mut starting_pos, 1, &t), 20);
    assert_eq!(perft(&mut starting_pos, 2, &t), 400);
    assert_eq!(perft(&mut starting_pos, 3, &t), 8902);
    assert_eq!(perft(&mut starting_pos, 4, &t), 197281);
    assert_eq!(perft(&mut starting_pos, 5, &t), 4865609);
}

#[test]
fn perft_kiwipete() {
    let t = Tables::new().unwrap();
    let mut starting_pos = GameState::new_from_fen(
        "r3k2r/p1ppqpb1/bn2pnp1/3PN3/1p2P3/2N2Q1p/PPPBBPPP/R3K2R w KQkq - 0 1",
        &t,
    )
    .unwrap();
    assert_eq!(perft(&mut starting_pos, 1, &t), 48);
    assert_eq!(perft(&mut starting_pos, 2, &t), 2039);
    assert_eq!(perft(&mut starting_pos, 3, &t), 97862);
    assert_eq!(perft(&mut starting_pos, 4, &t), 4085603);
    // Depth 5 counts 193,690,690 leaves. This suite runs unoptimised under a
    // 20-second per-test limit, and that count takes many minutes there, so
    // the deepest level is left out rather than weakened to a wrong number.
    // In an optimised build the next line holds and can be reinstated:
    // assert_eq!(perft(&mut starting_pos, 5, &t), 193690690);
}

#[test]
fn fen_round_trip_fingerprint() {
    let t = Tables::new().unwrap();
    // The same position reached with different clocks: the reduced
    // fingerprint must agree.
    let a = GameState::new_from_fen(
        "rnbqkbnr/pppppppp/8/8/8/8/PPPPPPPP/RNBQKBNR w KQkq - 0 1",
        &t,
    )
    .unwrap();
    let b = GameState::new_from_fen(
        "rnbqkbnr/pppppppp/8/8/8/8/PPPPPPPP/RNBQKBNR w KQkq - 31 17",
        &t,
    )
    .unwrap();
    assert_eq!(a.to_reduced_book_fen(), b.to_reduced_book_fen());
    assert_eq!(
        a.to_reduced_book_fen(),
        "rnbqkbnr/pppppppp/8/8/8/8/PPPPPPPP/RNBQKBNR w KQkq -"
    );
}

#[test]
fn fen_rejects_malformed() {
    let t = Tables::new().unwrap();
    assert!(GameState::new_from_fen("", &t).is_none());
    assert!(GameState::new_from_fen("8/8/8/8/8/8/8/8 w - - 0 1", &t).is_none());
    assert!(GameState::new_from_fen(
        "rnbqkbnr/pppppppp/8/8/8/8/PPPPPPPP/RNBQKBNR w KQkq - 0",
        &t
    )
    .is_none());
    assert!(GameState::new_from_fen(
        "rnbqkbnr/pppppppp/9/8/8/8/PPPPPPPP/RNBQKBNR w KQkq - 0 1",
        &t
    )
    .is_none());
    assert!(GameState::new_from_fen(
        "rnbqkbnr/pppppppp/8/8/8/8/PPPPPPPP/RNBQKBNR x KQkq - 0 1",
        &t
    )
    .is_none());
}

#[test]
fn from_text_move_reads_the_board() {
    let t = Tables::new().unwrap();
    let state = GameState::new_starting_pos(&t).unwrap();
    let mv = chesscore::moves::Move::from_text_move(&state, "e2e4").unwrap();
    assert_eq!(mv.from(), 12);
    assert_eq!(mv.to(), 28);
    assert_eq!(mv.moving_piece(), chesscore::gamestate::PAWN);
    assert!(!mv.is_capture());
}

#[test]
fn zobrist_changes_and_restores_across_moves() {
    let t = Tables::new().unwrap();
    let mut state = GameState::new_starting_pos(&t).unwrap();
    let initial_hash = state.zobrist.0;
    let moves = state.generate_moves(&t);
    let m = moves.moves[0];
    state.apply_legal_move(m, &t);
    assert_ne!(state.zobrist.0, initial_hash);
    state.undo_move(&t);
    assert_eq!(state.zobrist.0, initial_hash);
}
