// The packed move encoding: every constructor round-trips through the
// field getters.

use chesscore::moves::Move;
use chesscore::gamestate::{PAWN, ROOK, KNIGHT, QUEEN};

#[test]
fn test_new_from_to() {
    let from = 63;
    let to = 0;
    let moving = PAWN;
    let mv = Move::new_from_to(from, to, moving);
    assert_eq!(mv.from(), from);
    assert_eq!(mv.to(), to);
    assert_eq!(mv.moving_piece(), moving);
    assert!(!mv.is_capture());
    assert!(!mv.is_capture_and_en_passant());
    assert!(!mv.is_promotion());
    assert!(!mv.is_double_pawn_push());
    assert_eq!(mv.is_castle_and_where(), None);
}

#[test]
fn test_new_capture() {
    let from = 0;
    let to = 63;
    let moving = QUEEN;
    let captured = ROOK;
    let mv = Move::new_capture(from, to, moving, captured);
    assert_eq!(mv.from(), from);
    assert_eq!(mv.to(), to);
    assert_eq!(mv.moving_piece(), moving);
    assert_eq!(mv.captured_piece(), captured);
    assert!(mv.is_capture());
    assert!(!mv.is_capture_and_en_passant());
    assert!(!mv.is_double_pawn_push());
    assert!(!mv.is_promotion());
    assert_eq!(mv.is_castle_and_where(), None);
}

#[test]
fn test_new_en_passant_capture() {
    let from = 63;
    let to = 31;
    let mv = Move::new_en_passant_capture(from, to);
    assert_eq!(mv.from(), from);
    assert_eq!(mv.to(), to);
    assert_eq!(mv.moving_piece(), PAWN);
    assert_eq!(mv.captured_piece(), PAWN);
    assert!(mv.is_capture());
    assert!(mv.is_capture_and_en_passant());
    assert!(!mv.is_double_pawn_push());
    assert!(!mv.is_promotion());
    assert_eq!(mv.is_castle_and_where(), None);
}

#[test]
fn test_new_double_pawn_push() {
    let from = 63;
    let to = 63;
    let mv = Move::new_double_pawn_push(from, to);
    assert_eq!(mv.from(), from);
    assert_eq!(mv.to(), to);
    assert_eq!(mv.moving_piece(), PAWN);
    assert!(!mv.is_capture());
    assert!(!mv.is_capture_and_en_passant());
    assert!(mv.is_double_pawn_push());
    assert!(!mv.is_promotion());
    assert_eq!(mv.is_castle_and_where(), None);
}

#[test]
fn test_new_quiet_promotion() {
    let from = 10;
    let to = 57;
    let promoted_piece = KNIGHT;
    let mv = Move::new_quiet_promotion(from, to, promoted_piece);
    assert_eq!(mv.from(), from);
    assert_eq!(mv.to(), to);
    assert_eq!(mv.moving_piece(), PAWN);
    assert_eq!(mv.promoted_piece(), promoted_piece);
    assert!(!mv.is_capture());
    assert!(!mv.is_capture_and_en_passant());
    assert!(!mv.is_double_pawn_push());
    assert!(mv.is_promotion());
    assert_eq!(mv.is_castle_and_where(), None);
}

#[test]
fn test_new_capture_promotion() {
    let from = 15;
    let to = 40;
    let promoted_piece = KNIGHT;
    let captured_piece = QUEEN;
    let mv = Move::new_capture_promotion(from, to, promoted_piece, captured_piece);
    assert_eq!(mv.from(), from);
    assert_eq!(mv.to(), to);
    assert_eq!(mv.moving_piece(), PAWN);
    assert_eq!(mv.promoted_piece(), promoted_piece);
    assert_eq!(mv.captured_piece(), captured_piece);
    assert!(mv.is_capture());
    assert!(!mv.is_capture_and_en_passant());
    assert!(!mv.is_double_pawn_push());
    assert!(mv.is_promotion());
    assert_eq!(mv.is_castle_and_where(), None);
}

#[test]
fn test_to_algebraic_strings() {
    let mv = Move::new_from_to(12, 28, PAWN);
    assert_eq!(mv.to_algebraic(), "e2e4");
    let promo = Move::new_quiet_promotion(52, 60, QUEEN);
    assert_eq!(promo.to_algebraic(), "e7e8q");
}

#[test]
fn test_algebraic_to_index_bounds() {
    assert_eq!(chesscore::moves::algebraic_to_index("a1"), Some(0));
    assert_eq!(chesscore::moves::algebraic_to_index("h8"), Some(63));
    assert_eq!(chesscore::moves::algebraic_to_index("e3"), Some(20));
    assert_eq!(chesscore::moves::algebraic_to_index("i1"), None);
    assert_eq!(chesscore::moves::algebraic_to_index("a9"), None);
    assert_eq!(chesscore::moves::algebraic_to_index("e"), None);
}
