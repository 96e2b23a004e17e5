use std::str::FromStr;
use chess::Board;
use chess_engine::chessio::generate_moves;
use chess_engine::eval::{board_score, fast_board_score, quick_status, GameStatus, WIN_SCORE, DRAW_SCORE};

#[test]
fn initial_position_scores_its_mobility() {
    // Material and piece-square terms cancel by symmetry; White's 20 quiet
    // opening moves contribute 1 apiece.
    let board = Board::default();
    let moves = generate_moves(&board);
    assert_eq!(moves.len(), 20);
    assert_eq!(board_score(&board, &moves, 0), 20);
}

#[test]
fn initial_position_fast_score_is_zero() {
    let board = Board::default();
    assert_eq!(fast_board_score(&board, 0), 0);
}

#[test]
fn stalemate_scores_draw() {
    let board = Board::from_str("7k/5Q2/6K1/8/8/8/8/8 b - - 0 1").unwrap();
    let moves = generate_moves(&board);
    assert_eq!(moves.len(), 0);
    assert_eq!(quick_status(&board, moves.len()), GameStatus::Stalemate);
    assert_eq!(board_score(&board, &moves, 3), DRAW_SCORE);
}

#[test]
fn checkmate_scores_against_the_mated_side() {
    // After 1. f3 e5 2. g4 Qh4#, White to move stands mated.
    let board = Board::from_str("rnb1kbnr/pppp1ppp/8/4p3/6Pq/5P2/PPPPP2P/RNBQKBNR w KQkq - 1 3")
        .unwrap();
    let moves = generate_moves(&board);
    assert_eq!(moves.len(), 0);
    assert_eq!(quick_status(&board, moves.len()), GameStatus::Checkmate);
    assert_eq!(board_score(&board, &moves, 3), -(WIN_SCORE + 3));
}

#[test]
fn deeper_mate_detection_scores_higher() {
    // The depth additive prefers mates found earlier (at higher residual depth).
    let board = Board::from_str("rnb1kbnr/pppp1ppp/8/4p3/6Pq/5P2/PPPPP2P/RNBQKBNR w KQkq - 1 3")
        .unwrap();
    let moves = generate_moves(&board);
    let shallow = board_score(&board, &moves, 1);
    let deep = board_score(&board, &moves, 5);
    assert_eq!(shallow, -(WIN_SCORE + 1));
    assert_eq!(deep, -(WIN_SCORE + 5));
    assert!(deep < shallow);
}

#[test]
fn material_advantage_shows_in_the_score() {
    // White has an extra queen; Black to move, no checks anywhere.
    let board = Board::from_str("4k3/8/8/8/8/8/8/Q3K3 b - - 0 1").unwrap();
    let moves = generate_moves(&board);
    let s = board_score(&board, &moves, 0);
    assert!(s > 800, "a queen up must dominate the positional terms, got {s}");
    let fast = fast_board_score(&board, 0);
    assert!(fast > 800, "fast score must see the material edge, got {fast}");
}

#[test]
fn fast_score_penalises_the_checked_side() {
    // Black to move and in check from the rook.
    let board = Board::from_str("4k3/8/4R3/8/8/8/8/4K3 b - - 0 1").unwrap();
    let fast = fast_board_score(&board, 2);
    assert!(fast > WIN_SCORE, "a check against Black pushes the score up by a mate margin, got {fast}");
}
