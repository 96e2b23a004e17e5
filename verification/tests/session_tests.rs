use std::str::FromStr;
use chess::{Board, ChessMove, Square};
use chess_engine::chessio::generate_moves;
use chess_engine::client::{
    apply_message, compute_ws_state, find_move, lineup, square_name, WSMove, WSRMessage,
};
use chess_engine::minmax::ISUpdate;

#[test]
fn square_names_are_algebraic() {
    assert_eq!(square_name(0), "a1");
    assert_eq!(square_name(7), "h1");
    assert_eq!(square_name(12), "e2");
    assert_eq!(square_name(63), "h8");
}

#[test]
fn ws_move_carries_square_names() {
    let m = ChessMove::new(Square::E2, Square::E4, None);
    let wm = WSMove::from_move(&m);
    assert_eq!(wm.from, "e2");
    assert_eq!(wm.to, "e4");
}

#[test]
fn initial_state_has_twenty_moves_white_to_move() {
    let state = compute_ws_state(Board::default(), None);
    assert_eq!(state.legal_moves.len(), 20);
    assert_eq!(state.side_to_move, "white");
    assert!(state.best_line.is_empty());
    assert_eq!(state.best_value, 0);
    assert_eq!(state.lineup.len(), 32);
    assert_eq!(state.lineup[0], "R@a1");
    assert!(state.lineup.contains(&"K@e1".to_string()));
    assert!(state.lineup.contains(&"k@e8".to_string()));
    assert!(state.lineup.contains(&"p@a7".to_string()));
}

#[test]
fn state_carries_the_latest_update() {
    let board = Board::default();
    let update = ISUpdate {
        line: vec![ChessMove::new(Square::E2, Square::E4, None)],
        score: 33,
        depth: 5,
    };
    let state = compute_ws_state(board, Some(update));
    assert_eq!(state.best_value, 33);
    assert_eq!(state.best_line.len(), 1);
    assert_eq!(state.best_line[0].from, "e2");
    assert_eq!(state.best_line[0].to, "e4");
}

#[test]
fn apply_message_plays_the_requested_move() {
    let board = Board::default();
    let moves = generate_moves(&board);
    let msg = WSRMessage::Move { from: "e2".to_string(), to: "e4".to_string() };
    let next = apply_message(&board, &moves, &msg).expect("e2-e4 is legal");
    let state = compute_ws_state(next, None);
    assert_eq!(state.side_to_move, "black");
    assert!(state.lineup.contains(&"P@e4".to_string()));
}

#[test]
fn apply_message_rejects_an_illegal_move() {
    let board = Board::default();
    let moves = generate_moves(&board);
    let msg = WSRMessage::Move { from: "e2".to_string(), to: "e5".to_string() };
    assert!(apply_message(&board, &moves, &msg).is_none());
}

#[test]
fn apply_message_reset_restores_the_start() {
    let board = Board::from_str("4k3/8/8/3q4/8/8/3R4/4K3 b - - 0 1").unwrap();
    let moves = generate_moves(&board);
    let next = apply_message(&board, &moves, &WSRMessage::Reset).unwrap();
    assert_eq!(next, Board::default());
}

#[test]
fn find_move_takes_the_queen_promotion() {
    let board = Board::from_str("8/P6k/8/8/8/8/8/K7 w - - 0 1").unwrap();
    let moves = generate_moves(&board);
    let i = find_move(&moves, &"a7".to_string(), &"a8".to_string())
        .expect("the promotion push must match");
    assert_eq!(moves[i].get_promotion(), Some(chess::Piece::Queen));
}

#[test]
fn find_move_skips_unrelated_squares() {
    let board = Board::default();
    let moves = generate_moves(&board);
    assert!(find_move(&moves, &"a3".to_string(), &"a4".to_string()).is_none());
}

#[test]
fn lineup_lists_white_then_black_by_square() {
    let board = Board::from_str("4k3/8/8/3q4/8/8/3R4/4K3 w - - 0 1").unwrap();
    let entries = lineup(&board);
    assert_eq!(entries, vec!["K@e1", "R@d2", "q@d5", "k@e8"]);
}

#[test]
fn board_hash_matches_the_rules_library() {
    let a = Board::default();
    let b = a.make_move_new(ChessMove::new(Square::E2, Square::E4, None));
    assert_eq!(chess_engine::chessio::board_hash(&a), a.get_hash());
    assert_eq!(chess_engine::chessio::board_hash(&b), b.get_hash());
    assert_ne!(chess_engine::chessio::board_hash(&a), chess_engine::chessio::board_hash(&b));
}
