use std::str::FromStr;
use std::sync::atomic::AtomicBool;
use std::sync::Arc;
use chess::{Board, ChessMove, MoveGen, Square};
use chess_engine::chessio::{apply_move, generate_moves};
use chess_engine::eval::{board_score, MAX_SCORE, MIN_SCORE, WIN_SCORE};
use chess_engine::minmax::{
    alpha_beta, alpha_beta_line, infinite_search, mtdf, CancelPoll, UpdateSink,
};
use chess_engine::ttable::{TEntry, TTable, ValueInfo};

/// The reference minimax from the specification, written directly.
fn ref_negamax(board: &Board, depth: i32) -> i32 {
    let side = if board.side_to_move() == chess::Color::White { 1 } else { -1 };
    let moves = generate_moves(board);
    if moves.is_empty() {
        return side * board_score(board, &moves, depth);
    }
    let mut best = i32::MIN;
    for m in &moves {
        let child = board.make_move_new(*m);
        let v = if depth <= 1 {
            let child_moves = generate_moves(&child);
            side * board_score(&child, &child_moves, 1)
        } else {
            -ref_negamax(&child, depth - 1)
        };
        if v > best {
            best = v;
        }
    }
    best
}

fn full_search(board: &Board, depth: i32) -> i32 {
    let mut cancel = CancelPoll::never();
    let mut tt = TTable::new(0);
    let res = alpha_beta(&mut cancel, &mut tt, board, depth, MIN_SCORE, MAX_SCORE)
        .expect("a never-firing poll always yields a result");
    res.best_value
}

#[test]
fn negamax_symmetry_on_the_initial_position() {
    let board = Board::default();
    for depth in 1..=2 {
        assert_eq!(full_search(&board, depth), ref_negamax(&board, depth), "depth {depth}");
    }
}

#[test]
fn negamax_symmetry_on_a_sparse_position() {
    let board = Board::from_str("4k3/8/8/3q4/8/8/3R4/4K3 w - - 0 1").unwrap();
    for depth in 1..=3 {
        assert_eq!(full_search(&board, depth), ref_negamax(&board, depth), "depth {depth}");
    }
}

#[test]
fn window_consistency() {
    let board = Board::from_str("4k3/8/8/3q4/8/8/3R4/4K3 w - - 0 1").unwrap();
    let depth = 2;
    let v = ref_negamax(&board, depth);
    let probe = |alpha: i32, beta: i32| -> i32 {
        let mut cancel = CancelPoll::never();
        let mut tt = TTable::new(0);
        alpha_beta(&mut cancel, &mut tt, &board, depth, alpha, beta).unwrap().best_value
    };
    // value inside the window: exact
    assert_eq!(probe(v - 10, v + 10), v);
    // value below the window: the result fails low
    assert!(probe(v + 5, v + 50) <= v + 5);
    // value above the window: the result fails high
    assert!(probe(v - 50, v - 5) >= v - 5);
}

#[test]
fn queen_endgame_finds_the_mate_for_black() {
    // Black mates with Qf1.
    let board = Board::from_str("8/8/8/8/8/6k1/5q2/7K b - - 0 1").unwrap();
    let mut cancel = CancelPoll::never();
    let mut tt = TTable::new(1 << 22);
    let res = alpha_beta(&mut cancel, &mut tt, &board, 3, MIN_SCORE, MAX_SCORE).unwrap();
    assert!(res.best_value >= WIN_SCORE, "got {}", res.best_value);
    assert_eq!(res.best_value, WIN_SCORE + 2);
    let m = res.best_move.expect("a position with moves yields a move");
    // the queen mates at once (f1 and g2 both work)
    assert_eq!(m.get_source(), Square::F2);
    let child = apply_move(&board, m);
    assert_eq!(child.status(), chess::BoardStatus::Checkmate);
}

#[test]
fn mate_in_one_line_has_length_one() {
    // White mates with Qg7.
    let board = Board::from_str("7k/5Q2/6K1/8/8/8/8/8 w - - 0 1").unwrap();
    let mut cancel = CancelPoll::never();
    let mut tt = TTable::new(1 << 22);
    let res = mtdf(&mut cancel, &mut tt, &board, 2, 0).unwrap();
    assert_eq!(res.best_value, WIN_SCORE + 1);
    let line = alpha_beta_line(&mut cancel, &mut tt, &board, 2, res).unwrap();
    assert_eq!(line.score, WIN_SCORE + 1);
    assert_eq!(line.line.len(), 1);
    assert_eq!(line.line[0].get_source(), Square::F7);
    assert_eq!(line.line[0].get_dest(), Square::G7);
}

#[test]
fn mate_preference_picks_the_immediate_mate() {
    // White can mate at once (Qa8 or Qg7) or dawdle; deeper searches must
    // still score the position as a mate found at the highest residual depth.
    let board = Board::from_str("6k1/8/6K1/8/8/8/8/Q7 w - - 0 1").unwrap();
    for depth in 2..=4 {
        let mut cancel = CancelPoll::never();
        let mut tt = TTable::new(1 << 22);
        let res = alpha_beta(&mut cancel, &mut tt, &board, depth, MIN_SCORE, MAX_SCORE).unwrap();
        assert_eq!(res.best_value, WIN_SCORE + depth - 1, "depth {depth}");
        // the chosen move mates on the spot
        let m = res.best_move.unwrap();
        let child = apply_move(&board, m);
        assert_eq!(child.status(), chess::BoardStatus::Checkmate);
    }
}

#[test]
fn mtdf_converges_to_the_reference_value() {
    let board = Board::from_str("4k3/8/8/3q4/8/8/3R4/4K3 w - - 0 1").unwrap();
    let v = ref_negamax(&board, 2);
    let mut cancel = CancelPoll::never();
    let mut tt = TTable::new(0);
    let res = mtdf(&mut cancel, &mut tt, &board, 2, 0).unwrap();
    assert_eq!(res.best_value, v);
}

#[test]
fn cancelled_search_returns_none() {
    let flag = Arc::new(AtomicBool::new(true));
    let mut cancel = CancelPoll::watching(flag, 1);
    let mut tt = TTable::new(1 << 16);
    let board = Board::default();
    assert!(alpha_beta(&mut cancel, &mut tt, &board, 3, MIN_SCORE, MAX_SCORE).is_none());
}

#[test]
fn updates_arrive_in_increasing_depth_with_legal_lines() {
    // Iterative deepening from the position after 1. e4 e5.
    let mut board = Board::default();
    board = board.make_move_new(ChessMove::new(Square::E2, Square::E4, None));
    board = board.make_move_new(ChessMove::new(Square::E7, Square::E5, None));
    let (tx, rx) = std::sync::mpsc::channel();
    let mut sink = UpdateSink::new(tx);
    let mut cancel = CancelPoll::never();
    let mut tt = TTable::new(1 << 24);
    let max_depth = 4;
    infinite_search(&mut tt, &board, max_depth, &mut cancel, &mut sink);
    drop(sink);
    let updates: Vec<_> = rx.try_iter().collect();
    assert_eq!(updates.len(), max_depth as usize);
    let mut last_depth = 0;
    for u in &updates {
        assert!(u.depth > last_depth, "depths must strictly increase");
        last_depth = u.depth;
        // the emitted line is legal from the root
        let mut pos = board;
        for m in &u.line {
            assert!(
                MoveGen::new_legal(&pos).any(|x| x == *m),
                "emitted line holds an illegal move",
            );
            pos = pos.make_move_new(*m);
        }
        assert!(u.line.len() as i32 <= u.depth);
    }
    // the opening is balanced: the deepest verdict stays near zero
    let final_score = updates.last().unwrap().score;
    assert!(final_score.abs() <= 50, "got {final_score}");
}

#[test]
fn cancelled_driver_emits_nothing() {
    let flag = Arc::new(AtomicBool::new(true));
    let mut cancel = CancelPoll::watching(flag, 1);
    let mut tt = TTable::new(1 << 16);
    let (tx, rx) = std::sync::mpsc::channel();
    let mut sink = UpdateSink::new(tx);
    infinite_search(&mut tt, &Board::default(), 5, &mut cancel, &mut sink);
    drop(sink);
    assert_eq!(rx.try_iter().count(), 0, "a cancelled search must not report");
}

#[test]
fn deep_exact_entry_is_returned_as_is() {
    // A sufficiently deep exact entry for the queried position short-cuts
    // the search entirely: no store, no recursion, the entry as the answer.
    let board = Board::default();
    let planted = ChessMove::new(Square::B1, Square::C3, None);
    let mut tt = TTable::new(1 << 20);
    tt.put(TEntry { hash: board.get_hash(), depth: 9, value: ValueInfo::Exact(777), best_move: planted });
    let mut cancel = CancelPoll::never();
    let res = alpha_beta(&mut cancel, &mut tt, &board, 3, MIN_SCORE, MAX_SCORE).unwrap();
    assert_eq!(res.best_value, 777);
    assert_eq!(res.best_move, Some(planted));
    // the entry is still there, untouched
    let kept = tt.fetch(board.get_hash()).unwrap();
    assert_eq!(kept.depth, 9);
}

#[test]
fn pv_starts_with_the_result_best_move() {
    let board = Board::default();
    let m = ChessMove::new(Square::E2, Square::E4, None);
    let mut cancel = CancelPoll::never();
    let mut tt = TTable::new(1 << 16);
    let res = chess_engine::minmax::ABResult { best_move: Some(m), best_value: 20 };
    let line = alpha_beta_line(&mut cancel, &mut tt, &board, 1, res).unwrap();
    assert_eq!(line.line.first(), Some(&m));
}
