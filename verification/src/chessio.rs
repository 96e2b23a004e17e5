//! The trusted boundary around the `chess` crate.
//!
//! The engine treats a position as an opaque value with a handful of
//! observations: its legal moves, the position after a move, its Zobrist
//! hash, the side to move, the number of checking pieces, and where the
//! pieces stand.  Each observation is a function of the position value
//! alone, so each gets an uninterpreted name, and a thin wrapper whose
//! contract ties the runtime result to that name.

use vstd::prelude::*;
use chess::Board;
use chess::ChessMove;
use chess::MoveGen;
use chess::Color;
use chess::ALL_PIECES;
use chess::ALL_SQUARES;

verus! {

#[verifier::external_type_specification]
#[verifier::external_body]
pub struct ExBoard(Board);

#[verifier::external_type_specification]
#[verifier::external_body]
pub struct ExChessMove(ChessMove);

/// Piece codes, in the order the `chess` crate indexes piece kinds.
pub const PAWN: u8 = 0;
pub const KNIGHT: u8 = 1;
pub const BISHOP: u8 = 2;
pub const ROOK: u8 = 3;
pub const QUEEN: u8 = 4;
pub const KING: u8 = 5;

/// The legal moves of a position, in the generator's enumeration order.
pub uninterp spec fn moves_of(b: Board) -> Seq<ChessMove>;

/// The position reached by playing a legal move.
pub uninterp spec fn after_of(b: Board, m: ChessMove) -> Board;

/// The 64-bit Zobrist hash of a position.
pub uninterp spec fn hash_of(b: Board) -> u64;

/// Whether White is the side to move.
pub uninterp spec fn white_of(b: Board) -> bool;

/// How many enemy pieces give check to the side to move.
pub uninterp spec fn checkers_of(b: Board) -> u32;

/// The squares (indexes 0..64, a1 = 0) holding one side's pieces of one kind.
pub uninterp spec fn squares_of(b: Board, white: bool, piece: u8) -> Seq<u8>;

/// The piece standing on a square: its colour (true = White) and piece code.
pub uninterp spec fn occupant_of(b: Board, sq: u8) -> Option<(bool, u8)>;

/// The source square index of a move.
pub uninterp spec fn src_of(m: ChessMove) -> u8;

/// The destination square index of a move.
pub uninterp spec fn dst_of(m: ChessMove) -> u8;

/// The promotion piece code of a move, if any.
pub uninterp spec fn promo_of(m: ChessMove) -> Option<u8>;

/// Whether the side to move stands in check.
pub open spec fn in_check(b: Board) -> bool {
    checkers_of(b) > 0
}

/// Relies on chess::MoveGen::new_legal: it enumerates exactly the legal
/// moves of the position, in a fixed order determined by the position.  The
/// generator draws from at most 18 piece records, each with at most 64
/// destination squares and at most 4 promotion choices, so it yields at
/// most 4608 moves.
#[verifier::external_body]
pub fn generate_moves(board: &Board) -> (r: Vec<ChessMove>)
    ensures
        r@ == moves_of(*board),
        r@.len() <= 4608,
{
    MoveGen::new_legal(board).collect()
}

/// Relies on chess::Board::make_move_new: the position after playing a
/// legal move; the side to move flips.
#[verifier::external_body]
pub fn apply_move(board: &Board, m: ChessMove) -> (r: Board)
    requires
        moves_of(*board).contains(m),
    ensures
        r == after_of(*board, m),
        white_of(r) == !white_of(*board),
{
    board.make_move_new(m)
}

/// Relies on chess::Board::get_hash: the Zobrist hash of the position.
#[verifier::external_body]
pub fn board_hash(board: &Board) -> (r: u64)
    ensures
        r == hash_of(*board),
{
    board.get_hash()
}

/// Relies on chess::Board::side_to_move.
#[verifier::external_body]
pub fn side_is_white(board: &Board) -> (r: bool)
    ensures
        r == white_of(*board),
{
    board.side_to_move() == Color::White
}

/// Relies on chess::Board::checkers and chess::BitBoard::popcnt: the number
/// of checking pieces, the population count of a 64-bit set, so at most 64.
#[verifier::external_body]
pub fn checkers_count(board: &Board) -> (r: u32)
    ensures
        r == checkers_of(*board),
        r <= 64,
{
    board.checkers().popcnt()
}

/// Relies on chess::Board::pieces and chess::Board::color_combined: the
/// squares holding one side's pieces of one kind, as indexes 0..64 in the
/// set's ascending iteration order; a 64-bit set holds at most 64 squares.
#[verifier::external_body]
pub fn piece_squares(board: &Board, white: bool, piece: u8) -> (r: Vec<u8>)
    requires
        piece < 6,
    ensures
        r@ == squares_of(*board, white, piece),
        r@.len() <= 64,
        forall|i: int| 0 <= i < r@.len() ==> r@[i] < 64,
{
    let color = if white { Color::White } else { Color::Black };
    let bb = *board.pieces(ALL_PIECES[piece as usize]) & *board.color_combined(color);
    bb.map(|sq| sq.to_index() as u8).collect()
}

/// Relies on chess::Board::color_on and chess::Board::piece_on: the piece
/// standing on a square, with its colour; piece codes run below 6.
#[verifier::external_body]
pub fn occupant(board: &Board, sq: u8) -> (r: Option<(bool, u8)>)
    requires
        sq < 64,
    ensures
        r == occupant_of(*board, sq),
        r matches Some(p) ==> p.1 < 6,
{
    let square = ALL_SQUARES[sq as usize];
    match (board.color_on(square), board.piece_on(square)) {
        (Some(c), Some(p)) => Some((c == Color::White, p.to_index() as u8)),
        _ => None,
    }
}

/// Relies on chess::ChessMove::get_source and chess::Square::to_index:
/// the source square of a move.  Every square the crate's safe API builds
/// indexes below 64.
#[verifier::external_body]
pub fn move_source(m: &ChessMove) -> (r: u8)
    ensures
        r == src_of(*m),
        r < 64,
{
    m.get_source().to_index() as u8
}

/// Relies on chess::ChessMove::get_dest and chess::Square::to_index:
/// the destination square of a move.  Every square the crate's safe API
/// builds indexes below 64.
#[verifier::external_body]
pub fn move_dest(m: &ChessMove) -> (r: u8)
    ensures
        r == dst_of(*m),
        r < 64,
{
    m.get_dest().to_index() as u8
}

/// Relies on chess::ChessMove::get_promotion and chess::Piece::to_index:
/// the promotion piece of a move, if any, as a code below 6.
#[verifier::external_body]
pub fn move_promotion(m: &ChessMove) -> (r: Option<u8>)
    ensures
        r == promo_of(*m),
        r matches Some(p) ==> p < 6,
{
    m.get_promotion().map(|p| p.to_index() as u8)
}

/// Relies on chess::Board::default: the standard starting position, in
/// which White is to move with the twenty opening moves the generator's
/// own documentation counts.
#[verifier::external_body]
pub fn starting_board() -> (r: Board)
    ensures
        white_of(r),
        moves_of(r).len() == 20,
{
    Board::default()
}

/// Relies on String::from_utf8: decoding ASCII bytes yields the string of
/// exactly those characters.
#[verifier::external_body]
pub fn ascii_string(bytes: &Vec<u8>) -> (r: String)
    requires
        forall|i: int| 0 <= i < bytes@.len() ==> bytes@[i] < 128,
    ensures
        r@ == bytes@.map_values(|b: u8| b as char),
{
    match String::from_utf8(bytes.clone()) {
        Ok(s) => s,
        Err(_) => String::new(),
    }
}

} // verus!
