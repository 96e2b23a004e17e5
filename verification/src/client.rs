//! The session adapter's pure parts: turning positions and search updates
//! into the wire-ready state record, and resolving a client's move request
//! against the legal moves of the current board.

use vstd::prelude::*;
use chess::Board;
use chess::ChessMove;
use crate::chessio::moves_of;
use crate::chessio::after_of;
use crate::chessio::white_of;
use crate::chessio::occupant_of;
use crate::chessio::src_of;
use crate::chessio::dst_of;
use crate::chessio::promo_of;
use crate::chessio::generate_moves;
use crate::chessio::apply_move;
use crate::chessio::occupant;
use crate::chessio::move_source;
use crate::chessio::move_dest;
use crate::chessio::move_promotion;
use crate::chessio::side_is_white;
use crate::chessio::starting_board;
use crate::chessio::ascii_string;
use crate::chessio::PAWN;
use crate::chessio::KNIGHT;
use crate::chessio::BISHOP;
use crate::chessio::ROOK;
use crate::chessio::QUEEN;
use crate::eval::Score;
use crate::minmax::ISUpdate;

verus! {

/// The file letter of a square, as an ASCII byte (`a`..`h`).
pub open spec fn sq_file_byte(sq: u8) -> u8 {
    (97 + sq % 8) as u8
}

/// The rank digit of a square, as an ASCII byte (`1`..`8`).
pub open spec fn sq_rank_byte(sq: u8) -> u8 {
    (49 + sq / 8) as u8
}

/// The algebraic name of a square, as characters (`e4`).
pub open spec fn sq_name(sq: u8) -> Seq<char> {
    seq![sq_file_byte(sq) as char, sq_rank_byte(sq) as char]
}

/// The algebraic name of a square with index below 64.
pub fn square_name(sq: u8) -> (r: String)
    requires
        sq < 64,
    ensures
        r@ == sq_name(sq),
{
    let mut bytes: Vec<u8> = Vec::new();
    bytes.push(97 + sq % 8);
    bytes.push(49 + sq / 8);
    let r = ascii_string(&bytes);
    proof {
        assert(r@ =~= sq_name(sq));
    }
    r
}

/// A move request matches a legal move when the square names agree and the
/// move carries no promotion or promotes to a queen.
pub open spec fn move_matches(m: ChessMove, from: Seq<char>, to: Seq<char>) -> bool {
    &&& sq_name(src_of(m)) == from
    &&& sq_name(dst_of(m)) == to
    &&& (promo_of(m) is None || promo_of(m) == Some(QUEEN))
}

/// The first legal move matching a `from`/`to` square-name pair, skipping
/// under-promotions.
pub fn find_move(moves: &Vec<ChessMove>, from: &String, to: &String) -> (r: Option<usize>)
    ensures
        r matches Some(i) ==> i < moves@.len() && move_matches(moves@[i as int], from@, to@)
            && (forall|j: int| 0 <= j < i as int ==> !move_matches(moves@[j], from@, to@)),
        r is None ==> forall|j: int|
            0 <= j < moves@.len() ==> !move_matches(moves@[j], from@, to@),
{
    let mut i: usize = 0;
    while i < moves.len()
        invariant
            i <= moves@.len(),
            forall|j: int| 0 <= j < i as int ==> !move_matches(moves@[j], from@, to@),
        decreases moves@.len() - i as int,
    {
        let m = moves[i];
        let src = move_source(&m);
        let dst = move_dest(&m);
        let promo_ok = match move_promotion(&m) {
            Option::None => true,
            Option::Some(p) => p == QUEEN,
        };
        if promo_ok {
            let fs = square_name(src);
            let ts = square_name(dst);
            if fs == *from && ts == *to {
                return Some(i);
            }
        }
        i = i + 1;
    }
    None
}

/// A move on the wire: source and destination square names.
pub struct WSMove {
    pub from: String,
    pub to: String,
}

impl WSMove {
    /// The wire form of a move.
    pub fn from_move(m: &ChessMove) -> (r: WSMove)
        ensures
            r.from@ == sq_name(src_of(*m)),
            r.to@ == sq_name(dst_of(*m)),
    {
        let from = square_name(move_source(m));
        let to = square_name(move_dest(m));
        WSMove { from, to }
    }
}

/// An inbound control message: play a move, or reset to the starting
/// position.
pub enum WSRMessage {
    Move { from: String, to: String },
    Reset,
}

/// The ASCII letter of a piece in a lineup entry: lowercase for Black,
/// uppercase for White.
pub open spec fn piece_letter(p: u8, white: bool) -> u8 {
    let lower: u8 = if p == PAWN {
        112
    } else if p == KNIGHT {
        110
    } else if p == BISHOP {
        98
    } else if p == ROOK {
        114
    } else if p == QUEEN {
        113
    } else {
        107
    };
    if white {
        (lower - 32) as u8
    } else {
        lower
    }
}

fn piece_letter_exec(p: u8, white: bool) -> (r: u8)
    ensures
        r == piece_letter(p, white),
        r < 128,
{
    let lower: u8 = if p == PAWN {
        112
    } else if p == KNIGHT {
        110
    } else if p == BISHOP {
        98
    } else if p == ROOK {
        114
    } else if p == QUEEN {
        113
    } else {
        107
    };
    if white {
        lower - 32
    } else {
        lower
    }
}

/// The views of a sequence of strings.
pub open spec fn views_of(v: Seq<String>) -> Seq<Seq<char>> {
    v.map_values(|s: String| s@)
}

/// One lineup entry, as characters: `<letter>@<square>`.
pub open spec fn lineup_entry(p: u8, white: bool, sq: u8) -> Seq<char> {
    seq![
        piece_letter(p, white) as char,
        64u8 as char,
        sq_file_byte(sq) as char,
        sq_rank_byte(sq) as char,
    ]
}

/// The lineup entries of one side, over the squares from `sq` up, in
/// ascending square order.
pub open spec fn lineup_color(b: Board, white: bool, sq: int) -> Seq<Seq<char>>
    decreases 64 - sq,
{
    if sq < 0 || sq >= 64 {
        Seq::empty()
    } else {
        let rest = lineup_color(b, white, sq + 1);
        match occupant_of(b, sq as u8) {
            Some(pc) => if pc.0 == white {
                seq![lineup_entry(pc.1, white, sq as u8)] + rest
            } else {
                rest
            },
            None => rest,
        }
    }
}

/// The whole lineup: White's pieces, then Black's, each side by ascending
/// square.
pub open spec fn lineup_spec(b: Board) -> Seq<Seq<char>> {
    lineup_color(b, true, 0) + lineup_color(b, false, 0)
}

fn lineup_one_color(board: &Board, white: bool) -> (r: Vec<String>)
    ensures
        views_of(r@) == lineup_color(*board, white, 0),
{
    let mut out: Vec<String> = Vec::new();
    let mut sq: u8 = 0;
    while sq < 64
        invariant
            sq <= 64,
            views_of(out@) + lineup_color(*board, white, sq as int) == lineup_color(
                *board,
                white,
                0,
            ),
        decreases 64 - sq as int,
    {
        let ghost lc_here = lineup_color(*board, white, sq as int);
        let ghost lc_next = lineup_color(*board, white, sq as int + 1);
        match occupant(board, sq) {
            Option::Some((c, p)) => {
                if c == white {
                    let letter = piece_letter_exec(p, white);
                    let mut bytes: Vec<u8> = Vec::new();
                    bytes.push(letter);
                    bytes.push(64);
                    bytes.push(97 + sq % 8);
                    bytes.push(49 + sq / 8);
                    let entry = ascii_string(&bytes);
                    proof {
                        assert(entry@ =~= lineup_entry(p, white, sq));
                    }
                    let ghost pre = out@;
                    out.push(entry);
                    proof {
                        assert(lc_here =~= seq![lineup_entry(p, white, sq)] + lc_next);
                        assert(views_of(out@) =~= views_of(pre).push(entry@));
                        assert(views_of(pre).push(entry@) + lc_next =~= views_of(pre) + lc_here);
                    }
                }
            },
            Option::None => {},
        }
        sq = sq + 1;
    }
    proof {
        assert(views_of(out@) + lineup_color(*board, white, 64) =~= views_of(out@));
    }
    out
}

/// Current pieces as `<letter>@<square>` strings: White's pieces then
/// Black's, each side by ascending square index.
pub fn lineup(board: &Board) -> (r: Vec<String>)
    ensures
        views_of(r@) == lineup_spec(*board),
{
    let mut out = lineup_one_color(board, true);
    let mut black = lineup_one_color(board, false);
    let ghost w = out@;
    let ghost bl = black@;
    out.append(&mut black);
    proof {
        assert(views_of(out@) =~= views_of(w) + views_of(bl));
    }
    out
}

/// The outbound state record: the legal moves, the piece lineup, the best
/// line found so far with its score, and the side to move.
pub struct WSState {
    pub legal_moves: Vec<WSMove>,
    pub lineup: Vec<String>,
    pub best_line: Vec<WSMove>,
    pub best_value: Score,
    pub side_to_move: &'static str,
}

/// Assemble the state record for a board and, when a search has reported,
/// its latest update.
pub fn compute_ws_state(board: Board, result: Option<ISUpdate>) -> (r: WSState)
    ensures
        r.legal_moves@.len() == moves_of(board).len(),
        forall|i: int|
            0 <= i < moves_of(board).len() ==> (#[trigger] r.legal_moves@[i]).from@ == sq_name(
                src_of(moves_of(board)[i]),
            ) && r.legal_moves@[i].to@ == sq_name(dst_of(moves_of(board)[i])),
        views_of(r.lineup@) == lineup_spec(board),
        white_of(board) ==> r.side_to_move@ == "white"@,
        !white_of(board) ==> r.side_to_move@ == "black"@,
        result is None ==> r.best_line@.len() == 0 && r.best_value == 0,
        result matches Some(u) ==> {
            &&& r.best_value == u.score
            &&& r.best_line@.len() == u.line@.len()
            &&& forall|i: int|
                0 <= i < u.line@.len() ==> (#[trigger] r.best_line@[i]).from@ == sq_name(
                    src_of(u.line@[i]),
                ) && r.best_line@[i].to@ == sq_name(dst_of(u.line@[i]))
        },
{
    let moves = generate_moves(&board);
    let mut legal_moves: Vec<WSMove> = Vec::new();
    let mut i: usize = 0;
    while i < moves.len()
        invariant
            i <= moves@.len(),
            moves@ == moves_of(board),
            legal_moves@.len() == i as int,
            forall|j: int|
                0 <= j < i as int ==> (#[trigger] legal_moves@[j]).from@ == sq_name(
                    src_of(moves@[j]),
                ) && legal_moves@[j].to@ == sq_name(dst_of(moves@[j])),
        decreases moves@.len() - i as int,
    {
        legal_moves.push(WSMove::from_move(&moves[i]));
        i = i + 1;
    }
    let side_to_move: &'static str = if side_is_white(&board) {
        "white"
    } else {
        "black"
    };
    let (best_line, best_value) = match result {
        Option::None => (Vec::new(), 0),
        Option::Some(update) => {
            let mut bl: Vec<WSMove> = Vec::new();
            let mut j: usize = 0;
            while j < update.line.len()
                invariant
                    j <= update.line@.len(),
                    bl@.len() == j as int,
                    forall|t: int|
                        0 <= t < j as int ==> (#[trigger] bl@[t]).from@ == sq_name(
                            src_of(update.line@[t]),
                        ) && bl@[t].to@ == sq_name(dst_of(update.line@[t])),
                decreases update.line@.len() - j as int,
            {
                bl.push(WSMove::from_move(&update.line[j]));
                j = j + 1;
            }
            (bl, update.score)
        },
    };
    WSState { legal_moves, lineup: lineup(&board), best_line, best_value, side_to_move }
}

/// Apply one inbound message to the current board: `Reset` yields the
/// starting position; a move request yields the position after the first
/// matching legal move, and `None` when no legal move matches.
pub fn apply_message(board: &Board, moves: &Vec<ChessMove>, msg: &WSRMessage) -> (r: Option<Board>)
    requires
        moves@ == moves_of(*board),
    ensures
        (msg matches WSRMessage::Reset ==> (r matches Some(b2) && white_of(b2) && moves_of(
            b2,
        ).len() == 20)),
        (msg matches WSRMessage::Move { from, to } ==> ((r is Some) <==> exists|j: int|
            0 <= j < moves@.len() && move_matches(#[trigger] moves@[j], from@, to@))),
        (msg matches WSRMessage::Move { from, to } ==> (r matches Some(b2) ==> exists|i: int|
            {
                &&& 0 <= i < moves@.len()
                &&& move_matches(#[trigger] moves@[i], from@, to@)
                &&& forall|j: int| 0 <= j < i ==> !move_matches(moves@[j], from@, to@)
                &&& b2 == after_of(*board, moves@[i])
            })),
{
    match msg {
        WSRMessage::Reset => Some(starting_board()),
        WSRMessage::Move { from, to } => {
            match find_move(moves, from, to) {
                Option::None => None,
                Option::Some(i) => {
                    let m = moves[i];
                    proof {
                        assert(moves@.contains(moves@[i as int]));
                    }
                    Some(apply_move(board, m))
                },
            }
        },
    }
}

} // verus!
