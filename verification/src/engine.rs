//! The move generator, as far as the search needs it.
//!
//! Positions are `laura_core::Board` values, which the verifier cannot look
//! into. What the search knows of a position is named here: its fingerprint,
//! its legal moves in the generator's order, and the position that each of
//! them leads to. A move is held as the 16 bits that the generator packs it
//! into. Nothing in this file is proved: each function states what the
//! generator's source shows of the call it makes.

use laura_core::{enumerate_legal_moves, AllMoves, Board, Move};
use smallvec::SmallVec;
use vstd::prelude::*;

verus! {

/// `laura_core::Board`, carried through the search as it is.
#[verifier::external_type_specification]
#[verifier::external_body]
pub struct ExBoard(laura_core::Board);

/// The moves of one position, in a `smallvec::SmallVec` that keeps up to 128
/// of them off the heap. What the list holds is known only by the name
/// [`moves_in`], of which the functions below say what `SmallVec`'s source
/// shows.
#[verifier::external_body]
pub struct MoveList {
    moves: SmallVec<[u16; 128]>,
}

/// A position of a game of chess as the generator keeps it: the board's
/// redundant parts agree, each side has its king, and the side that is not to
/// move is not in check. On such boards the generator is defined; the search
/// asks for one at its root and the generator's moves keep it so below.
pub uninterp spec fn well_formed(board: Board) -> bool;

/// The Zobrist hash that the board carries.
pub uninterp spec fn fingerprint_of(board: Board) -> u64;

/// The board's count of half moves since the last capture or pawn move.
pub uninterp spec fn halfmove_clock_of(board: Board) -> u8;

/// The legal moves of the side to move, in the order in which the generator
/// hands them out.
pub uninterp spec fn legal_moves_of(board: Board) -> Seq<u16>;

/// The board after a move.
pub uninterp spec fn successor_of(board: Board, mv: u16) -> Board;

/// The moves that a move list holds, first to last.
pub uninterp spec fn moves_in(list: MoveList) -> Seq<u16>;

/// Reads the public field `zobrist` of `laura_core::Board`, and the number
/// inside it.
#[verifier::external_body]
pub(crate) fn fingerprint(board: &Board) -> (hash: u64)
    ensures
        hash == fingerprint_of(*board),
{
    board.zobrist.0
}

/// Reads the public field `fifty_move` of `laura_core::Board`.
#[verifier::external_body]
pub(crate) fn halfmove_clock(board: &Board) -> (clock: u8)
    ensures
        clock == halfmove_clock_of(*board),
{
    board.fifty_move
}

/// `laura_core::enumerate_legal_moves`, with the filter `AllMoves` and a
/// handler that appends each move's 16 bits to a `SmallVec` (`SmallVec::new`,
/// `SmallVec::push`). The generator looks up the king of the side to move
/// and panics where there is none, so the board has to be well formed. The
/// list that comes back holds the moves in the order of the calls.
#[verifier::external_body]
pub(crate) fn legal_moves(board: &Board) -> (list: MoveList)
    requires
        well_formed(*board),
    ensures
        moves_in(list) == legal_moves_of(*board),
{
    let mut moves: SmallVec<[u16; 128]> = SmallVec::new();
    enumerate_legal_moves::<AllMoves, _>(board, |mv: Move| {
        moves.push(mv.0);
        true
    });
    MoveList { moves }
}

/// `SmallVec::len`.
#[verifier::external_body]
pub(crate) fn move_count(list: &MoveList) -> (count: usize)
    ensures
        count == moves_in(*list).len(),
{
    list.moves.len()
}

/// Indexing a `SmallVec` through its `Deref` to a slice; it panics past the
/// end.
#[verifier::external_body]
pub(crate) fn move_at(list: &MoveList, index: usize) -> (mv: u16)
    requires
        index < moves_in(*list).len(),
    ensures
        mv == moves_in(*list)[index as int],
{
    list.moves[index]
}

/// `laura_core::Board::make_move`. It takes the piece off the move's source
/// square, which panics where none stands, and looks up the king of the side
/// that moves next, so the move has to be one of the board's legal moves. It
/// adds one to the halfmove clock unless the move is a capture or a pawn
/// move, which overflows at 255. A legal move from a well-formed board leads
/// to a well-formed board.
#[verifier::external_body]
pub(crate) fn make_move(board: &Board, mv: u16) -> (next: Board)
    requires
        well_formed(*board),
        legal_moves_of(*board).contains(mv),
        halfmove_clock_of(*board) < u8::MAX,
    ensures
        next == successor_of(*board, mv),
        well_formed(next),
        halfmove_clock_of(next) <= halfmove_clock_of(*board) + 1,
{
    board.make_move(Move(mv))
}

} // verus!
