//! The sequential search: a depth-first count that may consult and fill a
//! transposition table on its way.

use crate::count::{
    branch_sum, fit, lemma_branch_sum_part, lemma_branch_sum_step, lemma_perft_one, perft,
};
use crate::engine::{
    fingerprint, halfmove_clock, halfmove_clock_of, legal_moves, legal_moves_of, make_move, move_at, move_count,
    moves_in, successor_of, well_formed, MoveList,
};
use crate::entry::{HashEntry, MAX_NODES};
use crate::table::{slot_count, HashTable, MEGABYTE};
use laura_core::Board;
use vstd::prelude::*;

verus! {

/// One line of a divide: a move at the root and a node count for it.
#[derive(Clone, Copy, Debug)]
pub struct Branch {
    /// The move, as the generator packs it.
    pub mv: u16,
    /// The count for the move.
    pub nodes: usize,
}

/// A count with its divide.
#[derive(Debug)]
pub struct Divide {
    /// The leaves below the root.
    pub total: usize,
    /// One line for each move at the root, in the generator's order.
    pub branches: Vec<Branch>,
}

/// What a search hands back: the count, its divide, and how full the table
/// was at the end.
#[derive(Debug)]
pub struct PerftReport {
    /// The leaves below the root.
    pub total: usize,
    /// The lines of the divide, in the order in which they were made.
    pub branches: Vec<Branch>,
    /// The slots of the table that the search had; 0 where it had none.
    pub slots: usize,
    /// The slots that held a nonzero fingerprint when the search was over.
    pub used_slots: usize,
}

/// Why a search has no count to hand back.
#[derive(Clone, Copy, Debug)]
pub enum PerftError {
    /// The count does not fit a `usize`.
    Overflow,
    /// The thread pool could not be built.
    ThreadPool,
    /// The search is deeper than the board's halfmove clock can count.
    Depth,
}

/// The board's halfmove clock can count the moves of a search `depth` moves
/// deep.
pub open spec fn within_reach(board: Board, depth: nat) -> bool {
    halfmove_clock_of(board) + depth <= u8::MAX
}

/// Tests whether the board's halfmove clock can count the moves of a search
/// `depth` moves deep.
pub fn reaches(board: &Board, depth: usize) -> (enough: bool)
    ensures
        enough == within_reach(*board, depth as nat),
{
    let clock: u8 = halfmove_clock(board);
    depth <= 255 && clock as usize <= 255 - depth
}

/// The lines of a divide over `moves`: each names its move and holds the
/// leaves `depth` moves below that move's successor.
pub open spec fn branches_match(
    board: Board,
    moves: Seq<u16>,
    depth: nat,
    branches: Seq<Branch>,
) -> bool {
    &&& branches.len() == moves.len()
    &&& forall|i: int|
        0 <= i < moves.len() ==> (#[trigger] branches[i]).mv == moves[i] && branches[i].nodes
            == perft(successor_of(board, moves[i]), depth)
}

/// A search that no table can answer: none was given, or one without slots.
pub open spec fn unmemoized(table: Option<&HashTable>) -> bool {
    match table {
        None => true,
        Some(t) => t.table@.len() == 0,
    }
}

/// The count that a table's answer gives a search at `depth`: the entry's,
/// where there is an entry and it is of this depth.
pub open spec fn cached_answer(found: Option<HashEntry>, depth: nat) -> Option<usize> {
    match found {
        Some(entry) => if entry.depth == depth {
            Some(entry.nodes as usize)
        } else {
            None
        },
        None => None,
    }
}

/// Takes from what a probe found the count for a search at `depth`, if it
/// holds one.
pub fn cached_count(found: Option<HashEntry>, depth: usize) -> (count: Option<usize>)
    ensures
        count == cached_answer(found, depth as nat),
{
    match found {
        Some(entry) => if entry.get_depth() == depth {
            Some(entry.get_nodes())
        } else {
            None
        },
        None => None,
    }
}

/// Counts the leaves `depth` moves below `board`; `None` where the count does
/// not fit a `usize`.
///
/// At depth 0 the position is the one leaf; at depth 1 the leaves are its
/// legal moves. Deeper, a table is asked first, and an entry of this
/// fingerprint and this depth is taken at its word. Otherwise the count is the
/// sum over the legal moves, and the table is offered it.
///
/// Without a table the count is exact. With one, what comes back at depth 2
/// and more is as good as the entries that readers found.
pub fn inner_perft(board: &Board, depth: usize, table: Option<&HashTable>) -> (count: Option<
    usize,
>)
    requires
        well_formed(*board),
        halfmove_clock_of(*board) + depth <= u8::MAX,
    ensures
        depth == 0 ==> count == Some(1usize),
        depth == 1 ==> count == Some(legal_moves_of(*board).len() as usize),
        unmemoized(table) || depth <= 1 ==> count == fit(perft(*board, depth as nat)),
    decreases depth,
{
    if depth == 0 {
        return Some(1);
    }
    if depth <= 1 {
        let leaves: MoveList = legal_moves(board);
        proof {
            lemma_perft_one(*board);
        }
        return Some(move_count(&leaves));
    }
    let hash: u64 = fingerprint(board);
    if let Some(t) = table {
        if let Some(nodes) = cached_count(t.probe(hash), depth) {
            return Some(nodes);
        }
    }
    let moves: MoveList = legal_moves(board);
    let count: usize = move_count(&moves);
    let ghost legal = legal_moves_of(*board);
    let ghost below = (depth - 1) as nat;
    let mut total: usize = 0;
    let mut i: usize = 0;
    while i < count
        invariant
            depth >= 2,
            below == depth - 1,
            well_formed(*board),
            halfmove_clock_of(*board) + depth <= u8::MAX,
            legal == legal_moves_of(*board),
            moves_in(moves) == legal,
            count == legal.len(),
            i <= count,
            unmemoized(table) ==> total == branch_sum(*board, legal.take(i as int), below),
        decreases count - i,
    {
        let mv: u16 = move_at(&moves, i);
        assert(legal.contains(legal[i as int]));
        let board_res: Board = make_move(board, mv);
        proof {
            lemma_branch_sum_step(*board, legal, i as int, below);
            lemma_branch_sum_part(*board, legal, 0, i + 1, below);
            assert(legal.subrange(0, i + 1) =~= legal.take(i + 1));
        }
        let nodes: usize = match inner_perft(&board_res, depth - 1, table) {
            Some(nodes) => nodes,
            None => {
                return None;
            },
        };
        total = match total.checked_add(nodes) {
            Some(sum) => sum,
            None => {
                return None;
            },
        };
        i = i + 1;
    }
    assert(legal.take(count as int) =~= legal);
    if let Some(t) = table {
        if total as u64 <= MAX_NODES {
            t.add(hash, total as u64, depth as u8);
        }
    }
    Some(total)
}

/// Counts the leaves `depth` moves below `board` as [`inner_perft`] does, and
/// keeps for each move at the root the count that it brought; `None` where a
/// count does not fit a `usize`.
///
/// At depth 0 there is no move to list. Where the table answers for the root
/// itself, its count is taken and no line is made.
pub fn divide(board: &Board, depth: usize, table: Option<&HashTable>) -> (outcome: Option<Divide>)
    requires
        well_formed(*board),
        halfmove_clock_of(*board) + depth <= u8::MAX,
    ensures
        depth == 0 ==> (outcome matches Some(d) && d.total == 1 && d.branches@.len() == 0),
        unmemoized(table) || depth <= 1 ==> match outcome {
            Some(d) => fit(perft(*board, depth as nat)) == Some(d.total) && (depth >= 1
                ==> branches_match(
                *board,
                legal_moves_of(*board),
                (depth - 1) as nat,
                d.branches@,
            )),
            None => fit(perft(*board, depth as nat)) is None,
        },
{
    if depth == 0 {
        return Some(Divide { total: 1, branches: Vec::new() });
    }
    let hash: u64 = fingerprint(board);
    if depth >= 2 {
        if let Some(t) = table {
            if let Some(nodes) = cached_count(t.probe(hash), depth) {
                return Some(Divide { total: nodes, branches: Vec::new() });
            }
        }
    }
    let moves: MoveList = legal_moves(board);
    let count: usize = move_count(&moves);
    let ghost legal = legal_moves_of(*board);
    let ghost below = (depth - 1) as nat;
    let ghost exact = unmemoized(table) || depth <= 1;
    let mut branches: Vec<Branch> = Vec::new();
    let mut total: usize = 0;
    let mut i: usize = 0;
    while i < count
        invariant
            depth >= 1,
            below == depth - 1,
            exact == (unmemoized(table) || depth <= 1),
            well_formed(*board),
            halfmove_clock_of(*board) + depth <= u8::MAX,
            legal == legal_moves_of(*board),
            moves_in(moves) == legal,
            count == legal.len(),
            i <= count,
            exact ==> total == branch_sum(*board, legal.take(i as int), below),
            exact ==> branches_match(*board, legal.take(i as int), below, branches@),
        decreases count - i,
    {
        let mv: u16 = move_at(&moves, i);
        assert(legal.contains(legal[i as int]));
        let board_res: Board = make_move(board, mv);
        proof {
            lemma_branch_sum_step(*board, legal, i as int, below);
            lemma_branch_sum_part(*board, legal, 0, i + 1, below);
            assert(legal.subrange(0, i + 1) =~= legal.take(i + 1));
        }
        let nodes: usize = match inner_perft(&board_res, depth - 1, table) {
            Some(nodes) => nodes,
            None => {
                return None;
            },
        };
        total = match total.checked_add(nodes) {
            Some(sum) => sum,
            None => {
                return None;
            },
        };
        branches.push(Branch { mv, nodes });
        i = i + 1;
    }
    assert(legal.take(count as int) =~= legal);
    if depth >= 2 {
        if let Some(t) = table {
            if total as u64 <= MAX_NODES {
                t.add(hash, total as u64, depth as u8);
            }
        }
    }
    Some(Divide { total, branches })
}

/// The single-threaded perft without a table: the exact count of the leaves
/// `depth` moves below `board`, with its divide. It fails where the search
/// is too deep for the halfmove clock, and where the count does not fit a
/// `usize`.
pub fn perft_nothash_single(board: &Board, depth: usize) -> (outcome: Result<
    PerftReport,
    PerftError,
>)
    requires
        well_formed(*board),
    ensures
        match outcome {
            Ok(report) => {
                &&& within_reach(*board, depth as nat)
                &&& fit(perft(*board, depth as nat)) == Some(report.total)
                &&& depth == 0 ==> report.branches@.len() == 0
                &&& depth >= 1 ==> branches_match(
                    *board,
                    legal_moves_of(*board),
                    (depth - 1) as nat,
                    report.branches@,
                )
                &&& report.slots == 0
                &&& report.used_slots == 0
            },
            Err(PerftError::Depth) => !within_reach(*board, depth as nat),
            Err(PerftError::Overflow) => within_reach(*board, depth as nat) && fit(
                perft(*board, depth as nat),
            ) is None,
            Err(PerftError::ThreadPool) => false,
        },
{
    if !reaches(board, depth) {
        return Err(PerftError::Depth);
    }
    match divide(board, depth, None) {
        Some(found) => Ok(
            PerftReport { total: found.total, branches: found.branches, slots: 0, used_slots: 0 },
        ),
        None => Err(PerftError::Overflow),
    }
}

/// The single-threaded perft with a table of `size` megabytes, made for this
/// search and dropped after it. At depth 0 and 1, and with a table of no
/// slots, the count is exact; deeper it is as good as the entries that the
/// search read back from its table. It fails where the search is too deep
/// for the halfmove clock, and where a count does not fit a `usize`.
pub fn perft_hash_single(board: &Board, depth: usize, size: usize) -> (outcome: Result<
    PerftReport,
    PerftError,
>)
    requires
        well_formed(*board),
        size * MEGABYTE <= usize::MAX,
    ensures
        match outcome {
            Ok(report) => {
                &&& within_reach(*board, depth as nat)
                &&& report.slots == slot_count(size as nat)
                &&& report.used_slots <= report.slots
                &&& depth == 0 ==> report.total == 1 && report.branches@.len() == 0
                &&& slot_count(size as nat) == 0 || depth <= 1 ==> fit(
                    perft(*board, depth as nat),
                ) == Some(report.total) && (depth >= 1 ==> branches_match(
                    *board,
                    legal_moves_of(*board),
                    (depth - 1) as nat,
                    report.branches@,
                ))
            },
            Err(PerftError::Depth) => !within_reach(*board, depth as nat),
            Err(PerftError::Overflow) => within_reach(*board, depth as nat) && depth >= 1 && (
            slot_count(size as nat) == 0 || depth <= 1 ==> fit(perft(*board, depth as nat))
                is None),
            Err(PerftError::ThreadPool) => false,
        },
{
    if !reaches(board, depth) {
        return Err(PerftError::Depth);
    }
    let mut table: HashTable = HashTable { table: Vec::new() };
    table.resize(size);
    match divide(board, depth, Some(&table)) {
        Some(found) => Ok(
            PerftReport {
                total: found.total,
                branches: found.branches,
                slots: table.table.len(),
                used_slots: table.used_slots(),
            },
        ),
        None => Err(PerftError::Overflow),
    }
}

} // verus!
