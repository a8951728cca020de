//! What a perft is: the number of leaves of the game tree below a position,
//! a fixed number of moves deep.

use crate::engine::{legal_moves_of, successor_of};
use laura_core::Board;
use vstd::prelude::*;

verus! {

/// The number of leaf nodes `depth` moves below `board`: 1 for the position
/// itself at depth 0, else the sum over its legal moves of the leaves one
/// move less below each successor.
pub open spec fn perft(board: Board, depth: nat) -> nat
    decreases depth, 0nat,
{
    if depth == 0 {
        1
    } else {
        branch_sum(board, legal_moves_of(board), (depth - 1) as nat)
    }
}

/// The leaves `depth` moves below the successors of `board` by `moves`,
/// summed.
pub open spec fn branch_sum(board: Board, moves: Seq<u16>, depth: nat) -> nat
    decreases depth, 1 + moves.len(),
{
    if moves.len() == 0 {
        0
    } else {
        branch_sum(board, moves.drop_last(), depth) + perft(
            successor_of(board, moves.last()),
            depth,
        )
    }
}

/// A count as the machine holds it: the number itself where a `usize` has
/// room for it, nothing where it has not.
pub open spec fn fit(count: nat) -> Option<usize> {
    if count <= usize::MAX {
        Some(count as usize)
    } else {
        None
    }
}

/// One more move adds its successor's leaves to the sum.
pub proof fn lemma_branch_sum_step(board: Board, moves: Seq<u16>, next: int, depth: nat)
    requires
        0 <= next < moves.len(),
    ensures
        branch_sum(board, moves.take(next + 1), depth) == branch_sum(
            board,
            moves.take(next),
            depth,
        ) + perft(successor_of(board, moves[next]), depth),
{
    let longer = moves.take(next + 1);
    assert(longer.drop_last() =~= moves.take(next));
    assert(longer.last() == moves[next]);
}

/// The sum over two runs of moves is the sum of the two sums.
pub proof fn lemma_branch_sum_concat(board: Board, left: Seq<u16>, right: Seq<u16>, depth: nat)
    ensures
        branch_sum(board, left + right, depth) == branch_sum(board, left, depth) + branch_sum(
            board,
            right,
            depth,
        ),
    decreases right.len(),
{
    if right.len() == 0 {
        assert(left + right =~= left);
    } else {
        lemma_branch_sum_concat(board, left, right.drop_last(), depth);
        assert((left + right).drop_last() =~= left + right.drop_last());
        assert((left + right).last() == right.last());
    }
}

/// The sum over a part of the moves is at most the sum over all of them.
pub proof fn lemma_branch_sum_part(board: Board, moves: Seq<u16>, from: int, to: int, depth: nat)
    requires
        0 <= from <= to <= moves.len(),
    ensures
        branch_sum(board, moves.subrange(from, to), depth) <= branch_sum(board, moves, depth),
{
    let head = moves.subrange(0, from);
    let part = moves.subrange(from, to);
    let tail = moves.subrange(to, moves.len() as int);
    assert(moves =~= head + part + tail);
    lemma_branch_sum_concat(board, head + part, tail, depth);
    lemma_branch_sum_concat(board, head, part, depth);
}

/// At depth 0 every move counts one leaf.
pub proof fn lemma_branch_sum_leaves(board: Board, moves: Seq<u16>)
    ensures
        branch_sum(board, moves, 0) == moves.len(),
    decreases moves.len(),
{
    if moves.len() > 0 {
        lemma_branch_sum_leaves(board, moves.drop_last());
        assert(perft(successor_of(board, moves.last()), 0) == 1);
    }
}

/// One move deep, the leaves are the legal moves.
pub proof fn lemma_perft_one(board: Board)
    ensures
        perft(board, 1) == legal_moves_of(board).len(),
{
    lemma_branch_sum_leaves(board, legal_moves_of(board));
}

/// A position without legal moves has no leaves below it at any depth of one
/// move or more.
pub proof fn lemma_perft_terminal(board: Board, depth: nat)
    requires
        legal_moves_of(board).len() == 0,
        depth >= 1,
    ensures
        perft(board, depth) == 0,
{
}

} // verus!
