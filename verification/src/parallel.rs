//! The parallel search: the moves at the root, cut into one run for each
//! worker of a thread pool.

use crate::count::{branch_sum, fit, lemma_branch_sum_concat, lemma_branch_sum_part, perft};
use crate::engine::{
    halfmove_clock_of, legal_moves, legal_moves_of, make_move, move_at, move_count, moves_in,
    successor_of, well_formed, MoveList,
};
use crate::search::{
    inner_perft, reaches, unmemoized, within_reach, Branch, Divide, PerftError, PerftReport,
};
use crate::table::{slot_count, HashTable, MEGABYTE};
use laura_core::Board;
use rayon::{ThreadPool, ThreadPoolBuildError, ThreadPoolBuilder};
use vstd::prelude::*;

verus! {

/// `rayon::ThreadPool`, handed from its builder to the search.
#[verifier::external_type_specification]
#[verifier::external_body]
pub struct ExThreadPool(rayon::ThreadPool);

/// `rayon::ThreadPoolBuildError`, which the search turns into
/// [`PerftError::ThreadPool`].
#[verifier::external_type_specification]
#[verifier::external_body]
pub struct ExThreadPoolBuildError(rayon::ThreadPoolBuildError);

/// `rayon::ThreadPoolBuilder::new`, `num_threads` and `build`: a pool of
/// `threads` workers, or the reason why the machine gave none. Nothing is
/// promised of which it will be.
#[verifier::external_body]
pub(crate) fn build_pool(threads: usize) -> (pool: Result<ThreadPool, ThreadPoolBuildError>) {
    ThreadPoolBuilder::new().num_threads(threads).build()
}

/// `rayon::ThreadPool::install` around `rayon::scope`, in which
/// `rayon::Scope::spawn` is called once for each of the numbers below `jobs`.
/// A spawned task runs `job` on its number and puts the outcome in that
/// number's place. The scope returns when every task that was spawned in it
/// has run to its end, so each place holds an outcome of `job` on its number.
#[verifier::external_body]
pub(crate) fn run_jobs<F: Fn(usize) -> Option<Divide> + Sync>(
    pool: &ThreadPool,
    jobs: usize,
    job: F,
) -> (outcomes: Vec<Option<Divide>>)
    requires
        forall|i: usize| i < jobs ==> call_requires(job, (i,)),
    ensures
        outcomes@.len() == jobs,
        forall|i: int| 0 <= i < jobs ==> call_ensures(job, (i as usize,), #[trigger] outcomes@[i]),
{
    let mut places: Vec<Option<Divide>> = (0..jobs).map(|_| None).collect();
    pool.install(|| rayon::scope(|s| {
        for (i, place) in places.iter_mut().enumerate() {
            let job = &job;
            s.spawn(move |_| *place = job(i));
        }
    }));
    places
}

/// The moves that one worker gets, of `moves` at the root and `threads`
/// workers: the quotient, rounded up.
pub open spec fn chunk_size_of(moves: nat, threads: nat) -> nat {
    ((moves + threads - 1) / threads as int) as nat
}

/// The runs that `moves` moves make when cut every `size` moves; the last
/// one may be shorter.
pub open spec fn chunk_count_of(moves: nat, size: nat) -> nat {
    if size == 0 {
        0
    } else {
        ((moves + size - 1) / size as int) as nat
    }
}

/// Where the run of number `index` begins.
pub open spec fn chunk_start(index: nat, size: nat) -> nat {
    index * size
}

/// Where the run of number `index` ends: `size` moves on, or at the last
/// move.
pub open spec fn chunk_end(index: nat, size: nat, moves: nat) -> nat {
    if (index + 1) * size <= moves {
        (index + 1) * size
    } else {
        moves
    }
}

/// The quotient of `n` by `d`, rounded up: the least number of runs of `d`
/// that cover `n`.
pub proof fn lemma_div_ceil(n: nat, d: nat)
    requires
        d >= 1,
    ensures
        ((n + d - 1) / d as int) * d >= n,
        n >= 1 ==> ((n + d - 1) / d as int - 1) * d < n,
        n >= 1 ==> (n + d - 1) / d as int >= 1,
        n == 0 ==> (n + d - 1) / d as int == 0,
        (n + d - 1) / d as int == if n % d == 0 { n / d } else { n / d + 1 },
        n % d != 0 ==> n / d + 1 <= n,
{
    let q = n as int / d as int;
    let r = n as int % d as int;
    vstd::arithmetic::div_mod::lemma_fundamental_div_mod(n as int, d as int);
    assert(n == d * q + r);
    assert(0 <= r < d) by {
        vstd::arithmetic::div_mod::lemma_mod_pos_bound(n as int, d as int);
    }
    assert(q >= 0) by {
        vstd::arithmetic::div_mod::lemma_div_pos_is_pos(n as int, d as int);
    }
    if r == 0 {
        assert(n + d - 1 == q * d + (d - 1)) by (nonlinear_arith)
            requires
                n == d * q + r,
                r == 0,
        ;
        vstd::arithmetic::div_mod::lemma_fundamental_div_mod_converse(
            n + d - 1,
            d as int,
            q,
            d - 1,
        );
        assert(q * d == n) by (nonlinear_arith)
            requires
                n == d * q + r,
                r == 0,
        ;
        assert((q - 1) * d == n - d) by (nonlinear_arith)
            requires
                q * d == n,
        ;
        assert(n >= 1 ==> q >= 1) by (nonlinear_arith)
            requires
                q * d == n,
                q >= 0,
                d >= 1,
        ;
    } else {
        assert(n + d - 1 == (q + 1) * d + (r - 1)) by (nonlinear_arith)
            requires
                n == d * q + r,
        ;
        vstd::arithmetic::div_mod::lemma_fundamental_div_mod_converse(
            n + d - 1,
            d as int,
            q + 1,
            r - 1,
        );
        assert((q + 1) * d == n + d - r) by (nonlinear_arith)
            requires
                n == d * q + r,
        ;
        assert(q * d == n - r) by (nonlinear_arith)
            requires
                n == d * q + r,
        ;
        assert(q <= q * d) by (nonlinear_arith)
            requires
                q >= 0,
                d >= 1,
        ;
    }
}

/// The number of moves that each worker gets.
pub fn chunk_size(num_moves: usize, num_threads: usize) -> (size: usize)
    requires
        num_threads >= 1,
    ensures
        size == chunk_size_of(num_moves as nat, num_threads as nat),
        num_moves >= 1 ==> size >= 1,
{
    proof {
        lemma_div_ceil(num_moves as nat, num_threads as nat);
    }
    if num_moves % num_threads == 0 {
        num_moves / num_threads
    } else {
        num_moves / num_threads + 1
    }
}

/// The leaves `depth` moves below the successors by `moves`, summed run by
/// run over the first `chunks` runs of `size` moves.
pub open spec fn chunked_sum(
    board: Board,
    moves: Seq<u16>,
    size: nat,
    depth: nat,
    chunks: nat,
) -> nat
    decreases chunks,
{
    if chunks == 0 {
        0
    } else {
        let last = (chunks - 1) as nat;
        chunked_sum(board, moves, size, depth, last) + branch_sum(
            board,
            moves.subrange(
                chunk_start(last, size) as int,
                chunk_end(last, size, moves.len()) as int,
            ),
            depth,
        )
    }
}

/// What the workers of a search with `threads` threads count together: the
/// root's moves cut into runs of `chunk_size_of` moves, each run summed by
/// itself, and the sums added up.
pub open spec fn parallel_total(board: Board, depth: nat, threads: nat) -> nat {
    let moves = legal_moves_of(board);
    let size = chunk_size_of(moves.len(), threads);
    chunked_sum(board, moves, size, (depth - 1) as nat, chunk_count_of(moves.len(), size))
}

/// The runs follow one another: run `index` begins where the `index` runs
/// before it end, and ends inside the moves.
pub proof fn lemma_chunk_bounds(index: nat, size: nat, moves: nat)
    requires
        size >= 1,
        index * size <= moves,
    ensures
        chunk_start(index, size) <= chunk_end(index, size, moves) <= moves,
        index >= 1 ==> chunk_end((index - 1) as nat, size, moves) == chunk_start(index, size),
        chunk_end(index, size, moves) - chunk_start(index, size) <= size,
        (index + 1) * size == index * size + size,
{
    assert((index + 1) * size == index * size + size) by (nonlinear_arith);
    if index >= 1 {
        assert((index - 1 + 1) * size == index * size);
    }
}

/// The sums of the first `chunks` runs add up to the sum over the moves that
/// these runs cover.
pub proof fn lemma_chunked_sum_covers(
    board: Board,
    moves: Seq<u16>,
    size: nat,
    depth: nat,
    chunks: nat,
)
    requires
        size >= 1,
        chunks >= 1 ==> (chunks - 1) * size <= moves.len(),
    ensures
        chunks >= 1 ==> chunked_sum(board, moves, size, depth, chunks) == branch_sum(
            board,
            moves.take(chunk_end((chunks - 1) as nat, size, moves.len()) as int),
            depth,
        ),
    decreases chunks,
{
    if chunks >= 1 {
        let last = (chunks - 1) as nat;
        let from = chunk_start(last, size) as int;
        let to = chunk_end(last, size, moves.len()) as int;
        lemma_chunk_bounds(last, size, moves.len());
        if last >= 1 {
            assert((last - 1) * size <= last * size) by (nonlinear_arith)
                requires
                    last >= 1,
                    size >= 1,
            ;
            lemma_chunked_sum_covers(board, moves, size, depth, last);
        } else {
            assert(moves.take(0) =~= Seq::<u16>::empty());
            assert(from == 0) by (nonlinear_arith)
                requires
                    from == last * size,
                    last == 0,
            ;
        }
        lemma_branch_sum_concat(board, moves.take(from), moves.subrange(from, to), depth);
        assert(moves.take(from) + moves.subrange(from, to) =~= moves.take(to));
    }
}

/// A search with any number of threads counts what the sequential search
/// counts: the leaves below the root. So two searches of one position to one
/// depth agree, whatever their numbers of threads.
pub proof fn lemma_thread_count_invariance(board: Board, depth: nat, first: nat, second: nat)
    requires
        depth >= 1,
        first >= 1,
        second >= 1,
    ensures
        parallel_total(board, depth, first) == perft(board, depth),
        parallel_total(board, depth, second) == perft(board, depth),
        parallel_total(board, depth, first) == parallel_total(board, depth, second),
{
    lemma_parallel_total(board, depth, first);
    lemma_parallel_total(board, depth, second);
}

/// The runs of a search with `threads` threads cover the root's moves, so
/// their sums add up to the leaves below the root.
pub proof fn lemma_parallel_total(board: Board, depth: nat, threads: nat)
    requires
        depth >= 1,
        threads >= 1,
    ensures
        parallel_total(board, depth, threads) == perft(board, depth),
{
    let moves = legal_moves_of(board);
    let size = chunk_size_of(moves.len(), threads);
    let chunks = chunk_count_of(moves.len(), size);
    if moves.len() == 0 {
        lemma_div_ceil(0, threads);
        assert(size == 0);
        assert(chunks == 0);
    } else {
        lemma_div_ceil(moves.len(), threads);
        assert(size >= 1);
        lemma_div_ceil(moves.len(), size);
        assert(chunks >= 1);
        lemma_chunked_sum_covers(board, moves, size, (depth - 1) as nat, chunks);
        lemma_chunk_bounds((chunks - 1) as nat, size, moves.len());
        assert(chunk_end((chunks - 1) as nat, size, moves.len()) == moves.len());
        assert(moves.take(moves.len() as int) =~= moves);
    }
}

/// The lines that a worker makes of the moves from `from` on: each names its
/// move and holds the worker's running count, the leaves `depth` moves below
/// the successors by the worker's moves up to and with this one.
pub open spec fn running_match(
    board: Board,
    moves: Seq<u16>,
    from: int,
    depth: nat,
    branches: Seq<Branch>,
) -> bool {
    forall|j: int|
        0 <= j < branches.len() ==> (#[trigger] branches[j]).mv == moves[from + j]
            && branches[j].nodes == branch_sum(board, moves.subrange(from, from + j + 1), depth)
}

/// What one worker counts of the run of moves from `from` to `to`; `None`
/// where it does not fit a `usize`.
pub open spec fn chunk_outcome(
    board: Board,
    from: int,
    to: int,
    depth: nat,
    outcome: Option<Divide>,
) -> bool {
    let moves = legal_moves_of(board);
    match outcome {
        Some(found) => {
            &&& fit(branch_sum(board, moves.subrange(from, to), depth)) == Some(found.total)
            &&& found.branches@.len() == to - from
            &&& running_match(board, moves, from, depth, found.branches@)
        },
        None => fit(branch_sum(board, moves.subrange(from, to), depth)) is None,
    }
}

/// One worker's share of a search `depth` moves deep: for each of the root's
/// moves from `from` to `to`, the leaves one move less below its successor,
/// added to a running count that is kept with the move.
pub fn count_chunk(
    board: &Board,
    moves: &MoveList,
    from: usize,
    to: usize,
    depth: usize,
    table: Option<&HashTable>,
) -> (outcome: Option<Divide>)
    requires
        well_formed(*board),
        depth >= 1,
        halfmove_clock_of(*board) + depth <= u8::MAX,
        moves_in(*moves) == legal_moves_of(*board),
        from <= to <= moves_in(*moves).len(),
    ensures
        outcome matches Some(found) ==> found.branches@.len() == to - from,
        unmemoized(table) || depth <= 2 ==> chunk_outcome(
            *board,
            from as int,
            to as int,
            (depth - 1) as nat,
            outcome,
        ),
{
    let ghost legal = legal_moves_of(*board);
    let ghost below = (depth - 1) as nat;
    let ghost exact = unmemoized(table) || depth <= 2;
    let mut branches: Vec<Branch> = Vec::new();
    let mut local_count: usize = 0;
    let mut i: usize = from;
    while i < to
        invariant
            depth >= 1,
            below == depth - 1,
            exact == (unmemoized(table) || depth <= 2),
            well_formed(*board),
            halfmove_clock_of(*board) + depth <= u8::MAX,
            legal == legal_moves_of(*board),
            moves_in(*moves) == legal,
            from <= i <= to <= legal.len(),
            branches@.len() == i - from,
            exact ==> local_count == branch_sum(*board, legal.subrange(from as int, i as int), below),
            exact ==> running_match(*board, legal, from as int, below, branches@),
        decreases to - i,
    {
        let mv: u16 = move_at(moves, i);
        assert(legal.contains(legal[i as int]));
        let board_res: Board = make_move(board, mv);
        proof {
            let run = legal.subrange(from as int, i + 1);
            assert(run.drop_last() =~= legal.subrange(from as int, i as int));
            assert(run.last() == legal[i as int]);
            let whole = legal.subrange(from as int, to as int);
            lemma_branch_sum_part(*board, whole, 0, i + 1 - from, below);
            assert(whole.subrange(0, i + 1 - from) =~= run);
        }
        let nodes: usize = match inner_perft(&board_res, depth - 1, table) {
            Some(nodes) => nodes,
            None => {
                return None;
            },
        };
        local_count = match local_count.checked_add(nodes) {
            Some(sum) => sum,
            None => {
                return None;
            },
        };
        branches.push(Branch { mv, nodes: local_count });
        i = i + 1;
    }
    Some(Divide { total: local_count, branches })
}

/// The lines of a parallel search over `moves`, cut into runs of `size`:
/// one for each move, in the moves' order, each with the running count of
/// the worker that had the move.
pub open spec fn parallel_lines_match(
    board: Board,
    moves: Seq<u16>,
    size: nat,
    depth: nat,
    branches: Seq<Branch>,
) -> bool {
    &&& branches.len() == moves.len()
    &&& forall|k: int|
        0 <= k < moves.len() ==> (#[trigger] branches[k]).mv == moves[k] && branches[k].nodes
            == branch_sum(
            board,
            moves.subrange(chunk_start((k / size as int) as nat, size) as int, k + 1),
            depth,
        )
}

/// Move `k` of run `index` is of that run: the quotient of `k` by the run's
/// size is `index`.
pub proof fn lemma_run_of_move(k: int, index: nat, size: nat)
    requires
        size >= 1,
        index * size <= k < index * size + size,
    ensures
        k / size as int == index,
{
    vstd::arithmetic::div_mod::lemma_fundamental_div_mod_converse(
        k,
        size as int,
        index as int,
        k - index * size,
    );
}

/// What a parallel search of `board` with `threads` threads hands back:
/// the leaves below the root with the workers' lines, or `None` where the
/// count does not fit a `usize`.
pub open spec fn split_outcome(board: Board, depth: nat, threads: nat, outcome: Option<Divide>) -> bool {
    let moves = legal_moves_of(board);
    match outcome {
        Some(found) => {
            &&& fit(perft(board, depth)) == Some(found.total)
            &&& found.total == parallel_total(board, depth, threads)
            &&& parallel_lines_match(
                board,
                moves,
                chunk_size_of(moves.len(), threads),
                (depth - 1) as nat,
                found.branches@,
            )
        },
        None => fit(perft(board, depth)) is None,
    }
}

/// Searches below the root's moves on a pool that is there already: cuts the
/// moves into a run for each of `num_threads` workers, has each run counted
/// by [`count_chunk`] on the pool, and adds the counts up when all are in.
/// The root has a move at least.
pub fn split_search(
    pool: &ThreadPool,
    board: &Board,
    moves: &MoveList,
    depth: usize,
    table: Option<&HashTable>,
    num_threads: usize,
) -> (outcome: Option<Divide>)
    requires
        well_formed(*board),
        depth >= 1,
        halfmove_clock_of(*board) + depth <= u8::MAX,
        moves_in(*moves) == legal_moves_of(*board),
        moves_in(*moves).len() >= 1,
        num_threads >= 1,
    ensures
        outcome matches Some(found) ==> found.branches@.len() == legal_moves_of(*board).len(),
        unmemoized(table) || depth <= 2 ==> split_outcome(
            *board,
            depth as nat,
            num_threads as nat,
            outcome,
        ),
{
    let num_moves: usize = move_count(moves);
    let size: usize = chunk_size(num_moves, num_threads);
    let jobs: usize = chunk_size(num_moves, size);
    let ghost legal = legal_moves_of(*board);
    let ghost below = (depth - 1) as nat;
    let ghost exact = unmemoized(table) || depth <= 2;
    proof {
        lemma_div_ceil(num_moves as nat, size as nat);
    }
    let job = |index: usize| -> (outcome: Option<Divide>)
        requires
            index < jobs,
        ensures
            outcome matches Some(found) ==> found.branches@.len() == chunk_end(
                index as nat,
                size as nat,
                num_moves as nat,
            ) - chunk_start(index as nat, size as nat),
            exact ==> chunk_outcome(
                *board,
                chunk_start(index as nat, size as nat) as int,
                chunk_end(index as nat, size as nat, num_moves as nat) as int,
                below,
                outcome,
            ),
        {
            proof {
                assert(index * size <= (jobs - 1) * size) by (nonlinear_arith)
                    requires
                        index <= jobs - 1,
                        size >= 1,
                ;
                lemma_chunk_bounds(index as nat, size as nat, num_moves as nat);
            }
            let from: usize = index * size;
            let to: usize = if num_moves - from < size {
                num_moves
            } else {
                from + size
            };
            count_chunk(board, moves, from, to, depth, table)
        };
    let outcomes: Vec<Option<Divide>> = run_jobs(pool, jobs, job);
    let mut branches: Vec<Branch> = Vec::new();
    let mut total: usize = 0;
    let mut index: usize = 0;
    while index < jobs
        invariant
            size >= 1,
            jobs >= 1,
            exact == (unmemoized(table) || depth <= 2),
            (jobs - 1) * size < num_moves <= jobs * size,
            num_moves == legal.len(),
            legal == legal_moves_of(*board),
            below == depth - 1,
            depth >= 1,
            index <= jobs,
            outcomes@.len() == jobs,
            forall|i: int|
                0 <= i < jobs ==> ((#[trigger] outcomes@[i]) matches Some(found)
                    ==> found.branches@.len() == chunk_end(
                    i as nat,
                    size as nat,
                    num_moves as nat,
                ) - chunk_start(i as nat, size as nat)),
            forall|i: int|
                0 <= i < jobs ==> (exact ==> chunk_outcome(
                    *board,
                    chunk_start(i as nat, size as nat) as int,
                    chunk_end(i as nat, size as nat, num_moves as nat) as int,
                    below,
                    #[trigger] outcomes@[i],
                )),
            index < jobs ==> branches@.len() == chunk_start(index as nat, size as nat),
            index == jobs ==> branches@.len() == num_moves,
            exact ==> total == chunked_sum(*board, legal, size as nat, below, index as nat),
            exact ==> forall|k: int|
                0 <= k < branches@.len() ==> (#[trigger] branches@[k]).mv == legal[k]
                    && branches@[k].nodes == branch_sum(
                    *board,
                    legal.subrange(chunk_start((k / size as int) as nat, size as nat) as int, k + 1),
                    below,
                ),
        decreases jobs - index,
    {
        let ghost from = chunk_start(index as nat, size as nat) as int;
        let ghost to = chunk_end(index as nat, size as nat, num_moves as nat) as int;
        proof {
            assert(index * size <= (jobs - 1) * size) by (nonlinear_arith)
                requires
                    index <= jobs - 1,
                    size >= 1,
            ;
            lemma_chunk_bounds(index as nat, size as nat, num_moves as nat);
            lemma_chunked_sum_covers(*board, legal, size as nat, below, (index + 1) as nat);
            lemma_branch_sum_part(*board, legal, 0, to, below);
            lemma_branch_sum_part(*board, legal, from, to, below);
            assert(legal.subrange(0, to) =~= legal.take(to));
            if index + 1 < jobs {
                assert((index + 1) * size <= (jobs - 1) * size) by (nonlinear_arith)
                    requires
                        index + 1 <= jobs - 1,
                        size >= 1,
                ;
            } else {
                assert((index + 1) * size >= num_moves);
            }
        }
        let found: &Divide = match &outcomes[index] {
            Some(found) => found,
            None => {
                return None;
            },
        };
        let sum: usize = match total.checked_add(found.total) {
            Some(sum) => sum,
            None => {
                return None;
            },
        };
        let ghost before = branches@;
        let mut j: usize = 0;
        while j < found.branches.len()
            invariant
                j <= found.branches@.len(),
                found.branches@.len() == to - from,
                branches@ =~= before + found.branches@.take(j as int),
            decreases found.branches@.len() - j,
        {
            branches.push(found.branches[j]);
            j = j + 1;
        }
        proof {
            assert(found.branches@.take(found.branches@.len() as int) =~= found.branches@);
            if exact {
                assert forall|k: int| 0 <= k < branches@.len() implies (#[trigger] branches@[k]).mv
                    == legal[k] && branches@[k].nodes == branch_sum(
                    *board,
                    legal.subrange(chunk_start((k / size as int) as nat, size as nat) as int, k + 1),
                    below,
                ) by {
                    if k >= from {
                        lemma_run_of_move(k, index as nat, size as nat);
                        assert(branches@[k] == found.branches@[k - from]);
                    } else {
                        assert(branches@[k] == before[k]);
                    }
                }
            }
        }
        total = sum;
        index = index + 1;
    }
    proof {
        lemma_parallel_total(*board, depth as nat, num_threads as nat);
    }
    Some(Divide { total, branches })
}

/// Searches below the root's moves on the pool that was built, and fails
/// where none was: whatever the builder handed back, this is what becomes of
/// it. The root has a move at least.
pub fn search_moves_on(
    built: Result<ThreadPool, ThreadPoolBuildError>,
    board: &Board,
    moves: &MoveList,
    depth: usize,
    table: Option<&HashTable>,
    num_threads: usize,
) -> (outcome: Result<Divide, PerftError>)
    requires
        well_formed(*board),
        depth >= 1,
        halfmove_clock_of(*board) + depth <= u8::MAX,
        moves_in(*moves) == legal_moves_of(*board),
        moves_in(*moves).len() >= 1,
        num_threads >= 1,
    ensures
        built is Err ==> (outcome matches Err(error) && error is ThreadPool),
        built is Ok ==> !(outcome matches Err(error) && error is ThreadPool),
        !(outcome matches Err(error) && error is Depth),
        outcome matches Ok(found) ==> found.branches@.len() == legal_moves_of(*board).len(),
        built is Ok && (unmemoized(table) || depth <= 2) ==> match outcome {
            Ok(found) => split_outcome(*board, depth as nat, num_threads as nat, Some(found)),
            Err(_) => fit(perft(*board, depth as nat)) is None,
        },
{
    match built {
        Ok(pool) => match split_search(&pool, board, moves, depth, table, num_threads) {
            Some(found) => Ok(found),
            None => Err(PerftError::Overflow),
        },
        Err(_) => Err(PerftError::ThreadPool),
    }
}

/// Searches on a pool that the caller had built, or failed to build. A root
/// without moves has no leaves, with or without a pool. Otherwise there is a
/// count only where there is a pool: that of the sequential search where no
/// table can answer, and at depth 1 and 2.
pub fn search_on(
    built: Result<ThreadPool, ThreadPoolBuildError>,
    board: &Board,
    depth: usize,
    table: Option<&HashTable>,
    num_threads: usize,
) -> (outcome: Result<Divide, PerftError>)
    requires
        well_formed(*board),
        depth >= 1,
        halfmove_clock_of(*board) + depth <= u8::MAX,
        num_threads >= 1,
    ensures
        legal_moves_of(*board).len() == 0 ==> (outcome matches Ok(found) && found.total == 0),
        legal_moves_of(*board).len() > 0 && built is Err ==> (outcome matches Err(error)
            && error is ThreadPool),
        built is Ok ==> !(outcome matches Err(error) && error is ThreadPool),
        !(outcome matches Err(error) && error is Depth),
        outcome matches Ok(found) ==> found.branches@.len() == legal_moves_of(*board).len(),
        (built is Ok || legal_moves_of(*board).len() == 0) && (unmemoized(table) || depth <= 2)
            ==> match outcome {
            Ok(found) => split_outcome(*board, depth as nat, num_threads as nat, Some(found)),
            Err(_) => fit(perft(*board, depth as nat)) is None,
        },
{
    let moves: MoveList = legal_moves(board);
    if move_count(&moves) == 0 {
        proof {
            lemma_parallel_total(*board, depth as nat, num_threads as nat);
        }
        return Ok(Divide { total: 0, branches: Vec::new() });
    }
    search_moves_on(built, board, &moves, depth, table, num_threads)
}

/// What a parallel search reports of `board`: the leaves below the root
/// and the workers' lines.
pub open spec fn split_report(board: Board, depth: nat, threads: nat, report: PerftReport) -> bool {
    split_outcome(
        board,
        depth,
        threads,
        Some(Divide { total: report.total, branches: report.branches }),
    )
}

/// The multi-threaded perft without a table. A root without moves has no
/// leaves, and no pool is asked for. Otherwise the count is that of the
/// sequential search, whatever the number of threads. The search fails where
/// it is too deep for the halfmove clock, where the pool cannot be built, and
/// where the count does not fit a `usize`.
pub fn perft_multi(board: &Board, depth: usize, num_threads: usize) -> (outcome: Result<
    PerftReport,
    PerftError,
>)
    requires
        well_formed(*board),
        depth >= 1,
        num_threads >= 1,
    ensures
        within_reach(*board, depth as nat) && legal_moves_of(*board).len() == 0
            ==> outcome is Ok,
        match outcome {
            Ok(report) => {
                &&& within_reach(*board, depth as nat)
                &&& split_report(*board, depth as nat, num_threads as nat, report)
                &&& report.slots == 0
                &&& report.used_slots == 0
            },
            Err(PerftError::Depth) => !within_reach(*board, depth as nat),
            Err(PerftError::Overflow) => within_reach(*board, depth as nat) && fit(
                perft(*board, depth as nat),
            ) is None,
            Err(PerftError::ThreadPool) => within_reach(*board, depth as nat) && legal_moves_of(
                *board,
            ).len() > 0,
        },
{
    if !reaches(board, depth) {
        return Err(PerftError::Depth);
    }
    let moves: MoveList = legal_moves(board);
    if move_count(&moves) == 0 {
        proof {
            lemma_parallel_total(*board, depth as nat, num_threads as nat);
        }
        return Ok(PerftReport { total: 0, branches: Vec::new(), slots: 0, used_slots: 0 });
    }
    match search_moves_on(build_pool(num_threads), board, &moves, depth, None, num_threads) {
        Ok(found) => Ok(
            PerftReport { total: found.total, branches: found.branches, slots: 0, used_slots: 0 },
        ),
        Err(error) => Err(error),
    }
}

/// The multi-threaded perft with a table of `size` megabytes, which the
/// workers share. A root without moves has no leaves. At depth 1 and 2, and
/// with a table of no slots, the count is exact; deeper it is as good as the
/// entries that the workers read back from the table. The search fails where
/// it is too deep for the halfmove clock, where the pool cannot be built, and
/// where a count does not fit a `usize`.
pub fn perft_hash_multi(board: &Board, depth: usize, size: usize, num_threads: usize) -> (outcome:
    Result<PerftReport, PerftError>)
    requires
        well_formed(*board),
        depth >= 1,
        size * MEGABYTE <= usize::MAX,
        num_threads >= 1,
    ensures
        within_reach(*board, depth as nat) && legal_moves_of(*board).len() == 0
            ==> outcome is Ok,
        match outcome {
            Ok(report) => {
                &&& within_reach(*board, depth as nat)
                &&& report.slots == slot_count(size as nat)
                &&& report.used_slots <= report.slots
                &&& report.branches@.len() == legal_moves_of(*board).len()
                &&& legal_moves_of(*board).len() == 0 ==> report.total == 0
                &&& slot_count(size as nat) == 0 || depth <= 2 ==> split_report(
                    *board,
                    depth as nat,
                    num_threads as nat,
                    report,
                )
            },
            Err(PerftError::Depth) => !within_reach(*board, depth as nat),
            Err(PerftError::Overflow) => within_reach(*board, depth as nat) && (slot_count(
                size as nat,
            ) == 0 || depth <= 2 ==> fit(perft(*board, depth as nat)) is None),
            Err(PerftError::ThreadPool) => within_reach(*board, depth as nat) && legal_moves_of(
                *board,
            ).len() > 0,
        },
{
    if !reaches(board, depth) {
        return Err(PerftError::Depth);
    }
    let mut table: HashTable = HashTable { table: Vec::new() };
    table.resize(size);
    let moves: MoveList = legal_moves(board);
    if move_count(&moves) == 0 {
        proof {
            lemma_parallel_total(*board, depth as nat, num_threads as nat);
        }
        return Ok(
            PerftReport {
                total: 0,
                branches: Vec::new(),
                slots: table.table.len(),
                used_slots: table.used_slots(),
            },
        );
    }
    match search_moves_on(
        build_pool(num_threads),
        board,
        &moves,
        depth,
        Some(&table),
        num_threads,
    ) {
        Ok(found) => Ok(
            PerftReport {
                total: found.total,
                branches: found.branches,
                slots: table.table.len(),
                used_slots: table.used_slots(),
            },
        ),
        Err(error) => Err(error),
    }
}

} // verus!
