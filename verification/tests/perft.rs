use laura_core::Board;
use lperft::parallel::{chunk_size, search_on};
use lperft::entry::HashEntry;
use lperft::search::{cached_count, divide, inner_perft, reaches};
use lperft::table::HashTable;
use lperft::{
    perft_hash_multi, perft_hash_single, perft_multi, perft_nothash_single, PerftError,
    PerftReport,
};
use std::str::FromStr;

const KNOWN: [(usize, usize); 4] = [(1, 20), (2, 400), (3, 8902), (4, 197_281)];

const CHECKMATE: &str = "rnb1kbnr/pppp1ppp/8/4p3/6Pq/5P2/PPPPP2P/RNBQKBNR w KQkq - 1 3";

const STALEMATE: &str = "7k/5Q2/6K1/8/8/8/8/8 b - - 0 1";

const LONE_KINGS: &str = "7k/8/8/8/8/8/8/K7 w - - 0 1";

fn total(outcome: Result<PerftReport, PerftError>) -> usize {
    match outcome {
        Ok(report) => report.total,
        Err(error) => panic!("no count: {:?}", error),
    }
}

fn small_table() -> HashTable {
    let mut table = HashTable { table: Vec::new() };
    table.resize(1);
    table
}

#[test]
fn depth_zero_counts_the_position_itself() {
    let board = Board::default();
    assert_eq!(inner_perft(&board, 0, None), Some(1));
    let table = small_table();
    assert_eq!(inner_perft(&board, 0, Some(&table)), Some(1));
    assert_eq!(inner_perft(&Board::kiwipete(), 0, None), Some(1));
    let mate = Board::from_str(CHECKMATE).unwrap();
    assert_eq!(inner_perft(&mate, 0, None), Some(1));
    assert_eq!(total(perft_nothash_single(&board, 0)), 1);
    assert_eq!(total(perft_hash_single(&board, 0, 1)), 1);
}

#[test]
fn known_values_sequential_without_table() {
    let board = Board::default();
    for (depth, nodes) in KNOWN {
        assert_eq!(total(perft_nothash_single(&board, depth)), nodes);
        assert_eq!(inner_perft(&board, depth, None), Some(nodes));
    }
}

#[test]
fn known_values_sequential_with_table() {
    let board = Board::default();
    for (depth, nodes) in KNOWN {
        assert_eq!(total(perft_hash_single(&board, depth, 1)), nodes);
    }
}

#[test]
fn known_values_parallel_without_table() {
    let board = Board::default();
    for (depth, nodes) in KNOWN {
        assert_eq!(total(perft_multi(&board, depth, 4)), nodes);
    }
}

#[test]
fn known_values_parallel_with_table() {
    let board = Board::default();
    for (depth, nodes) in KNOWN {
        assert_eq!(total(perft_hash_multi(&board, depth, 1, 4)), nodes);
    }
}

#[test]
fn kiwipete_values() {
    let board = Board::kiwipete();
    assert_eq!(total(perft_nothash_single(&board, 1)), 48);
    assert_eq!(total(perft_nothash_single(&board, 2)), 2039);
    assert_eq!(total(perft_nothash_single(&board, 3)), 97_862);
    assert_eq!(total(perft_hash_single(&board, 3, 1)), 97_862);
    assert_eq!(total(perft_multi(&board, 3, 3)), 97_862);
    assert_eq!(total(perft_hash_multi(&board, 3, 1, 3)), 97_862);
}

#[test]
fn table_does_not_change_the_count() {
    let board = Board::kiwipete();
    let table = small_table();
    for depth in 0..4 {
        let plain = inner_perft(&board, depth, None);
        assert_eq!(inner_perft(&board, depth, Some(&table)), plain);
        assert_eq!(inner_perft(&board, depth, Some(&table)), plain);
    }
    let empty = HashTable { table: Vec::new() };
    assert_eq!(inner_perft(&board, 3, Some(&empty)), Some(97_862));
    assert_eq!(total(perft_hash_single(&board, 3, 0)), 97_862);
}

#[test]
fn second_search_reads_the_root_from_the_table() {
    let board = Board::default();
    let table = small_table();
    assert_eq!(inner_perft(&board, 3, Some(&table)), Some(8902));
    let found = table.probe(board.zobrist.0);
    assert!(matches!(found, Some(e) if e.get_nodes() == 8902 && e.get_depth() == 3));
    let again = divide(&board, 3, Some(&table)).unwrap();
    assert_eq!(again.total, 8902);
    assert!(again.branches.is_empty());
}

#[test]
fn thread_count_does_not_change_the_count() {
    let board = Board::kiwipete();
    let sequential = total(perft_nothash_single(&board, 3));
    assert_eq!(sequential, 97_862);
    for threads in [1usize, 2, 3, 4, 5, 8] {
        assert_eq!(total(perft_multi(&board, 3, threads)), sequential);
        assert_eq!(total(perft_hash_multi(&board, 3, 1, threads)), sequential);
    }
}

#[test]
fn more_threads_than_moves_do_not_change_the_count() {
    let board = Board::from_str(LONE_KINGS).unwrap();
    assert_eq!(total(perft_nothash_single(&board, 1)), 3);
    let sequential = total(perft_nothash_single(&board, 4));
    for threads in [3usize, 4, 7] {
        let report = perft_multi(&board, 4, threads).unwrap();
        assert_eq!(report.total, sequential);
        assert_eq!(report.branches.len(), 3);
        assert_eq!(total(perft_hash_multi(&board, 4, 1, threads)), sequential);
    }
}

#[test]
fn terminal_position_has_no_leaves() {
    for fen in [CHECKMATE, STALEMATE] {
        let board = Board::from_str(fen).unwrap();
        for depth in 1..5 {
            assert_eq!(inner_perft(&board, depth, None), Some(0));
            assert_eq!(total(perft_nothash_single(&board, depth)), 0);
            assert_eq!(total(perft_hash_single(&board, depth, 1)), 0);
            assert_eq!(total(perft_multi(&board, depth, 2)), 0);
            assert_eq!(total(perft_hash_multi(&board, depth, 1, 2)), 0);
        }
    }
}

#[test]
fn terminal_position_makes_no_lines() {
    let board = Board::from_str(CHECKMATE).unwrap();
    let report = perft_multi(&board, 3, 4).unwrap();
    assert!(report.branches.is_empty());
    let report = perft_nothash_single(&board, 3).unwrap();
    assert!(report.branches.is_empty());
}

#[test]
fn divide_lists_each_root_move_with_its_count() {
    let board = Board::default();
    let report = perft_nothash_single(&board, 2).unwrap();
    assert_eq!(report.total, 400);
    assert_eq!(report.branches.len(), 20);
    for branch in report.branches.iter() {
        assert_eq!(branch.nodes, 20);
    }
    let report = perft_nothash_single(&board, 1).unwrap();
    assert_eq!(report.branches.len(), 20);
    for branch in report.branches.iter() {
        assert_eq!(branch.nodes, 1);
    }
    let report = perft_nothash_single(&board, 0).unwrap();
    assert!(report.branches.is_empty());
}

#[test]
fn divide_follows_the_generators_order_and_successors() {
    let board = Board::kiwipete();
    let moves = laura_core::gen_moves::<laura_core::AllMoves>(&board);
    let report = perft_nothash_single(&board, 3).unwrap();
    assert_eq!(report.branches.len(), moves.len());
    let mut sum = 0;
    for (branch, mv) in report.branches.iter().zip(moves.iter()) {
        assert_eq!(branch.mv, mv.0);
        let next = board.make_move(*mv);
        assert_ne!(next.zobrist.0, board.zobrist.0);
        assert_eq!(Some(branch.nodes), inner_perft(&next, 2, None));
        sum += branch.nodes;
    }
    assert_eq!(sum, 97_862);
}

#[test]
fn parallel_lines_hold_each_workers_running_count() {
    let board = Board::default();
    let sequential = perft_nothash_single(&board, 3).unwrap();
    for threads in [1usize, 2, 3, 4, 6, 8] {
        let size = chunk_size(20, threads);
        let report = perft_multi(&board, 3, threads).unwrap();
        assert_eq!(report.total, 8902);
        assert_eq!(report.branches.len(), 20);
        let mut running = 0;
        for (k, branch) in report.branches.iter().enumerate() {
            if k % size == 0 {
                running = 0;
            }
            running += sequential.branches[k].nodes;
            assert_eq!(branch.mv, sequential.branches[k].mv);
            assert_eq!(branch.nodes, running);
        }
    }
}

#[test]
fn chunk_size_rounds_up() {
    assert_eq!(chunk_size(20, 1), 20);
    assert_eq!(chunk_size(20, 3), 7);
    assert_eq!(chunk_size(20, 4), 5);
    assert_eq!(chunk_size(20, 20), 1);
    assert_eq!(chunk_size(20, 64), 1);
    assert_eq!(chunk_size(48, 5), 10);
    assert_eq!(chunk_size(0, 4), 0);
    assert_eq!(chunk_size(1, 4), 1);
}

#[test]
fn reports_tell_the_tables_size_and_use() {
    let board = Board::default();
    let report = perft_nothash_single(&board, 3).unwrap();
    assert_eq!((report.slots, report.used_slots), (0, 0));
    let report = perft_multi(&board, 3, 2).unwrap();
    assert_eq!((report.slots, report.used_slots), (0, 0));
    let report = perft_hash_single(&board, 3, 1).unwrap();
    assert_eq!(report.slots, 65_536);
    assert_eq!(report.used_slots, 21);
    let report = perft_hash_single(&board, 1, 2).unwrap();
    assert_eq!(report.slots, 131_072);
    assert_eq!(report.used_slots, 0);
    let report = perft_hash_multi(&board, 4, 1, 3).unwrap();
    assert_eq!(report.slots, 65_536);
    assert!(report.used_slots > 0 && report.used_slots <= 420);
    let report = perft_hash_multi(&board, 3, 0, 3).unwrap();
    assert_eq!((report.total, report.slots, report.used_slots), (8902, 0, 0));
}

#[test]
fn pool_that_cannot_be_built_is_an_error() {
    let board = Board::default();
    let failed = rayon::ThreadPoolBuilder::new()
        .num_threads(2)
        .spawn_handler(|_| Err(std::io::Error::new(std::io::ErrorKind::Other, "no threads")))
        .build();
    assert!(failed.is_err());
    let outcome = search_on(failed, &board, 2, None, 2);
    assert!(matches!(outcome, Err(PerftError::ThreadPool)));
}

#[test]
fn terminal_position_needs_no_pool() {
    let board = Board::from_str(CHECKMATE).unwrap();
    let failed = rayon::ThreadPoolBuilder::new()
        .num_threads(2)
        .spawn_handler(|_| Err(std::io::Error::new(std::io::ErrorKind::Other, "no threads")))
        .build();
    let outcome = search_on(failed, &board, 2, None, 2);
    assert!(matches!(outcome, Ok(found) if found.total == 0 && found.branches.is_empty()));
}

#[test]
fn search_on_a_given_pool_counts() {
    let board = Board::default();
    let table = small_table();
    for (depth, nodes) in KNOWN {
        let pool = rayon::ThreadPoolBuilder::new().num_threads(3).build();
        let outcome = search_on(pool, &board, depth, Some(&table), 3);
        assert!(matches!(outcome, Ok(found) if found.total == nodes && found.branches.len() == 20));
    }
}

const LATE_MATE: &str = "rnb1kbnr/pppp1ppp/8/4p3/6Pq/5P2/PPPPP2P/RNBQKBNR w KQkq - 100 60";

#[test]
fn halfmove_clock_bounds_the_depth() {
    let board = Board::default();
    assert!(reaches(&board, 0));
    assert!(reaches(&board, 255));
    assert!(!reaches(&board, 256));
    assert!(!reaches(&board, usize::MAX));
    let late = Board::from_str(LATE_MATE).unwrap();
    assert!(reaches(&late, 155));
    assert!(!reaches(&late, 156));
}

#[test]
fn search_beyond_the_halfmove_clock_is_an_error() {
    let late = Board::from_str(LATE_MATE).unwrap();
    assert!(matches!(perft_nothash_single(&late, 156), Err(PerftError::Depth)));
    assert!(matches!(perft_hash_single(&late, 156, 1), Err(PerftError::Depth)));
    assert!(matches!(perft_multi(&late, 156, 2), Err(PerftError::Depth)));
    assert!(matches!(perft_hash_multi(&late, 156, 1, 2), Err(PerftError::Depth)));
    assert!(matches!(perft_nothash_single(&Board::default(), 256), Err(PerftError::Depth)));
}

#[test]
fn search_up_to_the_halfmove_clock_is_done() {
    let late = Board::from_str(LATE_MATE).unwrap();
    assert_eq!(total(perft_nothash_single(&late, 155)), 0);
    assert_eq!(total(perft_hash_single(&late, 155, 1)), 0);
    assert_eq!(total(perft_multi(&late, 155, 2)), 0);
    assert_eq!(total(perft_hash_multi(&late, 155, 1, 2)), 0);
}

#[test]
fn cached_count_wants_an_entry_of_the_same_depth() {
    assert_eq!(cached_count(None, 3), None);
    assert_eq!(cached_count(Some(HashEntry::new(1, 8902, 3)), 3), Some(8902));
    assert_eq!(cached_count(Some(HashEntry::new(1, 8902, 3)), 2), None);
    assert_eq!(cached_count(Some(HashEntry::new(1, 8902, 3)), 4), None);
    assert_eq!(cached_count(Some(HashEntry::new(1, 8902, 3)), 259), None);
    assert_eq!(cached_count(Some(HashEntry::new(1, 0, 0)), 0), Some(0));
}

#[test]
fn wrong_entry_in_the_table_is_taken_at_its_word() {
    let board = Board::default();
    let table = small_table();
    table.add(board.zobrist.0, 7, 3);
    assert_eq!(inner_perft(&board, 3, Some(&table)), Some(7));
    assert_eq!(inner_perft(&board, 2, Some(&table)), Some(400));
    assert_eq!(inner_perft(&board, 1, Some(&table)), Some(20));
    assert_eq!(inner_perft(&board, 0, Some(&table)), Some(1));
}
