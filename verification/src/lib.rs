//! Perft: counting the leaf nodes of a chess game tree to a fixed depth,
//! with a lock-free transposition table and a parallel root split.

pub mod count;
pub mod engine;
pub mod entry;
pub mod parallel;
pub mod search;
pub mod table;

pub use entry::HashEntry;
pub use parallel::{perft_hash_multi, perft_multi};
pub use search::{perft_hash_single, perft_nothash_single, Branch, PerftError, PerftReport};
pub use table::{HashTable, PackedData};
