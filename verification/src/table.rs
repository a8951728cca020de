//! The transposition table: a fixed array of lock-free slots, shared by
//! reference among the threads of a search.
//!
//! A slot is two atomic words. Neither word alone means anything; a reader
//! takes both, and trusts them only if they agree with the fingerprint it
//! looks for (see [`HashEntry::decode_checked`]). What a slot holds can change
//! under a shared reference at any moment, so the contracts below promise of a
//! value read from the table only what holds of every pair of words.

use crate::entry::{lemma_words_round_trip, HashEntry, MAX_NODES};
use std::sync::atomic::{AtomicU64, Ordering};
use vstd::prelude::*;

verus! {

/// The bytes that one slot takes: two 64-bit words.
pub const DATA_FIELD_SIZE: usize = 16;

/// The bytes in one megabyte of table budget.
pub const MEGABYTE: usize = 0x10_0000;

/// The number of slots that a budget of `mb_size` megabytes pays for.
pub open spec fn slot_count(mb_size: nat) -> nat {
    mb_size * 0x10_0000 / 16
}

/// The slot of a fingerprint in a table of `len` slots: the fingerprint,
/// taken as a fraction of 2^64, scaled to the table's length.
pub open spec fn slot_index(hash: u64, len: nat) -> nat {
    hash as nat * len / 0x1_0000_0000_0000_0000
}

/// The slot index is inside the table.
pub proof fn lemma_slot_index_in_range(hash: u64, len: nat)
    requires
        len > 0,
    ensures
        slot_index(hash, len) < len,
{
    let h = hash as nat;
    assert(h * len < 0x1_0000_0000_0000_0000 * len) by (nonlinear_arith)
        requires
            h < 0x1_0000_0000_0000_0000,
            len > 0,
    ;
    assert(h * len / 0x1_0000_0000_0000_0000 < len) by (nonlinear_arith)
        requires
            h * len < 0x1_0000_0000_0000_0000 * len,
    ;
}

/// One slot of the table.
#[derive(Debug)]
pub struct PackedData {
    /// The key word: the fingerprint XOR the payload word.
    pub zobrist: AtomicU64,
    /// The payload word: node count and depth.
    pub data: AtomicU64,
}

impl Default for PackedData {
    fn default() -> (slot: PackedData) {
        PackedData { zobrist: AtomicU64::new(0), data: AtomicU64::new(0) }
    }
}

impl PackedData {
    /// Reads the slot for a reader that looks for `hash`. Whatever the two
    /// words were, an entry that comes back has that fingerprint.
    #[inline(always)]
    pub fn read(&self, hash: u64) -> (found: Option<HashEntry>)
        ensures
            found matches Some(entry) ==> entry.zobrist == hash && entry.wf(),
    {
        let zobrist: u64 = self.zobrist.load(Ordering::Relaxed);
        let data: u64 = self.data.load(Ordering::Acquire);
        proof {
            lemma_words_round_trip((zobrist, data));
        }
        HashEntry::from_words_checked(zobrist, data, hash)
    }

    /// Reads the slot without asking whose entry it is.
    #[inline(always)]
    pub fn read_unchecked(&self) -> (entry: HashEntry)
        ensures
            entry.wf(),
    {
        let zobrist: u64 = self.zobrist.load(Ordering::Relaxed);
        let data: u64 = self.data.load(Ordering::Acquire);
        proof {
            lemma_words_round_trip((zobrist, data));
        }
        HashEntry::from((zobrist, data))
    }

    /// Stores an entry: the payload word first, the key word after it, so that
    /// no reader sees a key word made from a payload that is not yet there.
    #[inline(always)]
    pub fn write(&self, entry: HashEntry) {
        let (zobrist, data) = <(u64, u64)>::from(entry);

        self.data.store(data, Ordering::Release);
        self.zobrist.store(zobrist, Ordering::Relaxed);
    }

    /// Whether the fingerprint that the slot holds is nonzero.
    #[inline(always)]
    pub fn is_used(&self) -> bool {
        self.read_unchecked().is_stored()
    }
}

/// The table: its slots, allocated once and never moved while a search runs.
#[derive(Debug)]
pub struct HashTable {
    pub table: Vec<PackedData>,
}

impl Default for HashTable {
    fn default() -> (table: HashTable)
        ensures
            table.table@.len() == slot_count(HashTable::DEFAULT_SIZE as nat),
    {
        let mut hash_table: HashTable = Self { table: Vec::new() };
        hash_table.resize(Self::DEFAULT_SIZE);
        hash_table
    }
}

impl HashTable {
    /// The budget of a table made by `default`, in megabytes.
    pub const DEFAULT_SIZE: usize = 64;

    /// Replaces the slots by those that `mb_size` megabytes pay for, all
    /// zero. The budget in bytes has to fit the machine's word.
    pub fn resize(&mut self, mb_size: usize)
        requires
            mb_size * MEGABYTE <= usize::MAX,
        ensures
            final(self).table@.len() == slot_count(mb_size as nat),
    {
        let new_len: usize = mb_size * MEGABYTE / DATA_FIELD_SIZE;
        let mut table: Vec<PackedData> = Vec::new();
        while table.len() < new_len
            invariant
                table.len() <= new_len,
            decreases new_len - table.len(),
        {
            table.push(PackedData::default());
        }
        self.table = table;
    }

    /// The slot index of a fingerprint; 0 in a table without slots.
    #[inline(always)]
    pub fn get_index(&self, hash: u64) -> (index: usize)
        ensures
            index == slot_index(hash, self.table@.len()),
            self.table@.len() > 0 ==> index < self.table@.len(),
    {
        let wide: u128 = hash as u128;
        let len: u128 = self.table.len() as u128;
        proof {
            assert(wide * len <= 0xFFFF_FFFF_FFFF_FFFF * 0xFFFF_FFFF_FFFF_FFFF) by (nonlinear_arith)
                requires
                    wide <= 0xFFFF_FFFF_FFFF_FFFF,
                    len <= 0xFFFF_FFFF_FFFF_FFFF,
            ;
            if len > 0 {
                lemma_slot_index_in_range(hash, len as nat);
            } else {
                assert(wide * len == 0) by (nonlinear_arith)
                    requires
                        len == 0,
                ;
            }
        }
        let product: u128 = wide * len;
        assert(product >> 64 == product / 0x1_0000_0000_0000_0000) by (bit_vector);
        assert(product / 0x1_0000_0000_0000_0000 == slot_index(hash, self.table@.len()));

        (product >> 64) as usize
    }

    /// Looks up a fingerprint. An entry that comes back has that
    /// fingerprint; a table without slots has no entry for anyone.
    #[inline(always)]
    pub fn probe(&self, hash: u64) -> (found: Option<HashEntry>)
        ensures
            self.table@.len() == 0 ==> found is None,
            found matches Some(entry) ==> entry.zobrist == hash && entry.wf(),
    {
        if self.table.len() == 0 {
            return None;
        }
        self.table[self.get_index(hash)].read(hash)
    }

    /// Offers an entry to the slot of its fingerprint. The slot takes it if
    /// its occupant gives way (see [`HashEntry::yields_to`]); a table without
    /// slots takes nothing.
    #[inline(always)]
    pub fn add(&self, zobrist: u64, nodes: u64, depth: u8)
        requires
            nodes <= MAX_NODES,
    {
        if self.table.len() == 0 {
            return ;
        }
        let old_slot: &PackedData = &self.table[self.get_index(zobrist)];
        let old: HashEntry = old_slot.read_unchecked();

        if old.replaced_by(zobrist, depth) {
            old_slot.write(HashEntry::new(zobrist, nodes, depth));
        }
    }

    /// Counts the slots that hold a nonzero fingerprint.
    pub fn used_slots(&self) -> (used: usize)
        ensures
            used <= self.table@.len(),
    {
        let mut used: usize = 0;
        let mut i: usize = 0;
        while i < self.table.len()
            invariant
                used <= i <= self.table@.len(),
            decreases self.table@.len() - i,
        {
            if self.table[i].is_used() {
                used = used + 1;
            }
            i = i + 1;
        }
        used
    }
}

} // verus!
