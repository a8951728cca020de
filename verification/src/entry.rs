//! Transposition-table entries and their two-word encoding.

use vstd::prelude::*;

verus! {

/// Bits by which the node count is shifted inside the payload word.
pub const NODES_OFFSET: u64 = 8;

/// The payload bits that hold the node count.
pub const NODES_MASK: u64 = 0xFFFF_FFFF_FFFF_FF00;

/// The payload bits that hold the depth.
pub const DEPTH_MASK: u64 = 0x0000_0000_0000_00FF;

/// The largest node count that a payload word can hold.
pub const MAX_NODES: u64 = 0x00FF_FFFF_FFFF_FFFF;

/// The payload word of a node count and a depth: the count in the upper 56
/// bits, the depth in the lowest byte.
pub open spec fn payload_of(nodes: u64, depth: u8) -> u64 {
    ((nodes * 256 + depth) % 0x1_0000_0000_0000_0000) as u64
}

/// The node count that a payload word holds.
pub open spec fn nodes_of(payload: u64) -> u64 {
    payload / 256
}

/// The depth that a payload word holds.
pub open spec fn depth_of(payload: u64) -> u8 {
    (payload % 256) as u8
}

proof fn lemma_payload_bits(nodes: u64, depth: u8)
    ensures
        (depth as u64) | (nodes << NODES_OFFSET) == payload_of(nodes, depth),
{
    let d: u64 = depth as u64;
    assert(d | (nodes << 8) == ((nodes * 256 + d) % 0x1_0000_0000_0000_0000) as u64) by (bit_vector)
        requires
            d < 256,
    ;
}

proof fn lemma_payload_fields(payload: u64)
    ensures
        (payload & NODES_MASK) >> NODES_OFFSET == nodes_of(payload),
        (payload & DEPTH_MASK) == depth_of(payload),
        nodes_of(payload) <= MAX_NODES,
{
    assert((payload & 0xFFFF_FFFF_FFFF_FF00) >> 8 == payload / 256) by (bit_vector);
    assert(payload & 0xFF == payload % 256) by (bit_vector);
    assert(payload / 256 <= 0x00FF_FFFF_FFFF_FFFF) by (bit_vector);
}

/// One cached result: the subtree below the position with fingerprint
/// `zobrist`, searched to `depth`, has `nodes` leaves.
#[derive(Clone, Copy, Debug)]
pub struct HashEntry {
    pub zobrist: u64,
    pub nodes: u64,
    pub depth: u8,
}

impl HashEntry {
    /// An entry's node count fits the 56 bits that a payload word has for it.
    pub open spec fn wf(self) -> bool {
        self.nodes <= MAX_NODES
    }

    /// The two words that stand for this entry in a slot: the key word
    /// (fingerprint XOR payload) and the payload word.
    pub open spec fn encode(self) -> (u64, u64) {
        let payload = payload_of(self.nodes, self.depth);
        (self.zobrist ^ payload, payload)
    }

    /// The entry that two slot words stand for, whatever they are.
    pub open spec fn decode(words: (u64, u64)) -> HashEntry {
        HashEntry {
            zobrist: words.0 ^ words.1,
            nodes: nodes_of(words.1),
            depth: depth_of(words.1),
        }
    }

    /// What a reader that looks for `hash` takes from two slot words: the
    /// entry they stand for if its fingerprint is `hash`, and nothing
    /// otherwise.
    pub open spec fn decode_checked(words: (u64, u64), hash: u64) -> Option<HashEntry> {
        if words.0 ^ words.1 == hash {
            Some(Self::decode(words))
        } else {
            None
        }
    }

    /// Whether this entry, as a slot's occupant, gives way to a new entry for
    /// `zobrist` at `depth`: always to another position, and to the same
    /// position only when the new search is deeper.
    pub open spec fn yields_to(self, zobrist: u64, depth: u8) -> bool {
        self.zobrist != zobrist || depth > self.depth
    }

    pub fn new(zobrist: u64, nodes: u64, depth: u8) -> (entry: HashEntry)
        ensures
            entry == (HashEntry { zobrist, nodes, depth }),
    {
        HashEntry { zobrist, nodes, depth }
    }

    #[inline(always)]
    pub fn get_depth(self) -> (depth: usize)
        ensures
            depth == self.depth,
    {
        self.depth as usize
    }

    #[inline(always)]
    pub fn get_nodes(self) -> (nodes: usize)
        ensures
            nodes == self.nodes as usize,
            self.nodes <= usize::MAX ==> nodes == self.nodes,
    {
        self.nodes as usize
    }

    #[inline(always)]
    pub fn get_zobrist(self) -> (zobrist: usize)
        ensures
            zobrist == self.zobrist as usize,
            self.zobrist <= usize::MAX ==> zobrist == self.zobrist,
    {
        self.zobrist as usize
    }

    /// Reads two slot words on behalf of a reader that looks for `hash`.
    pub fn from_words_checked(key: u64, payload: u64, hash: u64) -> (found: Option<HashEntry>)
        ensures
            found == Self::decode_checked((key, payload), hash),
    {
        proof {
            assert((key ^ hash == payload) <==> (key ^ payload == hash)) by (bit_vector);
        }
        if key ^ hash == payload {
            Some(HashEntry::from((key, payload)))
        } else {
            None
        }
    }

    /// Whether this entry is one that was stored: a slot that was never
    /// written decodes to fingerprint 0.
    pub fn is_stored(self) -> (stored: bool)
        ensures
            stored == (self.zobrist != 0),
    {
        self.zobrist != 0
    }

    /// Decides whether this entry, read from a slot, is overwritten by a new
    /// entry for `zobrist` at `depth`.
    pub fn replaced_by(self, zobrist: u64, depth: u8) -> (replace: bool)
        ensures
            replace == self.yields_to(zobrist, depth),
    {
        let same: bool = zobrist == self.zobrist;
        let deeper: bool = depth > self.depth;
        !same || deeper
    }
}

impl Default for HashEntry {
    fn default() -> (entry: HashEntry)
        ensures
            entry == (HashEntry { zobrist: 0, nodes: 0, depth: 0 }),
    {
        HashEntry { zobrist: 0, nodes: 0, depth: 0 }
    }
}

impl From<HashEntry> for (u64, u64) {
    #[inline(always)]
    fn from(value: HashEntry) -> (words: (u64, u64)) {
        proof {
            lemma_payload_bits(value.nodes, value.depth);
        }
        let data: u64 = value.depth as u64 | (value.nodes << NODES_OFFSET);

        (value.zobrist ^ data, data)
    }
}

impl vstd::std_specs::convert::FromSpecImpl<HashEntry> for (u64, u64) {
    open spec fn obeys_from_spec() -> bool {
        true
    }

    open spec fn from_spec(value: HashEntry) -> (u64, u64) {
        value.encode()
    }
}

impl From<(u64, u64)> for HashEntry {
    #[inline(always)]
    fn from(words: (u64, u64)) -> (entry: HashEntry) {
        let (zobrist, data) = words;
        proof {
            lemma_payload_fields(data);
        }
        Self {
            zobrist: zobrist ^ data,
            nodes: (data & NODES_MASK) >> NODES_OFFSET,
            depth: (data & DEPTH_MASK) as u8,
        }
    }
}

impl vstd::std_specs::convert::FromSpecImpl<(u64, u64)> for HashEntry {
    open spec fn obeys_from_spec() -> bool {
        true
    }

    open spec fn from_spec(words: (u64, u64)) -> HashEntry {
        HashEntry::decode(words)
    }
}

/// The words of a slot after an insertion of `(zobrist, nodes, depth)` found
/// `words` in it: the new entry's words where the occupant gives way, the old
/// words where it does not.
pub open spec fn slot_after_add(words: (u64, u64), zobrist: u64, nodes: u64, depth: u8) -> (
    u64,
    u64,
) {
    if HashEntry::decode(words).yields_to(zobrist, depth) {
        (HashEntry { zobrist, nodes, depth }).encode()
    } else {
        words
    }
}

/// Encoding an entry whose node count fits 56 bits and decoding the two words
/// gives the entry back, and a reader that looks for its fingerprint accepts
/// the words.
pub proof fn lemma_round_trip(entry: HashEntry)
    requires
        entry.wf(),
    ensures
        HashEntry::decode(entry.encode()) == entry,
        HashEntry::decode_checked(entry.encode(), entry.zobrist) == Some(entry),
{
    let z = entry.zobrist;
    let p = payload_of(entry.nodes, entry.depth);
    assert((z ^ p) ^ p == z) by (bit_vector);
}

/// Any two words decode to an entry whose node count fits 56 bits, and that
/// entry encodes to the same two words.
pub proof fn lemma_words_round_trip(words: (u64, u64))
    ensures
        HashEntry::decode(words).wf(),
        HashEntry::decode(words).encode() == words,
{
    let k = words.0;
    let p = words.1;
    assert((k ^ p) ^ p == k) by (bit_vector);
}

/// A torn read: the key word written for `first` beside the payload word
/// written for `second`. A reader accepts the pair for exactly one
/// fingerprint: that of `first`, changed in the bits in which the two
/// payloads differ. So the pair is rejected for the first fingerprint
/// whenever the two payloads differ, and for the second whenever the
/// fingerprints do not differ in the same bits as the payloads.
pub proof fn lemma_torn_read(first: HashEntry, second: HashEntry, hash: u64)
    ensures
        ({
            let torn = (first.encode().0, second.encode().1);
            let ours = first.encode().1;
            let theirs = second.encode().1;
            &&& HashEntry::decode_checked(torn, hash) is Some <==> hash == first.zobrist ^ ours
                ^ theirs
            &&& ours != theirs ==> HashEntry::decode_checked(torn, first.zobrist) is None
            &&& first.zobrist ^ second.zobrist != ours ^ theirs ==> HashEntry::decode_checked(
                torn,
                second.zobrist,
            ) is None
        }),
{
    let a = first.zobrist;
    let b = second.zobrist;
    let ours = first.encode().1;
    let theirs = second.encode().1;
    assert((a ^ ours) ^ theirs == a ^ ours ^ theirs) by (bit_vector);
    assert(ours != theirs ==> a ^ ours ^ theirs != a) by (bit_vector);
    assert(a ^ b != ours ^ theirs ==> a ^ ours ^ theirs != b) by (bit_vector);
}

/// The replacement policy, on one slot and two insertions in a row. The first
/// insertion, for fingerprint `f`, leaves an entry for `f` in the slot: the new
/// one where the occupant gave way, the occupant itself where it was for `f`
/// already and at least as deep. The second insertion then overwrites it
/// whenever it is for another fingerprint, or for `f` at a greater depth, and
/// leaves it alone when it is for `f` at the same or a smaller depth.
pub proof fn lemma_replacement_policy(
    words: (u64, u64),
    f: u64,
    n1: u64,
    d1: u8,
    g: u64,
    n2: u64,
    d2: u8,
)
    requires
        n1 <= MAX_NODES,
        n2 <= MAX_NODES,
    ensures
        ({
            let before = HashEntry::decode(words);
            let held = HashEntry::decode(slot_after_add(words, f, n1, d1));
            let last = HashEntry::decode(slot_after_add(slot_after_add(words, f, n1, d1), g, n2, d2));
            let new1 = HashEntry { zobrist: f, nodes: n1, depth: d1 };
            let new2 = HashEntry { zobrist: g, nodes: n2, depth: d2 };
            &&& held == if before.yields_to(f, d1) { new1 } else { before }
            &&& held.zobrist == f
            &&& g != f ==> last == new2
            &&& g == f && d2 > held.depth ==> last == new2
            &&& g == f && d2 <= held.depth ==> last == held
        }),
{
    lemma_round_trip(HashEntry { zobrist: f, nodes: n1, depth: d1 });
    lemma_round_trip(HashEntry { zobrist: g, nodes: n2, depth: d2 });
}

} // verus!
