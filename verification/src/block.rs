use vstd::prelude::*;
use crate::bytes::push_all;
use crate::clock::now_unix_seconds;
use crate::digest::{sha256_hex, sha256_hex_of};
use crate::numfmt::{dec_digits, u64_le_bytes, u64_to_dec, u64_to_le_bytes};

verus! {

/// The difficulty every genesis block is created with.
pub const GENESIS_DIFFICULTY: u32 = 2;

/// One block of the chain. `timestamp` is the ASCII decimal rendering of
/// Unix seconds; `previous_hash` and `hash` are 64-character lowercase hex
/// strings; `data` is the opaque textual form of the included transactions;
/// `difficulty` is the number of leading ASCII '0' characters the hash of a
/// mined block must begin with.
#[derive(Clone, Debug, PartialEq)]
pub struct Block {
    pub index: u64,
    pub timestamp: Vec<u8>,
    pub previous_hash: Vec<u8>,
    pub hash: Vec<u8>,
    pub data: Vec<u8>,
    pub nonce: u64,
    pub difficulty: u32,
}

/// The mathematical image of a block.
pub struct BlockV {
    pub index: u64,
    pub timestamp: Seq<u8>,
    pub previous_hash: Seq<u8>,
    pub hash: Seq<u8>,
    pub data: Seq<u8>,
    pub nonce: u64,
    pub difficulty: u32,
}

impl View for Block {
    type V = BlockV;

    open spec fn view(&self) -> BlockV {
        BlockV {
            index: self.index,
            timestamp: self.timestamp@,
            previous_hash: self.previous_hash@,
            hash: self.hash@,
            data: self.data@,
            nonce: self.nonce,
            difficulty: self.difficulty,
        }
    }
}

/// The byte string a block's hash digests: little-endian index, then the
/// timestamp, previous hash and data texts, then the little-endian nonce.
pub open spec fn hash_input(
    index: u64,
    timestamp: Seq<u8>,
    previous_hash: Seq<u8>,
    data: Seq<u8>,
    nonce: u64,
) -> Seq<u8> {
    u64_le_bytes(index) + timestamp + previous_hash + data + u64_le_bytes(nonce)
}

/// The hash a block's fields determine: the single source of truth that
/// construction, mining and validation all use.
pub open spec fn block_hash_of(b: BlockV) -> Seq<u8> {
    sha256_hex_of(hash_input(b.index, b.timestamp, b.previous_hash, b.data, b.nonce))
}

/// Hash integrity: the stored hash recomputes from the stored fields.
pub open spec fn block_hash_ok(b: BlockV) -> bool {
    b.hash == block_hash_of(b)
}

/// `h` begins with `d` ASCII '0' characters.
pub open spec fn leading_zeros_ok(h: Seq<u8>, d: u32) -> bool {
    d <= h.len() && forall|i: int| 0 <= i < d ==> h[i] == 48
}

/// Proof of work: the block's own hash meets its own difficulty.
pub open spec fn meets_target(b: BlockV) -> bool {
    leading_zeros_ok(b.hash, b.difficulty)
}

/// The images of a sequence of blocks.
pub open spec fn blocks_view(s: Seq<Block>) -> Seq<BlockV> {
    Seq::new(s.len(), |i: int| s[i]@)
}

/// A fresh copy of a block vector.
pub fn clone_blocks(v: &Vec<Block>) -> (r: Vec<Block>)
    ensures
        blocks_view(r@) == blocks_view(v@),
{
    let mut r: Vec<Block> = Vec::new();
    let mut i: usize = 0;
    while i < v.len()
        invariant
            i <= v@.len(),
            r@.len() == i,
            forall|j: int| 0 <= j < i ==> r@[j]@ == v@[j]@,
        decreases v@.len() - i,
    {
        r.push(v[i].clone_block());
        i += 1;
    }
    proof {
        assert(blocks_view(r@) =~= blocks_view(v@));
    }
    r
}

impl Block {
    /// The digest of the given fields, as 64 lowercase hex characters.
    pub fn calculate_hash(
        index: u64,
        timestamp: &Vec<u8>,
        previous_hash: &Vec<u8>,
        data: &Vec<u8>,
        nonce: u64,
    ) -> (r: Vec<u8>)
        ensures
            r@ == sha256_hex_of(hash_input(index, timestamp@, previous_hash@, data@, nonce)),
            r@.len() == 64,
    {
        let mut input = u64_to_le_bytes(index);
        push_all(&mut input, timestamp);
        push_all(&mut input, previous_hash);
        push_all(&mut input, data);
        let nonce_bytes = u64_to_le_bytes(nonce);
        push_all(&mut input, &nonce_bytes);
        proof {
            assert(input@ =~= hash_input(index, timestamp@, previous_hash@, data@, nonce));
        }
        sha256_hex(&input)
    }

    /// A block whose timestamp is given rather than read from the clock.
    /// The nonce starts at 0 and the hash is computed once; miners bump the
    /// nonce and recompute.
    pub fn new_at(
        index: u64,
        previous_hash: Vec<u8>,
        data: Vec<u8>,
        difficulty: u32,
        timestamp_secs: u64,
    ) -> (r: Block)
        ensures
            r.index == index,
            r@.timestamp == dec_digits(timestamp_secs as nat),
            r@.previous_hash == previous_hash@,
            r@.data == data@,
            r.nonce == 0,
            r.difficulty == difficulty,
            block_hash_ok(r@),
    {
        let timestamp = u64_to_dec(timestamp_secs);
        let hash = Block::calculate_hash(index, &timestamp, &previous_hash, &data, 0);
        Block { index, timestamp, previous_hash, hash, data, nonce: 0, difficulty }
    }

    /// A block stamped with the current Unix time.
    pub fn new(index: u64, previous_hash: Vec<u8>, data: Vec<u8>, difficulty: u32) -> (r: Block)
        ensures
            r.index == index,
            exists|t: u64| r@.timestamp == dec_digits(t as nat),
            r@.previous_hash == previous_hash@,
            r@.data == data@,
            r.nonce == 0,
            r.difficulty == difficulty,
            block_hash_ok(r@),
    {
        let now = now_unix_seconds();
        let r = Block::new_at(index, previous_hash, data, difficulty, now);
        proof {
            assert(r@.timestamp == dec_digits(now as nat));
        }
        r
    }

    /// A fresh copy of this block.
    pub fn clone_block(&self) -> (r: Block)
        ensures
            r@ == self@,
    {
        Block {
            index: self.index,
            timestamp: crate::bytes::copy_bytes(&self.timestamp),
            previous_hash: crate::bytes::copy_bytes(&self.previous_hash),
            hash: crate::bytes::copy_bytes(&self.hash),
            data: crate::bytes::copy_bytes(&self.data),
            nonce: self.nonce,
            difficulty: self.difficulty,
        }
    }

    /// Whether `hash` begins with `difficulty` ASCII '0' characters.
    pub fn hash_meets_target(hash: &Vec<u8>, difficulty: u32) -> (r: bool)
        ensures
            r == leading_zeros_ok(hash@, difficulty),
    {
        if (difficulty as usize) > hash.len() {
            return false;
        }
        let mut i: usize = 0;
        while i < difficulty as usize
            invariant
                i <= difficulty,
                difficulty <= hash@.len(),
                forall|j: int| 0 <= j < i ==> hash@[j] == 48,
            decreases difficulty as int - i,
        {
            if hash[i] != 48 {
                return false;
            }
            i += 1;
        }
        true
    }
}

} // verus!
