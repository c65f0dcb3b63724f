use vstd::prelude::*;

use crate::digest::{sha256_hex, sha256_hex_of};
use crate::encoding::{
    block_record, deserialize_record, fits_length, hash_input, lemma_block_record_len,
    lemma_block_record_prefix, pow256, serialize_hash_input, serialize_record,
};
use crate::error::ChainError;

verus! {

/// How many leading hex digits of a sealed block's hash must be `'0'`.
pub const TARGET_HEXS: usize = 7;

/// One record of the chain: payload, creation time in milliseconds since the
/// Unix epoch, the hash of its predecessor, the proof-of-work counter, and its
/// own hash over the other fields.
#[derive(Debug, Clone)]
pub struct Block {
    timestamp: u128,
    data: String,
    prev_block_hash: String,
    hash: String,
    nonce: i32,
}

/// The fields of a block as mathematical values.
pub struct BlockView {
    pub timestamp: u128,
    pub data: Seq<char>,
    pub prev_hash: Seq<char>,
    pub hash: Seq<char>,
    pub nonce: i32,
}

impl View for Block {
    type V = BlockView;

    closed spec fn view(&self) -> BlockView {
        BlockView {
            timestamp: self.timestamp,
            data: self.data@,
            prev_hash: self.prev_block_hash@,
            hash: self.hash@,
            nonce: self.nonce,
        }
    }
}

/// The hash committed to by a block with these fields.
pub open spec fn hash_of(prev: Seq<char>, data: Seq<char>, timestamp: u128, nonce: i32) -> Seq<
    char,
> {
    sha256_hex(hash_input(prev, data, timestamp, nonce))
}

/// The difficulty target: the first `TARGET_HEXS` characters are all `'0'`.
pub open spec fn meets_target(h: Seq<char>) -> bool {
    h.len() >= TARGET_HEXS && forall|i: int| 0 <= i < TARGET_HEXS ==> h[i] == '0'
}

/// No nonce in `0..end` gives a hash that meets the target.
pub open spec fn no_winner_below(prev: Seq<char>, data: Seq<char>, timestamp: u128, end: int) -> bool {
    forall|n: i32| 0 <= n < end ==> !meets_target(#[trigger] hash_of(prev, data, timestamp, n))
}

/// A sealed block: its hash is the 64-digit hash of its fields and meets the target.
pub open spec fn is_sealed(b: BlockView) -> bool {
    &&& b.hash.len() == 64
    &&& b.hash == hash_of(b.prev_hash, b.data, b.timestamp, b.nonce)
    &&& meets_target(b.hash)
}

/// A sealed block whose nonce is the first non-negative one that meets the target.
pub open spec fn is_mined(b: BlockView) -> bool {
    &&& is_sealed(b)
    &&& b.nonce >= 0
    &&& no_winner_below(b.prev_hash, b.data, b.timestamp, b.nonce as int)
}

/// The stored bytes of a block.
pub open spec fn record_of(b: BlockView) -> Seq<u8> {
    block_record(b.timestamp, b.data, b.prev_hash, b.hash, b.nonce)
}

/// A block whose stored record is shorter than a 64-bit length can count.
pub open spec fn fits(b: BlockView) -> bool {
    record_of(b).len() < pow256(8)
}

/// The hash of a block is fixed by its previous hash, data, timestamp and
/// nonce: recomputing it from equal fields gives the same hash, so two sealed
/// blocks with equal fields carry equal hashes.
pub proof fn lemma_hash_determined_by_fields(a: BlockView, b: BlockView)
    requires
        a.prev_hash == b.prev_hash,
        a.data == b.data,
        a.timestamp == b.timestamp,
        a.nonce == b.nonce,
    ensures
        hash_of(a.prev_hash, a.data, a.timestamp, a.nonce) == hash_of(
            b.prev_hash,
            b.data,
            b.timestamp,
            b.nonce,
        ),
        is_sealed(a) && is_sealed(b) ==> a.hash == b.hash,
{
}

/// A record decodes to one block only: when the record of `v` begins the
/// record of `w`, the two blocks are equal.
pub proof fn lemma_record_prefix_unique(v: BlockView, w: BlockView)
    requires
        record_of(v).is_prefix_of(record_of(w)),
        fits(w),
    ensures
        v == w,
{
    lemma_block_record_len(v.timestamp, v.data, v.prev_hash, v.hash, v.nonce);
    lemma_block_record_len(w.timestamp, w.data, w.prev_hash, w.hash, w.nonce);
    assert(fits_length(v.data) && fits_length(v.prev_hash) && fits_length(v.hash));
    assert(fits_length(w.data) && fits_length(w.prev_hash) && fits_length(w.hash));
    lemma_block_record_prefix(
        v.timestamp,
        v.data,
        v.prev_hash,
        v.hash,
        v.nonce,
        w.timestamp,
        w.data,
        w.prev_hash,
        w.hash,
        w.nonce,
    );
}


/// Relies on `std::time::SystemTime::elapsed` from the Unix epoch, read in
/// whole milliseconds; `None` where the clock reads earlier than the epoch.
#[verifier::external_body]
fn millis_since_epoch() -> (r: Option<u128>) {
    std::time::SystemTime::UNIX_EPOCH.elapsed().ok().map(|d| d.as_millis())
}

/// Whether `h` meets the difficulty target.
pub fn has_target_prefix(h: &str) -> (r: bool)
    ensures
        r == meets_target(h@),
{
    let len = h.unicode_len();
    if len < TARGET_HEXS {
        return false;
    }
    let mut i: usize = 0;
    while i < TARGET_HEXS
        invariant
            i <= TARGET_HEXS <= h@.len(),
            len == h@.len(),
            forall|j: int| 0 <= j < i ==> h@[j] == '0',
        decreases TARGET_HEXS - i,
    {
        if h.get_char(i) != '0' {
            return false;
        }
        i = i + 1;
    }
    true
}

impl Block {
    /// The block's hash.
    pub fn get_hash(&self) -> (r: String)
        ensures
            r@ == self@.hash,
    {
        self.hash.clone()
    }

    /// The hash of the block's predecessor; empty for a genesis block.
    pub fn get_prev_hash(&self) -> (r: String)
        ensures
            r@ == self@.prev_hash,
    {
        self.prev_block_hash.clone()
    }

    /// The block's payload.
    pub fn get_data(&self) -> (r: String)
        ensures
            r@ == self@.data,
    {
        self.data.clone()
    }

    /// Milliseconds since the Unix epoch at which mining started.
    pub fn get_timestamp(&self) -> (r: u128)
        ensures
            r == self@.timestamp,
    {
        self.timestamp
    }

    /// The proof-of-work counter.
    pub fn get_nonce(&self) -> (r: i32)
        ensures
            r == self@.nonce,
    {
        self.nonce
    }

    /// The bytes over which the block's hash is taken.
    fn prepare_hash_data(&self) -> (r: Result<Vec<u8>, ChainError>)
        ensures
            r is Ok,
            r matches Ok(v) ==> v@ == hash_input(self@.prev_hash, self@.data, self@.timestamp, self@.nonce),
            r matches Err(e) ==> e == ChainError::Encoding,
    {
        match serialize_hash_input(&self.prev_block_hash, &self.data, self.timestamp, self.nonce) {
            Some(v) => Ok(v),
            None => Err(ChainError::Encoding),
        }
    }

    /// Recomputes the hash from the block's fields.
    pub fn compute_hash(&self) -> (r: Result<String, ChainError>)
        ensures
            r is Ok,
            r matches Ok(h) ==> h@ == hash_of(self@.prev_hash, self@.data, self@.timestamp, self@.nonce),
            r matches Ok(h) ==> h@.len() == 64,
            r matches Err(e) ==> e == ChainError::Encoding,
    {
        let bytes = self.prepare_hash_data()?;
        Ok(sha256_hex_of(bytes.as_slice()))
    }

    /// Whether the hash recomputed from the block's fields meets the target.
    pub fn validate(&self) -> (r: Result<bool, ChainError>)
        ensures
            r is Ok,
            r matches Ok(b) ==> b == meets_target(
                hash_of(self@.prev_hash, self@.data, self@.timestamp, self@.nonce),
            ),
            r matches Err(e) ==> e == ChainError::Encoding,
    {
        let h = self.compute_hash()?;
        Ok(has_target_prefix(h.as_str()))
    }

    /// Searches the nonces `0..=last` in order for the first whose hash meets
    /// the target; on success the block holds that nonce and its hash.
    fn run_proof_of_work(&mut self, last: i32) -> (r: Result<bool, ChainError>)
        requires
            last >= 0,
        ensures
            r is Ok,
            final(self)@.timestamp == old(self)@.timestamp,
            final(self)@.data == old(self)@.data,
            final(self)@.prev_hash == old(self)@.prev_hash,
            r matches Ok(found) && found ==> is_mined(final(self)@) && final(self)@.nonce <= last,
            r matches Ok(found) && !found ==> no_winner_below(
                old(self)@.prev_hash,
                old(self)@.data,
                old(self)@.timestamp,
                last as int + 1,
            ),
            r matches Err(e) ==> e == ChainError::Encoding,
    {
        self.nonce = 0;
        loop
            invariant
                0 <= self.nonce <= last,
                self@.timestamp == old(self)@.timestamp,
                self@.data == old(self)@.data,
                self@.prev_hash == old(self)@.prev_hash,
                no_winner_below(self@.prev_hash, self@.data, self@.timestamp, self.nonce as int),
            decreases last - self.nonce,
        {
            let h = self.compute_hash()?;
            if has_target_prefix(h.as_str()) {
                self.hash = h;
                return Ok(true);
            }
            if self.nonce == last {
                return Ok(false);
            }
            self.nonce = self.nonce + 1;
        }
    }

    /// Mines a block over `data`, linked to `prev_block_hash` and stamped with
    /// `timestamp`, trying the nonces `0..=last`; `None` when none of them works.
    pub fn mine_at(data: String, prev_block_hash: String, timestamp: u128, last: i32) -> (r: Result<
        Option<Block>,
        ChainError,
    >)
        requires
            last >= 0,
        ensures
            r is Ok,
            r matches Ok(Some(b)) ==> {
                &&& b@.data == data@
                &&& b@.prev_hash == prev_block_hash@
                &&& b@.timestamp == timestamp
                &&& is_mined(b@)
                &&& b@.nonce <= last
            },
            r matches Ok(None) ==> no_winner_below(prev_block_hash@, data@, timestamp, last as int + 1),
            r matches Err(e) ==> e == ChainError::Encoding,
    {
        let mut block = Block { timestamp, data, prev_block_hash, hash: String::new(), nonce: 0 };
        if block.run_proof_of_work(last)? {
            Ok(Some(block))
        } else {
            Ok(None)
        }
    }

    /// Mines a block over `data` linked to `prev_block_hash`, stamped with the
    /// current time, searching every non-negative nonce.
    pub fn new_block(data: String, prev_block_hash: String) -> (r: Result<Block, ChainError>)
        ensures
            r matches Ok(b) ==> {
                &&& b@.data == data@
                &&& b@.prev_hash == prev_block_hash@
                &&& is_mined(b@)
            },
            r matches Err(e) ==> {
                ||| e == ChainError::Clock
                ||| e == ChainError::Exhausted && exists|ts: u128|
                    #[trigger] no_winner_below(prev_block_hash@, data@, ts, i32::MAX as int + 1)
            },
    {
        let timestamp = match millis_since_epoch() {
            Some(t) => t,
            None => return Err(ChainError::Clock),
        };
        let ghost prev = prev_block_hash@;
        let ghost d = data@;
        match Block::mine_at(data, prev_block_hash, timestamp, i32::MAX)? {
            Some(b) => Ok(b),
            None => {
                assert(no_winner_below(prev, d, timestamp, i32::MAX as int + 1));
                Err(ChainError::Exhausted)
            },
        }
    }

    /// Mines the first block of a chain: payload `"Genesis Block"`, no predecessor.
    pub fn new_genesis_block() -> (r: Result<Block, ChainError>)
        ensures
            r matches Ok(b) ==> {
                &&& b@.data == "Genesis Block"@
                &&& b@.prev_hash == Seq::<char>::empty()
                &&& is_mined(b@)
            },
            r matches Err(e) ==> {
                ||| e == ChainError::Clock
                ||| e == ChainError::Exhausted && exists|ts: u128|
                    #[trigger] no_winner_below(Seq::empty(), "Genesis Block"@, ts, i32::MAX as int + 1)
            },
    {
        Block::new_block(String::from_str("Genesis Block"), String::new())
    }

    /// The bytes under which the block is stored.
    pub fn to_record(&self) -> (r: Result<Vec<u8>, ChainError>)
        ensures
            r is Ok,
            r matches Ok(v) ==> v@ == record_of(self@),
            r matches Err(e) ==> e == ChainError::Encoding,
    {
        match serialize_record(
            self.timestamp,
            &self.data,
            &self.prev_block_hash,
            &self.hash,
            self.nonce,
        ) {
            Some(v) => Ok(v),
            None => Err(ChainError::Encoding),
        }
    }

    /// Reads a block from the front of stored bytes.
    pub fn from_record(bytes: &[u8]) -> (r: Result<Block, ChainError>)
        ensures
            r matches Ok(b) ==> record_of(b@).is_prefix_of(bytes@),
            r matches Err(e) ==> e == ChainError::Encoding && forall|v: BlockView|
                !(#[trigger] record_of(v)).is_prefix_of(bytes@),
    {
        match deserialize_record(bytes) {
            Some((timestamp, data, prev_block_hash, hash, nonce)) => Ok(
                Block { timestamp, data, prev_block_hash, hash, nonce },
            ),
            None => Err(ChainError::Encoding),
        }
    }
}

} // verus!
