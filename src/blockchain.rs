use vstd::prelude::*;
use vstd::utf8::{decode_utf8, encode_utf8};

use crate::block::{
    fits, is_mined, is_sealed, no_winner_below, lemma_record_prefix_unique, record_of, Block, BlockView,
};
use crate::error::ChainError;

verus! {

/// The handle of a `sled` key-value store, carried as an opaque value.
#[verifier::external_type_specification]
#[verifier::external_body]
pub struct ExDb(sled::Db);

/// What a store holds: the bytes of each key mapped to the bytes of its value.
/// Clones of a handle share one store, so this is the store's contents only
/// while the handle it is taken of is the only one in use.
pub uninterp spec fn store_contents(db: sled::Db) -> Map<Seq<u8>, Seq<u8>>;

/// The store key of a block: the UTF-8 bytes of its hash.
pub open spec fn key_of(hash: Seq<char>) -> Seq<u8> {
    encode_utf8(hash)
}

/// The reserved key whose value is the hash of the newest block.
pub open spec fn tip_key() -> Seq<u8> {
    encode_utf8("LAST"@)
}

/// `store` after `b` is written under its hash and made the tip.
pub open spec fn appended(store: Map<Seq<u8>, Seq<u8>>, b: BlockView) -> Map<Seq<u8>, Seq<u8>> {
    store.insert(key_of(b.hash), record_of(b)).insert(tip_key(), key_of(b.hash))
}

/// Relies on `sled::open`: opens the store at `path`, creating it when absent.
#[verifier::external_body]
fn open_store(path: &str) -> (r: Option<sled::Db>) {
    sled::open(path).ok()
}

/// Relies on `sled::Tree::get`: the value stored under `key`, if any.
#[verifier::external_body]
fn store_get(db: &sled::Db, key: &[u8]) -> (r: Option<Option<Vec<u8>>>)
    ensures
        r matches Some(Some(v)) ==> store_contents(*db).contains_key(key@) && store_contents(
            *db,
        )[key@] == v@,
        r matches Some(None) ==> !store_contents(*db).contains_key(key@),
{
    db.get(key).ok().map(|found| found.map(|v| v.to_vec()))
}

/// Relies on `sled::Tree::insert`: on success `key` maps to `value`, and every
/// other key keeps its value.
#[verifier::external_body]
fn store_insert(db: &mut sled::Db, key: &[u8], value: &[u8]) -> (r: bool)
    ensures
        r ==> store_contents(*final(db)) == store_contents(*old(db)).insert(key@, value@),
{
    db.insert(key, value).is_ok()
}

/// Relies on `sled::Tree::flush`: writes buffered changes to disk; the
/// contents are left as they are.
#[verifier::external_body]
fn store_flush(db: &sled::Db) -> (r: bool) {
    db.flush().is_ok()
}

/// Relies on `String::from_utf8`: the text whose UTF-8 encoding is `bytes`,
/// or `None` when `bytes` is not UTF-8.
#[verifier::external_body]
fn text_from_utf8(bytes: Vec<u8>) -> (r: Option<String>)
    ensures
        r matches Some(s) ==> encode_utf8(s@) == bytes@,
        r is None ==> forall|s: Seq<char>| #[trigger] encode_utf8(s) != bytes@,
{
    String::from_utf8(bytes).ok()
}

/// A hash-linked chain of blocks kept in a key-value store, with the hash of
/// its newest block.
pub struct Blockchain {
    tip: String,
    db: sled::Db,
}

/// The chain as mathematical values: the tip hash and the store's contents.
pub struct BlockchainView {
    pub tip: Seq<char>,
    pub store: Map<Seq<u8>, Seq<u8>>,
}

impl View for Blockchain {
    type V = BlockchainView;

    closed spec fn view(&self) -> BlockchainView {
        BlockchainView { tip: self.tip@, store: store_contents(self.db) }
    }
}

/// The store records the chain's tip under the reserved key.
pub open spec fn tip_recorded(c: BlockchainView) -> bool {
    c.store.contains_key(tip_key()) && c.store[tip_key()] == key_of(c.tip)
}

/// The hash under which the `i`-th block of a walk from `start` was looked up.
pub open spec fn link_before(start: Seq<char>, blocks: Seq<BlockView>, i: int) -> Seq<char> {
    if i == 0 {
        start
    } else {
        blocks[i - 1].prev_hash
    }
}

/// `b` decodes from the record stored under the non-empty hash `h`.
pub open spec fn read_from(store: Map<Seq<u8>, Seq<u8>>, h: Seq<char>, b: BlockView) -> bool {
    &&& h.len() > 0
    &&& store.contains_key(key_of(h))
    &&& record_of(b).is_prefix_of(store[key_of(h)])
}

/// `blocks` were read, in order, by following hash links back from `start`:
/// the first from the record under `start`, each later one from the record
/// under the previous block's `prev_hash`.
pub open spec fn is_walk(store: Map<Seq<u8>, Seq<u8>>, start: Seq<char>, blocks: Seq<BlockView>) -> bool {
    forall|i: int|
        0 <= i < blocks.len() ==> read_from(store, link_before(start, blocks, i), #[trigger] blocks[i])
}

/// The link after the last block of `blocks` cannot be followed: it is empty,
/// nothing is stored under it, or what is stored there decodes to no block.
pub open spec fn walk_ended(store: Map<Seq<u8>, Seq<u8>>, start: Seq<char>, blocks: Seq<BlockView>) -> bool {
    let h = link_before(start, blocks, blocks.len() as int);
    ||| h.len() == 0
    ||| !store.contains_key(key_of(h))
    ||| forall|w: BlockView| !(#[trigger] record_of(w)).is_prefix_of(store[key_of(h)])
}

/// `store` holds `chain`, newest first: each block's record under its own
/// non-empty hash, each block linked to the next one, the last with no
/// predecessor.
pub open spec fn stores_chain(store: Map<Seq<u8>, Seq<u8>>, chain: Seq<BlockView>) -> bool {
    &&& chain.len() >= 1
    &&& forall|i: int|
        0 <= i < chain.len() ==> {
            &&& fits(#[trigger] chain[i])
            &&& chain[i].hash.len() > 0
            &&& key_of(chain[i].hash) != tip_key()
            &&& store.contains_key(key_of(chain[i].hash))
            &&& store[key_of(chain[i].hash)] == record_of(chain[i])
        }
    &&& forall|i: int| 0 <= i < chain.len() - 1 ==> (#[trigger] chain[i]).prev_hash == chain[i + 1].hash
    &&& chain[chain.len() - 1].prev_hash.len() == 0
}

proof fn lemma_walk_matches_chain_at(
    store: Map<Seq<u8>, Seq<u8>>,
    chain: Seq<BlockView>,
    blocks: Seq<BlockView>,
    i: int,
)
    requires
        stores_chain(store, chain),
        is_walk(store, chain[0].hash, blocks),
        0 <= i < blocks.len(),
    ensures
        i < chain.len(),
        blocks[i] == chain[i],
    decreases i,
{
    let start = chain[0].hash;
    if i > 0 {
        lemma_walk_matches_chain_at(store, chain, blocks, i - 1);
        assert(chain[i - 1] == blocks[i - 1]);
        assert(read_from(store, link_before(start, blocks, i), blocks[i]));
        if i - 1 == chain.len() - 1 {
            assert(false);
        }
        assert(chain[i - 1].prev_hash == chain[i].hash);
    } else {
        assert(read_from(store, link_before(start, blocks, 0), blocks[0]));
    }
    assert(link_before(start, blocks, i) == chain[i].hash);
    assert(fits(chain[i]));
    lemma_record_prefix_unique(blocks[i], chain[i]);
}

/// Traversal of a stored chain of `N` blocks: every walk from its newest
/// hash reads the chain's blocks in order and no more than `N` of them, and
/// a walk that has ended yields exactly the `N` blocks. The chain itself is
/// such an ended walk.
pub proof fn lemma_walk_of_stored_chain(
    store: Map<Seq<u8>, Seq<u8>>,
    chain: Seq<BlockView>,
    blocks: Seq<BlockView>,
)
    requires
        stores_chain(store, chain),
        is_walk(store, chain[0].hash, blocks),
    ensures
        blocks.len() <= chain.len(),
        blocks == chain.subrange(0, blocks.len() as int),
        walk_ended(store, chain[0].hash, blocks) ==> blocks == chain,
        is_walk(store, chain[0].hash, chain),
        walk_ended(store, chain[0].hash, chain),
{
    let start = chain[0].hash;
    assert forall|i: int| 0 <= i < blocks.len() implies i < chain.len() && blocks[i] == chain[i] by {
        lemma_walk_matches_chain_at(store, chain, blocks, i);
    }
    if blocks.len() > chain.len() {
        lemma_walk_matches_chain_at(store, chain, blocks, chain.len() as int);
    }
    assert(blocks =~= chain.subrange(0, blocks.len() as int));
    if walk_ended(store, start, blocks) && blocks.len() < chain.len() {
        let k = blocks.len() as int;
        let h = link_before(start, blocks, k);
        if k > 0 {
            assert(blocks[k - 1] == chain[k - 1]);
            assert(chain[k - 1].prev_hash == chain[k].hash);
        }
        assert(h == chain[k].hash);
        assert(record_of(chain[k]).is_prefix_of(store[key_of(h)]));
        assert(false);
    }
    if walk_ended(store, start, blocks) {
        assert(blocks =~= chain);
    }
    assert forall|i: int| 0 <= i < chain.len() implies read_from(
        store,
        link_before(start, chain, i),
        #[trigger] chain[i],
    ) by {
        if i > 0 {
            assert(chain[i - 1].prev_hash == chain[i].hash);
        }
        assert(record_of(chain[i]).is_prefix_of(store[key_of(chain[i].hash)]));
    }
}


/// A sealed block's key is never the reserved tip key.
proof fn lemma_sealed_key_is_not_tip_key(b: BlockView)
    requires
        is_sealed(b),
    ensures
        key_of(b.hash) != tip_key(),
{
    broadcast use vstd::utf8::encode_utf8_decode_utf8;

    reveal_strlit("LAST");
    if key_of(b.hash) == tip_key() {
        assert(decode_utf8(key_of(b.hash)) == b.hash);
        assert(decode_utf8(tip_key()) == "LAST"@);
        assert(b.hash[0] == '0');
        assert("LAST"@[0] == 'L');
    }
}

/// Storing a sealed genesis block and making it the tip gives a store that
/// holds the one-block chain.
pub proof fn lemma_genesis_starts_chain(store: Map<Seq<u8>, Seq<u8>>, g: BlockView)
    requires
        is_sealed(g),
        fits(g),
        g.prev_hash.len() == 0,
    ensures
        stores_chain(appended(store, g), seq![g]),
        tip_recorded(BlockchainView { tip: g.hash, store: appended(store, g) }),
{
    lemma_sealed_key_is_not_tip_key(g);
    let c = seq![g];
    assert(c[0] == g);
}

/// Appending a sealed block linked to the newest block of a stored chain,
/// under a hash that no block of the chain has, gives a store that holds the
/// chain with the new block in front.
pub proof fn lemma_append_extends_chain(store: Map<Seq<u8>, Seq<u8>>, chain: Seq<BlockView>, b: BlockView)
    requires
        stores_chain(store, chain),
        is_sealed(b),
        fits(b),
        b.prev_hash == chain[0].hash,
        forall|i: int| 0 <= i < chain.len() ==> (#[trigger] chain[i]).hash != b.hash,
    ensures
        stores_chain(appended(store, b), seq![b] + chain),
        tip_recorded(BlockchainView { tip: b.hash, store: appended(store, b) }),
{
    broadcast use vstd::utf8::encode_utf8_decode_utf8;

    lemma_sealed_key_is_not_tip_key(b);
    let next = appended(store, b);
    let ext = seq![b] + chain;
    assert forall|i: int| 0 <= i < ext.len() implies {
        &&& fits(#[trigger] ext[i])
        &&& ext[i].hash.len() > 0
        &&& key_of(ext[i].hash) != tip_key()
        &&& next.contains_key(key_of(ext[i].hash))
        &&& next[key_of(ext[i].hash)] == record_of(ext[i])
    } by {
        if i > 0 {
            assert(ext[i] == chain[i - 1]);
            assert(chain[i - 1].hash != b.hash);
            assert(decode_utf8(key_of(chain[i - 1].hash)) == chain[i - 1].hash);
            assert(decode_utf8(key_of(b.hash)) == b.hash);
            assert(key_of(chain[i - 1].hash) != key_of(b.hash));
        }
    }
    assert forall|i: int| 0 <= i < ext.len() - 1 implies (#[trigger] ext[i]).prev_hash == ext[i
        + 1].hash by {
        if i > 0 {
            assert(ext[i] == chain[i - 1]);
            assert(ext[i + 1] == chain[i]);
        }
    }
    assert(ext[ext.len() - 1] == chain[chain.len() - 1]);
}

/// A chain opened on an empty store and then given two appended blocks holds
/// exactly those three blocks, newest first, each linked to the next: every
/// walk from the tip that has ended yields them in that order. The three
/// hashes are taken to be distinct.
pub proof fn lemma_genesis_then_two_appends(
    store: Map<Seq<u8>, Seq<u8>>,
    g: BlockView,
    a: BlockView,
    b: BlockView,
)
    requires
        is_mined(g) && fits(g) && g.prev_hash.len() == 0,
        is_mined(a) && fits(a) && a.prev_hash == g.hash,
        is_mined(b) && fits(b) && b.prev_hash == a.hash,
        g.hash != a.hash && g.hash != b.hash && a.hash != b.hash,
    ensures
        stores_chain(appended(appended(appended(store, g), a), b), seq![b, a, g]),
        forall|blocks: Seq<BlockView>|
            is_walk(appended(appended(appended(store, g), a), b), b.hash, blocks) && walk_ended(
                appended(appended(appended(store, g), a), b),
                b.hash,
                blocks,
            ) ==> blocks == seq![b, a, g],
{
    lemma_genesis_starts_chain(store, g);
    let c1 = seq![g];
    assert(c1[0] == g);
    lemma_append_extends_chain(appended(store, g), c1, a);
    let c2 = seq![a] + c1;
    assert(c2 =~= seq![a, g]);
    lemma_append_extends_chain(appended(appended(store, g), a), c2, b);
    let c3 = seq![b] + c2;
    assert(c3 =~= seq![b, a, g]);
    let st = appended(appended(appended(store, g), a), b);
    assert forall|blocks: Seq<BlockView>|
        is_walk(st, b.hash, blocks) && walk_ended(st, b.hash, blocks) implies blocks == seq![
        b,
        a,
        g,
    ] by {
        assert(c3[0] == b);
        lemma_walk_of_stored_chain(st, c3, blocks);
    }
}

/// Opening an initialized store again keeps the tip: two chains over the
/// same store contents that both record their tip there have the same tip.
pub proof fn lemma_reopen_keeps_tip(first: BlockchainView, second: BlockchainView)
    requires
        tip_recorded(first),
        tip_recorded(second),
        second.store == first.store,
    ensures
        second.tip == first.tip,
{
    broadcast use vstd::utf8::encode_utf8_decode_utf8;

    assert(decode_utf8(key_of(first.tip)) == first.tip);
    assert(decode_utf8(key_of(second.tip)) == second.tip);
}


/// A traversal of a chain from a starting hash back towards its genesis block.
/// It reads the store and never writes it.
pub struct ChainIter<'a> {
    current_hash: String,
    db: &'a sled::Db,
}

/// A traversal as mathematical values: the hash to look up next and the store.
pub struct ChainIterView {
    pub current: Seq<char>,
    pub store: Map<Seq<u8>, Seq<u8>>,
}

impl<'a> View for ChainIter<'a> {
    type V = ChainIterView;

    closed spec fn view(&self) -> ChainIterView {
        ChainIterView { current: self.current_hash@, store: store_contents(*self.db) }
    }
}

impl<'a> ChainIter<'a> {
    /// Takes one step given `stored`, the value found under the current hash
    /// (`None` where there is none): the block decoded from it, after which the
    /// traversal moves to that block's `prev_hash`. `None`, and no move, once
    /// the current hash is empty or when nothing decodes.
    pub fn advance(&mut self, stored: Option<Vec<u8>>) -> (r: Option<Block>)
        ensures
            final(self)@.store == old(self)@.store,
            r matches Some(b) ==> {
                &&& old(self)@.current.len() > 0
                &&& stored matches Some(v) && record_of(b@).is_prefix_of(v@)
                &&& final(self)@.current == b@.prev_hash
            },
            r is None ==> final(self)@.current == old(self)@.current,
            r is None ==> {
                ||| old(self)@.current.len() == 0
                ||| stored is None
                ||| stored matches Some(v) && forall|w: BlockView|
                    !(#[trigger] record_of(w)).is_prefix_of(v@)
            },
    {
        if self.current_hash.as_str().is_empty() {
            return None;
        }
        match stored {
            Some(bytes) => match Block::from_record(bytes.as_slice()) {
                Ok(b) => {
                    self.current_hash = b.get_prev_hash();
                    Some(b)
                },
                Err(_) => None,
            },
            None => None,
        }
    }

    /// The next block back, as `next` finds it, with a failed store read
    /// reported as an error rather than as the end.
    pub fn try_next(&mut self) -> (r: Result<Option<Block>, ChainError>)
        ensures
            final(self)@.store == old(self)@.store,
            r matches Ok(Some(b)) ==> {
                &&& read_from(old(self)@.store, old(self)@.current, b@)
                &&& final(self)@.current == b@.prev_hash
            },
            r matches Ok(None) ==> final(self)@.current == old(self)@.current && walk_ended(
                old(self)@.store,
                old(self)@.current,
                Seq::empty(),
            ),
            r matches Err(e) ==> e == ChainError::Store && final(self)@.current == old(self)@.current,
    {
        if self.current_hash.as_str().is_empty() {
            return Ok(None);
        }
        match store_get(self.db, self.current_hash.as_str().as_bytes()) {
            Some(stored) => Ok(self.advance(stored)),
            None => Err(ChainError::Store),
        }
    }

    /// The next block back: the one stored under the current hash, after
    /// which the traversal moves to that block's `prev_hash`. `None`, and no
    /// move, once the current hash is empty (the genesis block was passed), or
    /// when the lookup or the decoding fails.
    pub fn next(&mut self) -> (r: Option<Block>)
        ensures
            final(self)@.store == old(self)@.store,
            r matches Some(b) ==> {
                &&& read_from(old(self)@.store, old(self)@.current, b@)
                &&& final(self)@.current == b@.prev_hash
            },
            r is None ==> final(self)@.current == old(self)@.current,
    {
        match self.try_next() {
            Ok(found) => found,
            Err(_) => None,
        }
    }
}

/// A walk followed by one more link is a walk.
proof fn lemma_walk_extend(
    store: Map<Seq<u8>, Seq<u8>>,
    start: Seq<char>,
    blocks: Seq<BlockView>,
    b: BlockView,
    h: Seq<char>,
)
    requires
        is_walk(store, start, blocks),
        h == (if blocks.len() == 0 {
            start
        } else {
            blocks[blocks.len() - 1].prev_hash
        }),
        h.len() > 0,
        store.contains_key(key_of(h)),
        record_of(b).is_prefix_of(store[key_of(h)]),
    ensures
        is_walk(store, start, blocks.push(b)),
{
    let ext = blocks.push(b);
    assert forall|i: int| 0 <= i < ext.len() implies read_from(
        store,
        link_before(start, ext, i),
        #[trigger] ext[i],
    ) by {
        if i < blocks.len() {
            assert(ext[i] == blocks[i]);
            assert(link_before(start, ext, i) == link_before(start, blocks, i));
        } else {
            assert(ext[i] == b);
            assert(link_before(start, ext, i) == h);
        }
    }
}

/// The views of a sequence of blocks.
pub open spec fn views_of(blocks: Seq<Block>) -> Seq<BlockView> {
    blocks.map_values(|b: Block| b@)
}

impl Blockchain {
    /// Takes an opened store as a chain, given `found`, the value read under
    /// the reserved tip key (`None` where there is none). A value that is
    /// UTF-8 text becomes the tip and the store is left as it is; other bytes
    /// are an error. With no value, a genesis block is mined, stored, made the
    /// tip and flushed.
    pub fn from_lookup(db: sled::Db, found: Option<Vec<u8>>) -> (r: Result<Blockchain, ChainError>)
        ensures
            found matches Some(v) ==> ((exists|s: Seq<char>| #[trigger] encode_utf8(s) == v@) ==> r is Ok),
            found matches Some(v) ==> (r matches Ok(bc) ==> bc@.store == store_contents(db) && key_of(
                bc@.tip,
            ) == v@),
            found matches Some(v) ==> ((forall|s: Seq<char>| #[trigger] encode_utf8(s) != v@) ==> r
                == Err::<Blockchain, ChainError>(ChainError::Utf8)),
            found is None ==> (r matches Ok(bc) ==> exists|g: BlockView|
                {
                    &&& is_mined(g)
                    &&& g.data == "Genesis Block"@
                    &&& g.prev_hash == Seq::<char>::empty()
                    &&& bc@.tip == g.hash
                    &&& bc@.store == #[trigger] appended(store_contents(db), g)
                }),
            found is None ==> (r matches Err(e) ==> {
                ||| e == ChainError::Store
                ||| e == ChainError::Clock
                ||| e == ChainError::Exhausted
            }),
    {
        let mut db = db;
        match found {
            Some(hash) => match text_from_utf8(hash) {
                Some(tip) => Ok(Blockchain { tip, db }),
                None => Err(ChainError::Utf8),
            },
            None => {
                let ghost before = store_contents(db);
                let block = Block::new_genesis_block()?;
                let hash = block.get_hash();
                let record = block.to_record()?;
                if !store_insert(&mut db, hash.as_str().as_bytes(), record.as_slice()) {
                    return Err(ChainError::Store);
                }
                if !store_insert(&mut db, "LAST".as_bytes(), hash.as_str().as_bytes()) {
                    return Err(ChainError::Store);
                }
                if !store_flush(&db) {
                    return Err(ChainError::Store);
                }
                let bc = Blockchain { tip: hash, db };
                assert(bc@.store == appended(before, block@));
                Ok(bc)
            },
        }
    }

    /// Takes an opened store as a chain: reads the reserved tip key, then
    /// proceeds as `from_lookup`. The chain must hold the only handle on the
    /// store.
    pub fn from_store(db: sled::Db) -> (r: Result<Blockchain, ChainError>)
        ensures
            r matches Ok(bc) ==> tip_recorded(bc@),
            r matches Ok(bc) ==> (store_contents(db).contains_key(tip_key()) ==> bc@.store
                == store_contents(db)),
            r matches Ok(bc) ==> (!store_contents(db).contains_key(tip_key()) ==> exists|g: BlockView|
                {
                    &&& is_mined(g)
                    &&& g.data == "Genesis Block"@
                    &&& g.prev_hash == Seq::<char>::empty()
                    &&& bc@.tip == g.hash
                    &&& bc@.store == #[trigger] appended(store_contents(db), g)
                }),
            r matches Err(e) ==> {
                ||| e == ChainError::Store
                ||| e == ChainError::Utf8 && store_contents(db).contains_key(tip_key()) && forall|
                    s: Seq<char>,
                | #[trigger] encode_utf8(s) != store_contents(db)[tip_key()]
                ||| !store_contents(db).contains_key(tip_key()) && (e == ChainError::Clock || e
                    == ChainError::Exhausted)
            },
    {
        broadcast use vstd::utf8::encode_utf8_decode_utf8;

        match store_get(&db, "LAST".as_bytes()) {
            None => Err(ChainError::Store),
            Some(found) => {
                let ghost v = found;
                let r = Blockchain::from_lookup(db, found);
                proof {
                    if let Some(bytes) = v {
                        if exists|s: Seq<char>| #[trigger] encode_utf8(s) == bytes@ {
                        } else {
                            assert forall|s: Seq<char>| #[trigger] encode_utf8(s) != bytes@ by {}
                        }
                    }
                }
                r
            },
        }
    }

    /// Gives back the store handle, for the chain to be opened again.
    pub fn into_store(self) -> (r: sled::Db)
        ensures
            store_contents(r) == self@.store,
    {
        self.db
    }

    /// Opens, or creates, the chain stored at `path`.
    pub fn open(path: &str) -> (r: Result<Blockchain, ChainError>)
        ensures
            r matches Ok(bc) ==> tip_recorded(bc@),
    {
        match open_store(path) {
            Some(db) => Blockchain::from_store(db),
            None => Err(ChainError::Store),
        }
    }

    /// Opens, or creates, the chain stored under `data/blocks`.
    pub fn new() -> (r: Result<Blockchain, ChainError>)
        ensures
            r matches Ok(bc) ==> tip_recorded(bc@),
    {
        Blockchain::open("data/blocks")
    }

    /// The hash of the newest block.
    pub fn get_tip(&self) -> (r: String)
        ensures
            r@ == self@.tip,
    {
        self.tip.clone()
    }

    /// Mines a block over `data` linked to the tip given as `last`, the value
    /// read under the reserved tip key, writes it under its hash, makes it the
    /// tip and flushes the store. Bytes that are not UTF-8 text are an error
    /// that changes nothing.
    pub fn add_block_after(&mut self, last: Vec<u8>, data: String) -> (r: Result<(), ChainError>)
        ensures
            (forall|s: Seq<char>| #[trigger] encode_utf8(s) != last@) ==> r == Err::<
                (),
                ChainError,
            >(ChainError::Utf8) && final(self)@ == old(self)@,
            r is Ok ==> exists|b: BlockView|
                {
                    &&& is_mined(b)
                    &&& b.data == data@
                    &&& key_of(b.prev_hash) == last@
                    &&& final(self)@.tip == b.hash
                    &&& final(self)@.store == #[trigger] appended(old(self)@.store, b)
                },
            r is Ok ==> tip_recorded(final(self)@),
            r is Err ==> final(self)@.tip == old(self)@.tip,
            r matches Err(e) ==> {
                ||| e == ChainError::Utf8 && forall|s: Seq<char>| #[trigger] encode_utf8(s) != last@
                ||| e == ChainError::Clock
                ||| e == ChainError::Store
                ||| e == ChainError::Exhausted && exists|ts: u128, p: Seq<char>|
                    encode_utf8(p) == last@ && #[trigger] no_winner_below(
                        p,
                        data@,
                        ts,
                        i32::MAX as int + 1,
                    )
            },
    {
        let ghost before = self@;
        let prev = match text_from_utf8(last) {
            Some(s) => s,
            None => return Err(ChainError::Utf8),
        };
        let ghost p = prev@;
        let block = match Block::new_block(data, prev) {
            Ok(b) => b,
            Err(e) => return Err(e),
        };
        let hash = block.get_hash();
        let record = block.to_record()?;
        if !store_insert(&mut self.db, hash.as_str().as_bytes(), record.as_slice()) {
            return Err(ChainError::Store);
        }
        if !store_insert(&mut self.db, "LAST".as_bytes(), hash.as_str().as_bytes()) {
            return Err(ChainError::Store);
        }
        if !store_flush(&self.db) {
            return Err(ChainError::Store);
        }
        self.tip = hash;
        assert(self@.store == appended(before.store, block@));
        Ok(())
    }

    /// Mines a block over `data` linked to the tip recorded in the store,
    /// writes it under its hash, makes it the tip and flushes the store. A
    /// store with no recorded tip is a store error.
    pub fn add_block(&mut self, data: String) -> (r: Result<(), ChainError>)
        ensures
            r is Ok ==> exists|b: BlockView|
                {
                    &&& is_mined(b)
                    &&& b.data == data@
                    &&& old(self)@.store.contains_key(tip_key())
                    &&& key_of(b.prev_hash) == old(self)@.store[tip_key()]
                    &&& final(self)@.tip == b.hash
                    &&& final(self)@.store == #[trigger] appended(old(self)@.store, b)
                },
            r is Ok ==> tip_recorded(final(self)@),
            r is Ok && tip_recorded(old(self)@) ==> exists|b: BlockView|
                #[trigger] is_mined(b) && b.prev_hash == old(self)@.tip && final(self)@.tip == b.hash,
            r is Err ==> final(self)@.tip == old(self)@.tip,
            r matches Err(e) ==> e == ChainError::Utf8 ==> old(self)@.store.contains_key(tip_key())
                && forall|s: Seq<char>| #[trigger] encode_utf8(s) != old(self)@.store[tip_key()],
    {
        broadcast use vstd::utf8::encode_utf8_decode_utf8;

        let ghost before = self@;
        let tip_bytes = match store_get(&self.db, "LAST".as_bytes()) {
            Some(Some(v)) => v,
            _ => return Err(ChainError::Store),
        };
        let r = self.add_block_after(tip_bytes, data);
        proof {
            if r is Ok && tip_recorded(before) {
                let b = choose|b: BlockView|
                    {
                        &&& is_mined(b)
                        &&& b.data == data@
                        &&& key_of(b.prev_hash) == before.store[tip_key()]
                        &&& self@.tip == b.hash
                        &&& self@.store == #[trigger] appended(before.store, b)
                    };
                assert(decode_utf8(encode_utf8(b.prev_hash)) == b.prev_hash);
                assert(decode_utf8(encode_utf8(before.tip)) == before.tip);
                assert(is_mined(b) && b.prev_hash == before.tip && self@.tip == b.hash);
            }
        }
        r
    }

    /// A traversal that starts at the tip.
    pub fn iter(&self) -> (r: ChainIter<'_>)
        ensures
            r@.current == self@.tip,
            r@.store == self@.store,
    {
        ChainIter { current_hash: self.tip.clone(), db: &self.db }
    }

    /// A traversal that starts at `hash`.
    pub fn iter_from(&self, hash: String) -> (r: ChainIter<'_>)
        ensures
            r@.current == hash@,
            r@.store == self@.store,
    {
        ChainIter { current_hash: hash, db: &self.db }
    }

    /// Follows hash links from the tip; the flag tells whether the walk
    /// stopped without a failed store read.
    fn collect_blocks(&self) -> (r: (Vec<Block>, bool))
        ensures
            is_walk(self@.store, self@.tip, views_of(r.0@)),
            r.1 ==> r.0@.len() == usize::MAX || walk_ended(self@.store, self@.tip, views_of(r.0@)),
    {
        let mut it = self.iter();
        let mut out: Vec<Block> = Vec::new();
        while out.len() < usize::MAX
            invariant
                it@.store == self@.store,
                is_walk(self@.store, self@.tip, views_of(out@)),
                it@.current == link_before(self@.tip, views_of(out@), out@.len() as int),
            decreases usize::MAX - out.len(),
        {
            let ghost cur = it@.current;
            match it.try_next() {
                Ok(Some(b)) => {
                    let ghost prior = out@;
                    out.push(b);
                    proof {
                        lemma_walk_extend(self@.store, self@.tip, views_of(prior), b@, cur);
                        assert(views_of(out@) =~= views_of(prior).push(b@));
                    }
                },
                Ok(None) => {
                    return (out, true);
                },
                Err(_) => {
                    return (out, false);
                },
            }
        }
        (out, true)
    }

    /// The blocks reached from the tip by following hash links, newest first,
    /// up to the first link that cannot be followed or whose lookup fails.
    pub fn blocks(&self) -> (r: Vec<Block>)
        ensures
            is_walk(self@.store, self@.tip, views_of(r@)),
    {
        self.collect_blocks().0
    }

    /// The blocks reached from the tip, newest first, up to the first link
    /// that cannot be followed; an error when a store read fails on the way.
    pub fn try_blocks(&self) -> (r: Result<Vec<Block>, ChainError>)
        ensures
            r matches Ok(v) ==> is_walk(self@.store, self@.tip, views_of(v@)),
            r matches Ok(v) ==> v@.len() == usize::MAX || walk_ended(
                self@.store,
                self@.tip,
                views_of(v@),
            ),
            r matches Err(e) ==> e == ChainError::Store,
    {
        let (v, complete) = self.collect_blocks();
        if complete {
            Ok(v)
        } else {
            Err(ChainError::Store)
        }
    }
}

} // verus!
