//! Per-block metadata, kept by blockhash at each commitment level.

use vstd::prelude::*;

use crate::Slot;

verus! {

/// How many blocks a blockhash stays valid for.
pub const MAX_RECENT_BLOCKHASHES: u64 = 300;

/// How many blocks past its own height a record is kept for.
pub const CLEANUP_MARGIN: u64 = 1000;

/// How settled a piece of chain state is.
#[derive(Clone, Copy, Debug, PartialEq, Eq, Structural)]
pub enum CommitmentLevel {
    Processed,
    Confirmed,
    Finalized,
}

/// What is known of one block.
#[derive(Clone, Copy, Debug, PartialEq, Eq, Structural)]
pub struct BlockInformation {
    pub slot: Slot,
    pub block_height: u64,
    /// The last height at which the block's hash is accepted.
    pub last_valid_blockheight: u64,
    /// The finalized height beyond which the record is evicted.
    pub cleanup_slot: u64,
    /// When this node saw the block, where it noted that.
    pub processed_local_time: Option<u64>,
}

impl BlockInformation {
    /// The record of a block seen at `slot` with height `block_height`.
    pub open spec fn of_block(slot: Slot, block_height: u64) -> BlockInformation {
        BlockInformation {
            slot,
            block_height,
            last_valid_blockheight: (block_height + MAX_RECENT_BLOCKHASHES) as u64,
            cleanup_slot: (block_height + CLEANUP_MARGIN) as u64,
            processed_local_time: None,
        }
    }

    /// Builds the record of a block from its slot and height.
    pub fn new(slot: Slot, block_height: u64) -> (info: BlockInformation)
        requires
            block_height + CLEANUP_MARGIN <= u64::MAX,
        ensures
            info == BlockInformation::of_block(slot, block_height),
            info.last_valid_blockheight == block_height + MAX_RECENT_BLOCKHASHES,
            info.cleanup_slot == block_height + CLEANUP_MARGIN,
    {
        BlockInformation {
            slot,
            block_height,
            last_valid_blockheight: block_height + MAX_RECENT_BLOCKHASHES,
            cleanup_slot: block_height + CLEANUP_MARGIN,
            processed_local_time: None,
        }
    }
}

/// One record of the store.
struct BlockEntry {
    blockhash: String,
    commitment: CommitmentLevel,
    info: BlockInformation,
}

/// What a record is filed under: the blockhash and the commitment level.
pub type BlockKey = (Seq<char>, CommitmentLevel);

impl BlockEntry {
    spec fn key(&self) -> BlockKey {
        (self.blockhash@, self.commitment)
    }
}

/// Of two candidates for "the latest block", the one that stays: the newcomer
/// if it has the greater slot or nothing was known, else the one known.
pub open spec fn later_block(known: Option<BlockInformation>, newcomer: BlockInformation) -> Option<
    BlockInformation,
> {
    match known {
        Some(k) => if newcomer.slot > k.slot {
            Some(newcomer)
        } else {
            Some(k)
        },
        None => Some(newcomer),
    }
}

/// The records among `blocks` that a cleanup at finalized height `height` keeps.
pub open spec fn retained(blocks: Map<BlockKey, BlockInformation>, height: u64) -> Map<
    BlockKey,
    BlockInformation,
> {
    Map::new(
        |k: BlockKey| blocks.contains_key(k) && blocks[k].cleanup_slot >= height,
        |k: BlockKey| blocks[k],
    )
}

/// Whether no record among `blocks` has a cleanup height below `height`.
pub open spec fn none_behind(blocks: Map<BlockKey, BlockInformation>, height: u64) -> bool {
    forall|k: BlockKey| #[trigger] blocks.contains_key(k) ==> blocks[k].cleanup_slot >= height
}

/// The block information cache.
pub struct BlockStore {
    entries: Vec<BlockEntry>,
    latest_processed: Option<BlockInformation>,
    latest_confirmed: Option<BlockInformation>,
    latest_finalized: Option<BlockInformation>,
}

spec fn distinct_keys(entries: Seq<BlockEntry>) -> bool {
    forall|i: int, j: int|
        0 <= i < j < entries.len() ==> (#[trigger] entries[i]).key() != (
        #[trigger] entries[j]).key()
}

spec fn holds_key(entries: Seq<BlockEntry>, key: BlockKey) -> bool {
    exists|i: int| 0 <= i < entries.len() && (#[trigger] entries[i]).key() == key
}

spec fn position_of(entries: Seq<BlockEntry>, key: BlockKey) -> int {
    choose|i: int| 0 <= i < entries.len() && (#[trigger] entries[i]).key() == key
}

spec fn as_map(entries: Seq<BlockEntry>) -> Map<BlockKey, BlockInformation> {
    Map::new(
        |k: BlockKey| holds_key(entries, k),
        |k: BlockKey| entries[position_of(entries, k)].info,
    )
}

proof fn lemma_position(entries: Seq<BlockEntry>, i: int)
    requires
        distinct_keys(entries),
        0 <= i < entries.len(),
    ensures
        holds_key(entries, entries[i].key()),
        position_of(entries, entries[i].key()) == i,
{
    let k = entries[i].key();
    let j = position_of(entries, k);
    assert(0 <= j < entries.len() && entries[j].key() == k);
    if j < i {
        assert(entries[j].key() != entries[i].key());
    } else if i < j {
        assert(entries[i].key() != entries[j].key());
    }
}

proof fn lemma_absent(entries: Seq<BlockEntry>, key: BlockKey)
    requires
        forall|i: int| 0 <= i < entries.len() ==> (#[trigger] entries[i]).key() != key,
    ensures
        !holds_key(entries, key),
{
}

proof fn lemma_map_after_push(entries: Seq<BlockEntry>, entry: BlockEntry)
    requires
        distinct_keys(entries),
        !holds_key(entries, entry.key()),
    ensures
        distinct_keys(entries.push(entry)),
        as_map(entries.push(entry)) == as_map(entries).insert(entry.key(), entry.info),
{
    let after = entries.push(entry);
    assert forall|i: int, j: int| 0 <= i < j < after.len() implies (#[trigger] after[i]).key() != (
    #[trigger] after[j]).key() by {
        if j < entries.len() {
            assert(entries[i].key() != entries[j].key());
        } else {
            assert(after[i] == entries[i]);
            if entries[i].key() == entry.key() {
                assert(holds_key(entries, entry.key()));
            }
        }
    }
    assert forall|k: BlockKey| holds_key(after, k) <==> (k == entry.key() || holds_key(
        entries,
        k,
    )) by {
        if holds_key(after, k) {
            let i = position_of(after, k);
            if i < entries.len() {
                assert(entries[i].key() == k);
            }
        }
        if k == entry.key() {
            assert(after[entries.len() as int].key() == k);
        }
        if holds_key(entries, k) {
            let i = position_of(entries, k);
            assert(after[i].key() == k);
        }
    }
    assert forall|k: BlockKey| holds_key(after, k) implies #[trigger] as_map(after)[k] == as_map(
        entries,
    ).insert(entry.key(), entry.info)[k] by {
        let i = position_of(after, k);
        lemma_position(after, i);
        if i < entries.len() {
            assert(after[i] == entries[i]);
            lemma_position(entries, i);
        }
    }
    assert(as_map(after) =~= as_map(entries).insert(entry.key(), entry.info));
}

proof fn lemma_map_after_update(entries: Seq<BlockEntry>, at: int, entry: BlockEntry)
    requires
        distinct_keys(entries),
        0 <= at < entries.len(),
        entries[at].key() == entry.key(),
    ensures
        distinct_keys(entries.update(at, entry)),
        as_map(entries.update(at, entry)) == as_map(entries).insert(entry.key(), entry.info),
{
    let after = entries.update(at, entry);
    assert forall|i: int| 0 <= i < entries.len() implies (#[trigger] after[i]).key()
        == entries[i].key() by {}
    assert forall|i: int, j: int| 0 <= i < j < after.len() implies (#[trigger] after[i]).key() != (
    #[trigger] after[j]).key() by {
        assert(entries[i].key() != entries[j].key());
    }
    assert forall|k: BlockKey| holds_key(after, k) <==> holds_key(entries, k) by {
        if holds_key(after, k) {
            let i = position_of(after, k);
            assert(entries[i].key() == k);
        }
        if holds_key(entries, k) {
            let i = position_of(entries, k);
            assert(after[i].key() == k);
        }
    }
    lemma_position(entries, at);
    assert forall|k: BlockKey| holds_key(after, k) implies #[trigger] as_map(after)[k] == as_map(
        entries,
    ).insert(entry.key(), entry.info)[k] by {
        let i = position_of(after, k);
        lemma_position(after, i);
        lemma_position(entries, i);
    }
    assert(as_map(after) =~= as_map(entries).insert(entry.key(), entry.info));
}

proof fn lemma_key_absent_from_prefix(entries: Seq<BlockEntry>, i: int)
    requires
        distinct_keys(entries),
        0 <= i < entries.len(),
    ensures
        distinct_keys(entries.take(i)),
        !holds_key(entries.take(i), entries[i].key()),
        entries.take(i + 1) == entries.take(i).push(entries[i]),
{
    let prefix = entries.take(i);
    assert forall|a: int, b: int| 0 <= a < b < prefix.len() implies (#[trigger] prefix[a]).key()
        != (#[trigger] prefix[b]).key() by {
        assert(entries[a].key() != entries[b].key());
    }
    assert forall|j: int| 0 <= j < prefix.len() implies (#[trigger] prefix[j]).key()
        != entries[i].key() by {
        assert(entries[j].key() != entries[i].key());
    }
    assert(entries.take(i + 1) =~= prefix.push(entries[i]));
}

impl BlockStore {
    /// No two records are filed under the same blockhash and commitment level.
    pub closed spec fn wf(&self) -> bool {
        distinct_keys(self.entries@)
    }

    /// The records held, by blockhash and commitment level.
    pub closed spec fn blocks(&self) -> Map<BlockKey, BlockInformation> {
        as_map(self.entries@)
    }

    /// The latest block known at a commitment level.
    pub closed spec fn latest(&self, commitment: CommitmentLevel) -> Option<BlockInformation> {
        match commitment {
            CommitmentLevel::Processed => self.latest_processed,
            CommitmentLevel::Confirmed => self.latest_confirmed,
            CommitmentLevel::Finalized => self.latest_finalized,
        }
    }

    /// Whether this store is `before` with `info` filed under `blockhash` at
    /// `commitment`: the record stands in place of any filed there before, and
    /// is the latest block of that level if its slot is greater than that of
    /// the latest known.
    pub open spec fn holds_after_adding(
        &self,
        before: BlockStore,
        blockhash: Seq<char>,
        info: BlockInformation,
        commitment: CommitmentLevel,
    ) -> bool {
        &&& self.wf()
        &&& self.blocks() == before.blocks().insert((blockhash, commitment), info)
        &&& self.latest(commitment) == later_block(before.latest(commitment), info)
        &&& forall|c: CommitmentLevel| c != commitment ==> self.latest(c) == before.latest(c)
    }

    /// An empty store, with no block known at any level.
    pub fn new() -> (store: BlockStore)
        ensures
            store.wf(),
            store.blocks() == Map::<BlockKey, BlockInformation>::empty(),
            forall|c: CommitmentLevel| store.latest(c) is None,
    {
        let store = BlockStore {
            entries: Vec::new(),
            latest_processed: None,
            latest_confirmed: None,
            latest_finalized: None,
        };
        assert(store.blocks() =~= Map::<BlockKey, BlockInformation>::empty());
        store
    }

    /// The latest block known at `commitment`: among the blocks added at that
    /// level, the one with the greatest slot.
    pub fn get_latest_block_info(&self, commitment: CommitmentLevel) -> (info: Option<
        BlockInformation,
    >)
        ensures
            info == self.latest(commitment),
    {
        match commitment {
            CommitmentLevel::Processed => self.latest_processed,
            CommitmentLevel::Confirmed => self.latest_confirmed,
            CommitmentLevel::Finalized => self.latest_finalized,
        }
    }
    /// Where the record filed under a key stands among the entries.
    fn find(&self, blockhash: &String, commitment: CommitmentLevel) -> (at: Option<usize>)
        ensures
            match at {
                Some(i) => i < self.entries@.len() && self.entries@[i as int].key() == (
                    blockhash@,
                    commitment,
                ),
                None => !holds_key(self.entries@, (blockhash@, commitment)),
            },
    {
        let mut i: usize = 0;
        while i < self.entries.len()
            invariant
                i <= self.entries@.len(),
                forall|j: int| 0 <= j < i ==> (#[trigger] self.entries@[j]).key() != (
                    blockhash@,
                    commitment,
                ),
            decreases self.entries@.len() - i,
        {
            if self.entries[i].commitment == commitment && self.entries[i].blockhash == *blockhash {
                return Some(i);
            }
            i += 1;
        }
        proof {
            lemma_absent(self.entries@, (blockhash@, commitment));
        }
        None
    }

    /// The record filed under a blockhash at a commitment level, if any.
    pub fn get_block_info(&self, blockhash: &String, commitment: CommitmentLevel) -> (info: Option<
        BlockInformation,
    >)
        requires
            self.wf(),
        ensures
            info == if self.blocks().contains_key((blockhash@, commitment)) {
                Some(self.blocks()[(blockhash@, commitment)])
            } else {
                None
            },
    {
        match self.find(blockhash, commitment) {
            Some(i) => {
                proof {
                    lemma_position(self.entries@, i as int);
                }
                Some(self.entries[i].info)
            },
            None => None,
        }
    }

    /// Files `info` under `blockhash` at `commitment`, in place of any record
    /// filed there before, and lets it stand as the latest block of that level
    /// if its slot is greater than that of the latest known.
    pub fn add_block(
        &mut self,
        blockhash: String,
        info: BlockInformation,
        commitment: CommitmentLevel,
    )
        requires
            old(self).wf(),
        ensures
            final(self).holds_after_adding(*old(self), blockhash@, info, commitment),
    {
        let at = self.find(&blockhash, commitment);
        let entry = BlockEntry { blockhash, commitment, info };
        match at {
            Some(i) => {
                proof {
                    lemma_map_after_update(self.entries@, i as int, entry);
                }
                self.entries.set(i, entry);
            },
            None => {
                proof {
                    lemma_map_after_push(self.entries@, entry);
                }
                self.entries.push(entry);
            },
        }
        match commitment {
            CommitmentLevel::Processed => {
                self.latest_processed = Self::later(self.latest_processed, info);
            },
            CommitmentLevel::Confirmed => {
                self.latest_confirmed = Self::later(self.latest_confirmed, info);
            },
            CommitmentLevel::Finalized => {
                self.latest_finalized = Self::later(self.latest_finalized, info);
            },
        }
    }

    /// Evicts every record whose cleanup height lies below the height of the
    /// latest finalized block. Where no finalized block is known, nothing is
    /// evicted.
    pub fn clean(&mut self)
        requires
            old(self).wf(),
        ensures
            final(self).wf(),
            forall|c: CommitmentLevel| final(self).latest(c) == old(self).latest(c),
            final(self).blocks() == match old(self).latest(CommitmentLevel::Finalized) {
                Some(finalized) => retained(old(self).blocks(), finalized.block_height),
                None => old(self).blocks(),
            },
            old(self).latest(CommitmentLevel::Finalized) matches Some(finalized) ==> none_behind(
                final(self).blocks(),
                finalized.block_height,
            ),
    {
        let height = match self.latest_finalized {
            Some(finalized) => finalized.block_height,
            None => { return ; },
        };
        let mut all: Vec<BlockEntry> = Vec::new();
        core::mem::swap(&mut self.entries, &mut all);
        let ghost before = all@;
        let mut kept: Vec<BlockEntry> = Vec::new();
        assert(as_map(kept@) =~= retained(as_map(before.take(0)), height));
        for entry in it: all
            invariant
                it.seq() == before,
                distinct_keys(before),
                distinct_keys(kept@),
                as_map(kept@) == retained(as_map(before.take(it.index() as int)), height),
        {
            proof {
                let i = it.index() as int;
                assert(entry == before[i]);
                lemma_key_absent_from_prefix(before, i);
                lemma_map_after_push(before.take(i), entry);
                let seen = as_map(before.take(i));
                if entry.info.cleanup_slot >= height {
                    assert(!holds_key(kept@, entry.key())) by {
                        if holds_key(kept@, entry.key()) {
                            assert(as_map(kept@).contains_key(entry.key()));
                            assert(seen.contains_key(entry.key()));
                        }
                    }
                    lemma_map_after_push(kept@, entry);
                    assert(retained(seen.insert(entry.key(), entry.info), height) =~= retained(
                        seen,
                        height,
                    ).insert(entry.key(), entry.info));
                } else {
                    assert(!seen.contains_key(entry.key()));
                    assert(retained(seen.insert(entry.key(), entry.info), height) =~= retained(
                        seen,
                        height,
                    ));
                }
            }
            if entry.info.cleanup_slot >= height {
                kept.push(entry);
            }
        }
        assert(before.take(before.len() as int) =~= before);
        self.entries = kept;
    }

    fn later(known: Option<BlockInformation>, newcomer: BlockInformation) -> (kept: Option<
        BlockInformation,
    >)
        ensures
            kept == later_block(known, newcomer),
    {
        match known {
            Some(k) => if newcomer.slot > k.slot {
                Some(newcomer)
            } else {
                Some(k)
            },
            None => Some(newcomer),
        }
    }
}

impl Default for BlockStore {
    fn default() -> (store: BlockStore)
        ensures
            store.wf(),
            store.blocks() == Map::<BlockKey, BlockInformation>::empty(),
            forall|c: CommitmentLevel| store.latest(c) is None,
    {
        BlockStore::new()
    }
}

} // verus!
