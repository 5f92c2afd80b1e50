//! Decoding a fetched block into fee and compute-unit records.

use vstd::prelude::*;

use crate::block_store::{
    BlockInformation, BlockStore, CommitmentLevel, CLEANUP_MARGIN,
};
use crate::compute_budget::{
    budget_of, compute_budget_directive, compute_budget_request,
    ComputeBudgetDirective, ComputeBudgetRequest, COMPUTE_BUDGET_PROGRAM_ID,
};
use crate::scan::{first_some, lemma_first_some_extends};
use crate::transaction::{
    decode_transaction, decoded_transaction, BinaryEncoding, DecodedTransaction, InstructionView,
};
use crate::Slot;
use solana_sdk::transaction::TransactionError;

verus! {

/// A transaction as upstream hands it out.
pub enum EncodedTransaction {
    /// The wire bytes, as text in the given encoding.
    Binary(String, BinaryEncoding),
    /// A structured rendering, which holds no wire bytes.
    Structured,
}

/// What upstream reports of a transaction's execution.
pub struct TransactionMeta {
    pub err: Option<TransactionError>,
    pub status: Result<(), TransactionError>,
    pub compute_units_consumed: Option<u64>,
}

/// A transaction of a fetched block, with its execution report where there is one.
pub struct EncodedTransactionWithMeta {
    pub transaction: EncodedTransaction,
    pub meta: Option<TransactionMeta>,
}

/// What a reward was paid for.
#[derive(Clone, Copy, Debug, PartialEq, Eq, Structural)]
pub enum RewardType {
    Fee,
    Rent,
    Staking,
    Voting,
}

/// One reward of a block.
pub struct Reward {
    /// The identity that was paid.
    pub pubkey: String,
    pub reward_type: Option<RewardType>,
}

/// A block as upstream answers for one slot.
pub struct ConfirmedBlock {
    pub blockhash: String,
    pub parent_slot: Slot,
    pub block_height: Option<u64>,
    pub block_time: Option<i64>,
    pub transactions: Option<Vec<EncodedTransactionWithMeta>>,
    pub rewards: Option<Vec<Reward>>,
}

/// One transaction of a processed block.
pub struct TransactionInfo {
    pub signature: String,
    pub err: Option<TransactionError>,
    pub status: Result<(), TransactionError>,
    pub cu_requested: Option<u32>,
    pub prioritization_fees: Option<u64>,
    pub cu_consumed: Option<u64>,
}

/// A [`TransactionInfo`] as plain values.
pub struct TransactionInfoView {
    pub signature: Seq<char>,
    pub err: Option<TransactionError>,
    pub status: Result<(), TransactionError>,
    pub cu_requested: Option<u32>,
    pub prioritization_fees: Option<u64>,
    pub cu_consumed: Option<u64>,
}

impl TransactionInfo {
    pub open spec fn view(&self) -> TransactionInfoView {
        TransactionInfoView {
            signature: self.signature@,
            err: self.err,
            status: self.status,
            cu_requested: self.cu_requested,
            prioritization_fees: self.prioritization_fees,
            cu_consumed: self.cu_consumed,
        }
    }
}

/// The decoded content of one block.
pub struct ProcessedBlock {
    pub txs: Vec<TransactionInfo>,
    pub leader_id: Option<String>,
    pub blockhash: String,
    pub parent_slot: Slot,
    pub block_time: u64,
}

/// A [`ProcessedBlock`] as plain values.
pub struct ProcessedBlockView {
    pub txs: Seq<TransactionInfoView>,
    pub leader_id: Option<Seq<char>>,
    pub blockhash: Seq<char>,
    pub parent_slot: Slot,
    pub block_time: u64,
}

impl ProcessedBlock {
    pub open spec fn view(&self) -> ProcessedBlockView {
        ProcessedBlockView {
            txs: self.txs@.map_values(|tx: TransactionInfo| tx@),
            leader_id: match self.leader_id {
                Some(id) => Some(id@),
                None => None,
            },
            blockhash: self.blockhash@,
            parent_slot: self.parent_slot,
            block_time: self.block_time,
        }
    }
}

impl Default for ProcessedBlock {
    fn default() -> (block: ProcessedBlock)
        ensures
            block@ == (ProcessedBlockView {
                txs: Seq::empty(),
                leader_id: None,
                blockhash: Seq::empty(),
                parent_slot: 0,
                block_time: 0,
            }),
    {
        let block = ProcessedBlock {
            txs: Vec::new(),
            leader_id: None,
            blockhash: String::new(),
            parent_slot: 0,
            block_time: 0,
        };
        assert(block@.txs =~= Seq::empty());
        block
    }
}

/// Why a fetched block yields no [`ProcessedBlock`].
#[derive(Clone, Copy, Debug, PartialEq, Eq, Structural)]
pub enum BlockProcessorError {
    /// Upstream has no height or no transactions for the slot yet.
    Incomplete,
}

/// The directive an instruction carries: what its payload decodes to if it is
/// addressed to the compute-budget program, else none.
pub open spec fn directive_of(ix: InstructionView) -> Option<ComputeBudgetDirective> {
    if ix.0 == COMPUTE_BUDGET_PROGRAM_ID@ {
        compute_budget_directive(ix.1)
    } else {
        None
    }
}

/// The directives of a transaction's instructions, in instruction order.
pub open spec fn directives_of(instructions: Seq<InstructionView>) -> Seq<
    Option<ComputeBudgetDirective>,
> {
    instructions.map_values(|ix: InstructionView| directive_of(ix))
}

/// The record of one transaction: none where the execution report is missing
/// or the wire bytes do not decode.
pub open spec fn transaction_info(tx: EncodedTransactionWithMeta) -> Option<TransactionInfoView> {
    match (tx.meta, tx.transaction) {
        (Some(meta), EncodedTransaction::Binary(blob, encoding)) => match decoded_transaction(
            blob@,
            encoding,
        ) {
            Some((signature, instructions)) => {
                let request = budget_of(directives_of(instructions));
                Some(
                    TransactionInfoView {
                        signature,
                        err: meta.err,
                        status: meta.status,
                        cu_requested: request.cu_requested,
                        prioritization_fees: request.prioritization_fees,
                        cu_consumed: meta.compute_units_consumed,
                    },
                )
            },
            None => None,
        },
        _ => None,
    }
}

/// The records of a block's transactions, in block order, without those that
/// have no record.
pub open spec fn transaction_infos(txs: Seq<EncodedTransactionWithMeta>) -> Seq<
    TransactionInfoView,
>
    decreases txs.len(),
{
    if txs.len() == 0 {
        Seq::empty()
    } else {
        match transaction_info(txs.last()) {
            Some(info) => transaction_infos(txs.drop_last()).push(info),
            None => transaction_infos(txs.drop_last()),
        }
    }
}

/// The identity a reward names as the block's leader: the one paid for fees.
pub open spec fn fee_recipient(reward: Reward) -> Option<Seq<char>> {
    if reward.reward_type == Some(RewardType::Fee) {
        Some(reward.pubkey@)
    } else {
        None
    }
}

/// The leader named by a block's rewards: the recipient of the first fee
/// reward.
pub open spec fn leader_among(rewards: Seq<Reward>) -> Option<Seq<char>> {
    first_some(rewards.map_values(|r: Reward| fee_recipient(r)))
}

/// The leader of a block: none where upstream gave no rewards.
pub open spec fn leader_of(rewards: Option<Vec<Reward>>) -> Option<Seq<char>> {
    match rewards {
        Some(rewards) => leader_among(rewards@),
        None => None,
    }
}

/// The time of a block in seconds, zero where upstream gives none.
pub open spec fn block_time_of(block_time: Option<i64>) -> u64 {
    match block_time {
        Some(t) => t as u64,
        None => 0,
    }
}

/// What a block with height and transactions decodes to.
pub open spec fn processed_block(block: ConfirmedBlock) -> ProcessedBlockView
    recommends
        block.transactions is Some,
{
    ProcessedBlockView {
        txs: transaction_infos(block.transactions->0@),
        leader_id: leader_of(block.rewards),
        blockhash: block.blockhash@,
        parent_slot: block.parent_slot,
        block_time: block_time_of(block.block_time),
    }
}

/// Whether a program id is that of the compute-budget program.
pub fn is_compute_budget_program(program_id: &[u8; 32]) -> (same: bool)
    ensures
        same == (program_id@ == COMPUTE_BUDGET_PROGRAM_ID@),
{
    let mut i: usize = 0;
    while i < 32
        invariant
            i <= 32,
            forall|j: int| 0 <= j < i ==> program_id@[j] == COMPUTE_BUDGET_PROGRAM_ID@[j],
        decreases 32 - i,
    {
        if program_id[i] != COMPUTE_BUDGET_PROGRAM_ID[i] {
            return false;
        }
        i += 1;
    }
    assert(program_id@ =~= COMPUTE_BUDGET_PROGRAM_ID@);
    true
}

/// Reads the compute-budget directive of each instruction of a decoded
/// transaction, in instruction order.
pub fn directives(decoded: &DecodedTransaction) -> (found: Vec<Option<ComputeBudgetDirective>>)
    ensures
        found@ == directives_of(decoded@.1),
{
    let mut found: Vec<Option<ComputeBudgetDirective>> = Vec::new();
    let mut i: usize = 0;
    while i < decoded.instructions.len()
        invariant
            i <= decoded.instructions@.len(),
            found@ == directives_of(decoded@.1).take(i as int),
        decreases decoded.instructions@.len() - i,
    {
        let ix = &decoded.instructions[i];
        let directive = if is_compute_budget_program(&ix.program_id) {
            ComputeBudgetDirective::parse(ix.data.as_slice())
        } else {
            None
        };
        assert(directive == directives_of(decoded@.1)[i as int]);
        found.push(directive);
        assert(found@ =~= directives_of(decoded@.1).take(i + 1));
        i += 1;
    }
    assert(found@ =~= directives_of(decoded@.1));
    found
}

impl TransactionInfo {
    /// The record of a transaction from its execution report, its decoded
    /// form and what it asks of the compute budget.
    pub fn new(
        meta: TransactionMeta,
        decoded: DecodedTransaction,
        request: ComputeBudgetRequest,
    ) -> (info: TransactionInfo)
        ensures
            info@ == (TransactionInfoView {
                signature: decoded@.0,
                err: meta.err,
                status: meta.status,
                cu_requested: request.cu_requested,
                prioritization_fees: request.prioritization_fees,
                cu_consumed: meta.compute_units_consumed,
            }),
    {
        TransactionInfo {
            signature: decoded.signature,
            err: meta.err,
            status: meta.status,
            cu_requested: request.cu_requested,
            prioritization_fees: request.prioritization_fees,
            cu_consumed: meta.compute_units_consumed,
        }
    }

    /// Decodes one transaction of a fetched block into its record. A
    /// transaction without execution report, or whose wire bytes do not
    /// decode, has none.
    pub fn decode(tx: EncodedTransactionWithMeta) -> (info: Option<TransactionInfo>)
        ensures
            match info {
                Some(info) => transaction_info(tx) == Some(info@),
                None => transaction_info(tx) is None,
            },
    {
        let EncodedTransactionWithMeta { transaction, meta } = tx;
        let meta = match meta {
            Some(meta) => meta,
            None => { return None; },
        };
        let decoded = match transaction {
            EncodedTransaction::Binary(blob, encoding) => decode_transaction(
                blob.as_str(),
                encoding,
            ),
            EncodedTransaction::Structured => None,
        };
        match decoded {
            Some(decoded) => {
                let found = directives(&decoded);
                let request = compute_budget_request(&found);
                Some(TransactionInfo::new(meta, decoded, request))
            },
            None => None,
        }
    }
}

/// Finds the leader of a block among its rewards: the identity of the first
/// reward paid for fees.
pub fn find_leader(rewards: &Vec<Reward>) -> (leader: Option<String>)
    ensures
        match leader {
            Some(id) => leader_among(rewards@) == Some(id@),
            None => leader_among(rewards@) is None,
        },
{
    let ghost recipients = rewards@.map_values(|r: Reward| fee_recipient(r));
    let mut i: usize = 0;
    while i < rewards.len()
        invariant
            i <= rewards@.len(),
            recipients == rewards@.map_values(|r: Reward| fee_recipient(r)),
            first_some(recipients.take(i as int)) is None,
        decreases rewards@.len() - i,
    {
        proof {
            assert(recipients.take(i + 1).drop_last() =~= recipients.take(i as int));
        }
        let hit = match rewards[i].reward_type {
            Some(RewardType::Fee) => true,
            _ => false,
        };
        if hit {
            proof {
                lemma_first_some_extends(recipients, i + 1);
            }
            return Some(rewards[i].pubkey.clone());
        }
        i += 1;
    }
    assert(recipients.take(i as int) =~= recipients);
    None
}

/// Turns fetched blocks into [`ProcessedBlock`]s and keeps a block
/// information cache warm, where one is configured.
pub struct BlockProcessor {
    block_store: Option<BlockStore>,
}

impl BlockProcessor {
    /// The configured cache is well formed.
    pub open spec fn wf(&self) -> bool {
        self.block_store() matches Some(store) ==> store.wf()
    }

    /// The block information cache, where one is configured.
    pub closed spec fn block_store(&self) -> Option<BlockStore> {
        self.block_store
    }

    /// Whether the cache, where one is configured, is that of `before` with
    /// `info` filed under `blockhash` at `commitment`.
    pub open spec fn holds_after_adding(
        &self,
        before: BlockProcessor,
        blockhash: Seq<char>,
        info: BlockInformation,
        commitment: CommitmentLevel,
    ) -> bool {
        match before.block_store() {
            Some(store_before) => self.block_store() matches Some(store)
                && store.holds_after_adding(store_before, blockhash, info, commitment),
            None => self.block_store() is None,
        }
    }

    /// A processor over the given cache, or over none.
    pub fn new(block_store: Option<BlockStore>) -> (processor: BlockProcessor)
        requires
            block_store matches Some(store) ==> store.wf(),
        ensures
            processor.wf(),
            processor.block_store() == block_store,
    {
        BlockProcessor { block_store }
    }

    /// Hands the cache back.
    pub fn into_block_store(self) -> (block_store: Option<BlockStore>)
        ensures
            block_store == self.block_store(),
    {
        self.block_store
    }

    /// Files the record of a block in the cache, where one is configured.
    fn remember(&mut self, blockhash: String, info: BlockInformation, commitment: CommitmentLevel)
        requires
            old(self).wf(),
        ensures
            final(self).wf(),
            final(self).holds_after_adding(*old(self), blockhash@, info, commitment),
    {
        match &mut self.block_store {
            Some(store) => {
                store.add_block(blockhash, info, commitment);
            },
            None => {},
        }
    }

    /// Whether a cache is configured.
    pub fn has_block_store(&self) -> (configured: bool)
        ensures
            configured == self.block_store().is_some(),
    {
        self.block_store.is_some()
    }

    /// Decodes the block that upstream answered for `slot` at `commitment`.
    ///
    /// A block without height or without transactions is incomplete: nothing
    /// is decoded and the cache stays as it is. Otherwise the block's record
    /// is filed in the cache, where one is configured, and every transaction
    /// that has an execution report and decodes is turned into its record.
    pub fn process(
        &mut self,
        slot: Slot,
        commitment: CommitmentLevel,
        block: ConfirmedBlock,
    ) -> (result: Result<ProcessedBlock, BlockProcessorError>)
        requires
            old(self).wf(),
            block.block_height matches Some(height) ==> block.transactions is None || old(
                self,
            ).block_store() is None || height + CLEANUP_MARGIN <= u64::MAX,
        ensures
            final(self).wf(),
            result is Err <==> (block.block_height is None || block.transactions is None),
            match result {
                Ok(processed) => {
                    &&& processed@ == processed_block(block)
                    &&& final(self).holds_after_adding(
                        *old(self),
                        block.blockhash@,
                        BlockInformation::of_block(slot, block.block_height->0),
                        commitment,
                    )
                },
                Err(e) => e == BlockProcessorError::Incomplete && *final(self) == *old(self),
            },
    {
        let ConfirmedBlock {
            blockhash,
            parent_slot,
            block_height,
            block_time,
            transactions,
            rewards,
        } = block;
        let block_height = match block_height {
            Some(height) => height,
            None => { return Err(BlockProcessorError::Incomplete); },
        };
        let transactions = match transactions {
            Some(transactions) => transactions,
            None => { return Err(BlockProcessorError::Incomplete); },
        };
        if self.has_block_store() {
            self.remember(blockhash.clone(), BlockInformation::new(slot, block_height), commitment);
        }

        let ghost all = transactions@;
        let mut txs: Vec<TransactionInfo> = Vec::new();
        assert(txs@.map_values(|tx: TransactionInfo| tx@) =~= transaction_infos(all.take(0)));
        for tx in it: transactions
            invariant
                it.seq() == all,
                txs@.map_values(|tx: TransactionInfo| tx@) == transaction_infos(
                    all.take(it.index() as int),
                ),
        {
            proof {
                let i = it.index() as int;
                assert(all.take(i + 1).drop_last() =~= all.take(i));
                assert(all.take(i + 1).last() == tx);
            }
            let ghost before = txs@;
            match TransactionInfo::decode(tx) {
                Some(info) => {
                    txs.push(info);
                    assert(txs@.map_values(|tx: TransactionInfo| tx@) =~= before.map_values(
                        |tx: TransactionInfo| tx@,
                    ).push(info@));
                },
                None => {},
            }
        }
        assert(all.take(all.len() as int) =~= all);

        let leader_id = match &rewards {
            Some(rewards) => find_leader(rewards),
            None => None,
        };
        let block_time: u64 = match block_time {
            Some(t) => #[verifier::truncate] (t as u64),
            None => 0,
        };
        Ok(ProcessedBlock { txs, leader_id, blockhash, parent_slot, block_time })
    }

    /// Files the chain's latest block, as polled from upstream, in the cache,
    /// where one is configured. The record is filed at the processed level.
    pub fn poll_latest_block(&mut self, blockhash: String, latest: BlockInformation)
        requires
            old(self).wf(),
        ensures
            final(self).wf(),
            final(self).holds_after_adding(
                *old(self),
                blockhash@,
                latest,
                CommitmentLevel::Processed,
            ),
    {
        self.remember(blockhash, latest, CommitmentLevel::Processed);
    }
}

} // verus!
