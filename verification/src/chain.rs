//! A bounded window over the most recent blocks of the chain.
//!
//! The window holds at most `history_size` blocks with consecutive numbers,
//! oldest first. Bringing it to a new head yields a [`ChainUpdate`]: the
//! operations and deposits of the blocks that came in, and those of the
//! blocks that a reorg took out.

use crate::events::{
    deposited_signature, deposits_in, event_topic, load_entity_deposits, load_mined_ops, log_views,
    mined_ops_in, topic_of, user_operation_event_signature, Log, LogView,
};
use crate::primitives::{all_zero, Address, H256};
use crate::uint::U256;
use std::collections::VecDeque;
use vstd::prelude::*;

verus! {

/// A user operation as its event in a block reports it.
#[derive(Clone, Copy, Debug, PartialEq, Eq)]
pub struct MinedOp {
    pub hash: H256,
    pub entry_point: Address,
    pub sender: Address,
    pub nonce: U256,
    pub actual_gas_cost: U256,
    pub paymaster: Option<Address>,
}

/// A deposit of an entity with an entry point, as its event reports it.
#[derive(Clone, Copy, Debug, PartialEq, Eq)]
pub struct DepositInfo {
    pub address: Address,
    pub entrypoint: Address,
    pub amount: U256,
}

/// What identifies a user operation: its sender and its nonce.
#[derive(Clone, Copy, Debug, PartialEq, Eq)]
pub struct UserOperationId {
    pub sender: Address,
    pub nonce: U256,
}

impl MinedOp {
    pub fn id(&self) -> (id: UserOperationId)
        ensures
            id == (UserOperationId { sender: self.sender, nonce: self.nonce }),
    {
        UserOperationId { sender: self.sender, nonce: self.nonce }
    }
}

/// A block as the provider hands it out.
#[derive(Clone, Copy, Debug, PartialEq, Eq)]
pub struct Block {
    pub number: Option<u64>,
    pub hash: Option<H256>,
    pub parent_hash: H256,
    pub timestamp: u64,
}

/// One block of the window.
#[derive(Debug, PartialEq, Eq)]
pub struct BlockSummary {
    pub number: u64,
    pub hash: H256,
    pub timestamp: u64,
    pub parent_hash: H256,
    pub ops: Vec<MinedOp>,
    pub entity_deposits: Vec<DepositInfo>,
}

/// A block of the window as a mathematical value.
pub struct BlockView {
    pub number: u64,
    pub hash: H256,
    pub timestamp: u64,
    pub parent_hash: H256,
    pub ops: Seq<MinedOp>,
    pub entity_deposits: Seq<DepositInfo>,
}

impl View for BlockSummary {
    type V = BlockView;

    open spec fn view(&self) -> BlockView {
        BlockView {
            number: self.number,
            hash: self.hash,
            timestamp: self.timestamp,
            parent_hash: self.parent_hash,
            ops: self.ops@,
            entity_deposits: self.entity_deposits@,
        }
    }
}

/// The blocks of `s`, each as a mathematical value.
pub open spec fn views(s: Seq<BlockSummary>) -> Seq<BlockView> {
    s.map_values(|b: BlockSummary| b@)
}

/// What changed when the window was brought to a new head.
#[derive(Debug, PartialEq, Eq)]
pub struct ChainUpdate {
    pub latest_block_number: u64,
    pub latest_block_hash: H256,
    pub latest_block_timestamp: u64,
    /// Blocks before this number are no longer in the window.
    pub earliest_remembered_block_number: u64,
    pub reorg_depth: u64,
    pub mined_ops: Vec<MinedOp>,
    pub unmined_ops: Vec<MinedOp>,
    /// Deposits made in the blocks that came in.
    pub entity_deposits: Vec<DepositInfo>,
    /// Deposits made in the blocks that a reorg took out.
    pub unmined_entity_deposits: Vec<DepositInfo>,
    /// True when the reorg reached at least as deep as the window may grow.
    pub reorg_larger_than_history: bool,
}

/// A chain update as a mathematical value.
pub struct ChainUpdateView {
    pub latest_block_number: u64,
    pub latest_block_hash: H256,
    pub latest_block_timestamp: u64,
    pub earliest_remembered_block_number: u64,
    pub reorg_depth: u64,
    pub mined_ops: Seq<MinedOp>,
    pub unmined_ops: Seq<MinedOp>,
    pub entity_deposits: Seq<DepositInfo>,
    pub unmined_entity_deposits: Seq<DepositInfo>,
    pub reorg_larger_than_history: bool,
}

impl View for ChainUpdate {
    type V = ChainUpdateView;

    open spec fn view(&self) -> ChainUpdateView {
        ChainUpdateView {
            latest_block_number: self.latest_block_number,
            latest_block_hash: self.latest_block_hash,
            latest_block_timestamp: self.latest_block_timestamp,
            earliest_remembered_block_number: self.earliest_remembered_block_number,
            reorg_depth: self.reorg_depth,
            mined_ops: self.mined_ops@,
            unmined_ops: self.unmined_ops@,
            entity_deposits: self.entity_deposits@,
            unmined_entity_deposits: self.unmined_entity_deposits@,
            reorg_larger_than_history: self.reorg_larger_than_history,
        }
    }
}

/// The operations of all the blocks, in block order.
pub open spec fn all_ops(blocks: Seq<BlockView>) -> Seq<MinedOp>
    decreases blocks.len(),
{
    if blocks.len() == 0 {
        Seq::empty()
    } else {
        all_ops(blocks.drop_last()) + blocks.last().ops
    }
}

/// The deposits of all the blocks, in block order.
pub open spec fn all_deposits(blocks: Seq<BlockView>) -> Seq<DepositInfo>
    decreases blocks.len(),
{
    if blocks.len() == 0 {
        Seq::empty()
    } else {
        all_deposits(blocks.drop_last()) + blocks.last().entity_deposits
    }
}

/// Each block's number is one more than that of the block before it: the
/// numbers count up from that of the first block.
pub open spec fn consecutive(blocks: Seq<BlockView>) -> bool {
    forall|i: int| 0 <= i < blocks.len() ==> (#[trigger] blocks[i]).number == blocks[0].number + i
}

/// Each block names the hash of the block before it as its parent.
pub open spec fn hash_linked(blocks: Seq<BlockView>) -> bool {
    forall|i: int, j: int|
        0 <= i < blocks.len() && j == i + 1 && j < blocks.len() ==> (#[trigger] blocks[j]).parent_hash
            == (#[trigger] blocks[i]).hash
}

/// How many blocks at the end of a window of `len` blocks, whose newest has
/// the number `current`, give way to blocks that start at number `first`.
pub open spec fn replaced_count(len: nat, current: u64, first: u64) -> nat {
    if first > current + 1 {
        0
    } else if current + 1 - first <= len {
        (current + 1 - first) as nat
    } else {
        len
    }
}

/// The part of the window that stays when blocks starting at `first` come in.
pub open spec fn kept_blocks(window: Seq<BlockView>, current: u64, first: u64) -> Seq<BlockView> {
    window.take(window.len() - replaced_count(window.len(), current, first))
}

/// The part of the window that gives way when blocks starting at `first` come in.
pub open spec fn replaced_blocks(window: Seq<BlockView>, current: u64, first: u64) -> Seq<
    BlockView,
> {
    window.skip(window.len() - replaced_count(window.len(), current, first))
}

/// How many of the oldest blocks leave so that `len` blocks fit into a
/// history of `history_size`.
pub open spec fn evicted_count(len: nat, history_size: u64) -> nat {
    if len > history_size {
        (len - history_size) as nat
    } else {
        0
    }
}

/// The window after `added` came in: the replaced blocks are gone, the added
/// ones follow the kept ones, and the oldest blocks have left until no more
/// than `history_size` remain.
pub open spec fn window_after(
    window: Seq<BlockView>,
    added: Seq<BlockView>,
    current: u64,
    history_size: u64,
) -> Seq<BlockView> {
    let joined = kept_blocks(window, current, added[0].number) + added;
    joined.skip(evicted_count(joined.len(), history_size) as int)
}

/// The update that reports `added` coming into `window`.
pub open spec fn update_for(
    window: Seq<BlockView>,
    added: Seq<BlockView>,
    current: u64,
    history_size: u64,
) -> ChainUpdateView {
    let after = window_after(window, added, current, history_size);
    let replaced = replaced_blocks(window, current, added[0].number);
    ChainUpdateView {
        latest_block_number: after.last().number,
        latest_block_hash: after.last().hash,
        latest_block_timestamp: after.last().timestamp,
        earliest_remembered_block_number: after[0].number,
        reorg_depth: (current + 1 - added[0].number) as u64,
        mined_ops: all_ops(added),
        unmined_ops: all_ops(replaced),
        entity_deposits: all_deposits(added),
        unmined_entity_deposits: all_deposits(replaced),
        reorg_larger_than_history: current + 1 - added[0].number >= history_size,
    }
}

/// The operations of two runs of blocks, one after the other, are those of
/// the first followed by those of the second; likewise the deposits.
pub proof fn lemma_all_concat(a: Seq<BlockView>, b: Seq<BlockView>)
    ensures
        all_ops(a + b) == all_ops(a) + all_ops(b),
        all_deposits(a + b) == all_deposits(a) + all_deposits(b),
    decreases b.len(),
{
    if b.len() == 0 {
        assert(a + b =~= a);
    } else {
        assert((a + b).drop_last() =~= a + b.drop_last());
        lemma_all_concat(a, b.drop_last());
        assert(all_ops(a + b) =~= all_ops(a) + all_ops(b));
        assert(all_deposits(a + b) =~= all_deposits(a) + all_deposits(b));
    }
}

/// Copies the operations of `blocks[from..]` into one list, in block order.
fn collect_ops(blocks: &VecDeque<BlockSummary>, from: usize) -> (ops: Vec<MinedOp>)
    requires
        from <= blocks@.len(),
    ensures
        ops@ == all_ops(views(blocks@).skip(from as int)),
{
    let mut ops: Vec<MinedOp> = Vec::new();
    let mut i: usize = from;
    let ghost tail = views(blocks@).skip(from as int);
    while i < blocks.len()
        invariant
            from <= i <= blocks@.len(),
            tail == views(blocks@).skip(from as int),
            ops@ == all_ops(tail.take(i - from)),
        decreases blocks@.len() - i,
    {
        let block = &blocks[i];
        let mut j: usize = 0;
        let ghost before = ops@;
        while j < block.ops.len()
            invariant
                j <= block.ops@.len(),
                ops@ == before + block.ops@.take(j as int),
            decreases block.ops@.len() - j,
        {
            ops.push(block.ops[j]);
            j += 1;
            assert(block.ops@.take(j as int) =~= block.ops@.take(j - 1).push(block.ops@[j - 1]));
        }
        proof {
            assert(block.ops@.take(j as int) =~= block.ops@);
            assert(tail.take(i + 1 - from).drop_last() =~= tail.take(i - from));
            assert(tail.take(i + 1 - from).last() == block@);
        }
        i += 1;
    }
    proof {
        assert(tail.take(i - from) =~= tail);
    }
    ops
}

/// Copies the deposits of `blocks[from..]` into one list, in block order.
fn collect_deposits(blocks: &VecDeque<BlockSummary>, from: usize) -> (deposits: Vec<DepositInfo>)
    requires
        from <= blocks@.len(),
    ensures
        deposits@ == all_deposits(views(blocks@).skip(from as int)),
{
    let mut deposits: Vec<DepositInfo> = Vec::new();
    let mut i: usize = from;
    let ghost tail = views(blocks@).skip(from as int);
    while i < blocks.len()
        invariant
            from <= i <= blocks@.len(),
            tail == views(blocks@).skip(from as int),
            deposits@ == all_deposits(tail.take(i - from)),
        decreases blocks@.len() - i,
    {
        let block = &blocks[i];
        let mut j: usize = 0;
        let ghost before = deposits@;
        while j < block.entity_deposits.len()
            invariant
                j <= block.entity_deposits@.len(),
                deposits@ == before + block.entity_deposits@.take(j as int),
            decreases block.entity_deposits@.len() - j,
        {
            deposits.push(block.entity_deposits[j]);
            j += 1;
            assert(block.entity_deposits@.take(j as int) =~= block.entity_deposits@.take(
                j - 1,
            ).push(block.entity_deposits@[j - 1]));
        }
        proof {
            assert(block.entity_deposits@.take(j as int) =~= block.entity_deposits@);
            assert(tail.take(i + 1 - from).drop_last() =~= tail.take(i - from));
            assert(tail.take(i + 1 - from).last() == block@);
        }
        i += 1;
    }
    proof {
        assert(tail.take(i - from) =~= tail);
    }
    deposits
}

/// How the chain tracker is set up.
#[derive(Debug, PartialEq, Eq)]
pub struct Settings {
    /// How many blocks the window may hold; at least one.
    pub history_size: u64,
    /// Pause between two polls for a new head, in milliseconds.
    pub poll_interval_millis: u64,
    /// The entry points whose events are read.
    pub entry_point_addresses: Vec<Address>,
}

/// Why the window could not be brought to a new head.
#[derive(Clone, Copy, Debug, PartialEq, Eq)]
pub enum ChainError {
    /// The provider handed out a block without number or hash, with another
    /// number than its place in the chain asks for, or none where one must
    /// exist.
    ProviderInconsistent,
    /// The provider could not answer.
    ProviderUnavailable,
    /// The new head is older than the window reaches back.
    ChainInconsistent,
}

/// What a step of a sync still waits for.
#[derive(Clone, Copy, Debug, PartialEq, Eq)]
pub enum SyncPhase {
    Idle,
    /// Blocks are loaded backwards from the new head until one numbered
    /// `min_block_number` is there. `join_at` is the number of the window's
    /// newest block where the new blocks are to join the window, and `None`
    /// where they are to take its place.
    LoadingHistory { min_block_number: u64, join_at: Option<u64> },
    /// Blocks are loaded further back until one names a block of the window
    /// as its parent.
    Connecting { current: u64 },
    /// The logs of the new blocks are loaded.
    LoadingOps { join_at: Option<u64> },
}

/// The chain tracker as a mathematical value.
pub struct ChainModel {
    pub history_size: u64,
    pub poll_interval_millis: u64,
    pub entry_point_addresses: Seq<Address>,
    pub user_operation_topic: H256,
    pub deposited_topic: H256,
    /// The window, oldest block first.
    pub blocks: Seq<BlockView>,
    /// The blocks loaded so far by the sync in flight, oldest first.
    pub added: Seq<BlockView>,
    pub phase: SyncPhase,
}

/// A block from the provider as a block of the window without operations, or
/// the reason it cannot be one: its number or hash is missing, its number is
/// not the expected one, or its number is the largest there is.
pub open spec fn summary_of(block: Block, expected_block_number: Option<u64>) -> Result<
    BlockView,
    ChainError,
> {
    if block.number is None || block.hash is None || block.number->0 == u64::MAX || (
    expected_block_number is Some && block.number->0 != expected_block_number->0) {
        Err(ChainError::ProviderInconsistent)
    } else {
        Ok(
            BlockView {
                number: block.number->0,
                hash: block.hash->0,
                timestamp: block.timestamp,
                parent_hash: block.parent_hash,
                ops: Seq::empty(),
                entity_deposits: Seq::empty(),
            },
        )
    }
}

/// What the provider answered when asked for a block by its hash.
#[derive(Clone, Copy, Debug, PartialEq, Eq)]
pub enum BlockResponse {
    Found(Block),
    /// The provider knows no block with that hash.
    Missing,
    /// The provider could not answer.
    Failed,
}

/// What the caller is to do next.
#[derive(Debug, PartialEq, Eq)]
pub enum ChainAction {
    /// No sync is in flight.
    Idle,
    /// Ask the provider for the block with this hash.
    GetBlock { hash: H256 },
    /// Ask the provider for the logs of each of these blocks, by block hash,
    /// that one of the addresses emitted with one of the topics first.
    GetLogs { addresses: Vec<Address>, topics: Vec<H256>, block_hashes: Vec<H256> },
    /// The window stands at the new head; this is what changed.
    Updated(ChainUpdate),
    /// The sync was given up; the window is as it was.
    Failed(ChainError),
}

/// An action as a mathematical value.
pub enum ChainActionView {
    Idle,
    GetBlock { hash: H256 },
    GetLogs { addresses: Seq<Address>, topics: Seq<H256>, block_hashes: Seq<H256> },
    Updated(ChainUpdateView),
    Failed(ChainError),
}

impl View for ChainAction {
    type V = ChainActionView;

    open spec fn view(&self) -> ChainActionView {
        match *self {
            ChainAction::Idle => ChainActionView::Idle,
            ChainAction::GetBlock { hash } => ChainActionView::GetBlock { hash },
            ChainAction::GetLogs { addresses, topics, block_hashes } => ChainActionView::GetLogs {
                addresses: addresses@,
                topics: topics@,
                block_hashes: block_hashes@,
            },
            ChainAction::Updated(update) => ChainActionView::Updated(update@),
            ChainAction::Failed(e) => ChainActionView::Failed(e),
        }
    }
}

/// The lowest block number a window of `history_size` blocks holds when its
/// newest block has this number.
pub open spec fn reset_floor(number: u64, history_size: u64) -> u64 {
    if number + 1 >= history_size {
        (number + 1 - history_size) as u64
    } else {
        0
    }
}

/// The blocks `added`, each with the operations and deposits that its batch
/// of logs reports.
pub open spec fn filled(
    added: Seq<BlockView>,
    batches: Seq<Seq<LogView>>,
    user_operation_topic: H256,
    deposited_topic: H256,
) -> Seq<BlockView> {
    Seq::new(
        added.len(),
        |i: int|
            BlockView {
                ops: mined_ops_in(batches[i], user_operation_topic),
                entity_deposits: deposits_in(batches[i], deposited_topic),
                ..added[i]
            },
    )
}

/// The update that reports a window loaded afresh.
pub open spec fn reset_update(window: Seq<BlockView>) -> ChainUpdateView {
    ChainUpdateView {
        latest_block_number: window.last().number,
        latest_block_hash: window.last().hash,
        latest_block_timestamp: window.last().timestamp,
        earliest_remembered_block_number: window[0].number,
        reorg_depth: 0,
        mined_ops: all_ops(window),
        unmined_ops: Seq::empty(),
        entity_deposits: all_deposits(window),
        unmined_entity_deposits: Seq::empty(),
        reorg_larger_than_history: false,
    }
}

/// The batches of logs, each log as a mathematical value.
pub open spec fn log_batches(batches: Seq<Vec<Log>>) -> Seq<Seq<LogView>> {
    batches.map_values(|logs: Vec<Log>| log_views(logs@))
}

/// The blocks that come in either replace the whole window, or the first of
/// them names the newest block that stays as its parent.
pub open spec fn connects(window: Seq<BlockView>, first: BlockView, current: u64) -> bool {
    let replaced = replaced_count(window.len(), current, first.number);
    replaced == window.len() || window[window.len() - replaced - 1].hash == first.parent_hash
}

impl ChainModel {
    /// The window holds blocks with consecutive numbers, no more than the
    /// history allows, and the blocks of a sync in flight are consecutive
    /// too and fit the step the sync has reached.
    pub open spec fn wf(self) -> bool {
        &&& self.history_size >= 1
        &&& self.blocks.len() <= self.history_size
        &&& consecutive(self.blocks)
        &&& consecutive(self.added)
        &&& forall|i: int| 0 <= i < self.blocks.len() ==> (#[trigger] self.blocks[i]).number < u64::MAX
        &&& forall|i: int| 0 <= i < self.added.len() ==> (#[trigger] self.added[i]).number < u64::MAX
        &&& match self.phase {
            SyncPhase::Idle => self.added.len() == 0,
            SyncPhase::LoadingHistory { min_block_number, join_at } => {
                &&& self.added.len() > 0
                &&& self.added[0].number > min_block_number
                &&& match join_at {
                    Some(current) => self.is_head(current) && min_block_number == current + 1,
                    None => self.added.last().number - min_block_number < self.history_size,
                }
            },
            SyncPhase::Connecting { current } => {
                &&& self.added.len() > 0
                &&& self.is_head(current)
                &&& 0 < self.added[0].number <= current + 1
            },
            SyncPhase::LoadingOps { join_at } => {
                &&& self.added.len() > 0
                &&& match join_at {
                    Some(current) => {
                        &&& self.is_head(current)
                        &&& self.added[0].number <= current + 1
                        &&& connects(self.blocks, self.added[0], current)
                    },
                    None => self.added.len() <= self.history_size,
                }
            },
        }
    }

    /// The window is not empty and its newest block has this number.
    pub open spec fn is_head(self, current: u64) -> bool {
        self.blocks.len() > 0 && self.blocks.last().number == current
    }

    /// Each block of the window, and each block loaded so far, names the
    /// block before it as its parent.
    pub open spec fn linked(self) -> bool {
        hash_linked(self.blocks) && hash_linked(self.added)
    }

    /// True when the window holds a block with this number.
    pub open spec fn holds(self, number: int) -> bool {
        self.blocks.len() > 0 && self.blocks[0].number <= number && number
            - self.blocks[0].number < self.blocks.len()
    }

    /// The sync is given up: the window stays as it was.
    pub open spec fn fail(self, error: ChainError) -> (ChainModel, ChainActionView) {
        (
            ChainModel { added: Seq::empty(), phase: SyncPhase::Idle, ..self },
            ChainActionView::Failed(error),
        )
    }

    /// The logs of the blocks loaded are asked for.
    pub open spec fn request_logs(self, join_at: Option<u64>) -> (ChainModel, ChainActionView) {
        (
            ChainModel { phase: SyncPhase::LoadingOps { join_at }, ..self },
            ChainActionView::GetLogs {
                addresses: self.entry_point_addresses,
                topics: seq![self.deposited_topic, self.user_operation_topic],
                block_hashes: self.added.map_values(|b: BlockView| b.hash),
            },
        )
    }

    /// Loading goes on backwards until the oldest new block names a block of
    /// the window as its parent, the window holds no block with the number
    /// before it, or it is the first block of the chain.
    pub open spec fn continue_connecting(self, current: u64) -> (ChainModel, ChainActionView) {
        let earliest = self.added[0];
        if earliest.number == 0 || !self.holds(earliest.number - 1) || self.blocks[earliest.number
            - 1 - self.blocks[0].number].hash == earliest.parent_hash {
            self.request_logs(Some(current))
        } else {
            (
                ChainModel { phase: SyncPhase::Connecting { current }, ..self },
                ChainActionView::GetBlock { hash: earliest.parent_hash },
            )
        }
    }

    /// Loading goes on backwards until the oldest new block has a number of
    /// at most `min_block_number`.
    pub open spec fn continue_loading(self, min_block_number: u64, join_at: Option<u64>) -> (
        ChainModel,
        ChainActionView,
    ) {
        if self.added[0].number > min_block_number {
            (
                ChainModel {
                    phase: SyncPhase::LoadingHistory { min_block_number, join_at },
                    ..self
                },
                ChainActionView::GetBlock { hash: self.added[0].parent_hash },
            )
        } else {
            match join_at {
                None => self.request_logs(None),
                Some(current) => self.continue_connecting(current),
            }
        }
    }

    /// A sync to `new_head` begins. An empty window, or one that the new head
    /// is more than the history ahead of, is loaded afresh. A new head that
    /// is the history or more behind the window is refused. Otherwise the
    /// blocks from the new head back to the window are loaded.
    pub open spec fn sync_to_block(self, new_head: Block) -> (ChainModel, ChainActionView) {
        match summary_of(new_head, None) {
            Err(e) => self.fail(e),
            Ok(head) => {
                let start = ChainModel { added: seq![head], ..self };
                if self.blocks.len() == 0 {
                    start.continue_loading(reset_floor(head.number, self.history_size), None)
                } else {
                    let current = self.blocks.last().number;
                    if current >= head.number + self.history_size {
                        self.fail(ChainError::ChainInconsistent)
                    } else if current + self.history_size < head.number {
                        start.continue_loading(reset_floor(head.number, self.history_size), None)
                    } else {
                        start.continue_loading((current + 1) as u64, Some(current))
                    }
                }
            },
        }
    }

    /// The parent of the oldest new block as the provider answered with it.
    pub open spec fn parent_of(self, response: BlockResponse) -> Result<BlockView, ChainError> {
        match response {
            BlockResponse::Failed => Err(ChainError::ProviderUnavailable),
            BlockResponse::Missing => Err(ChainError::ProviderInconsistent),
            BlockResponse::Found(block) => summary_of(
                block,
                Some((self.added[0].number - 1) as u64),
            ),
        }
    }

    /// The request that the caller still owes an answer to.
    pub open spec fn pending_action(self) -> ChainActionView {
        match self.phase {
            SyncPhase::Idle => ChainActionView::Idle,
            SyncPhase::LoadingHistory { .. } | SyncPhase::Connecting { .. } => ChainActionView::GetBlock {
                hash: self.added[0].parent_hash,
            },
            SyncPhase::LoadingOps { join_at } => self.request_logs(join_at).1,
        }
    }

    /// The provider has answered the request for a block.
    pub open spec fn on_block(self, response: BlockResponse) -> (ChainModel, ChainActionView) {
        match self.phase {
            SyncPhase::LoadingHistory { min_block_number, join_at } => match self.parent_of(
                response,
            ) {
                Err(e) => self.fail(e),
                Ok(parent) => ChainModel {
                    added: seq![parent] + self.added,
                    ..self
                }.continue_loading(min_block_number, join_at),
            },
            SyncPhase::Connecting { current } => match self.parent_of(response) {
                Err(e) => self.fail(e),
                Ok(parent) => ChainModel {
                    added: seq![parent] + self.added,
                    ..self
                }.continue_connecting(current),
            },
            _ => (self, self.pending_action()),
        }
    }

    /// The provider has answered the request for logs: one batch for each
    /// new block, or nothing where it could not answer.
    pub open spec fn on_logs(self, response: Option<Seq<Seq<LogView>>>) -> (
        ChainModel,
        ChainActionView,
    ) {
        match self.phase {
            SyncPhase::LoadingOps { join_at } => match response {
                None => self.fail(ChainError::ProviderUnavailable),
                Some(batches) => if batches.len() != self.added.len() {
                    self.fail(ChainError::ProviderInconsistent)
                } else {
                    let new_blocks = filled(
                        self.added,
                        batches,
                        self.user_operation_topic,
                        self.deposited_topic,
                    );
                    match join_at {
                        None => (
                            ChainModel {
                                blocks: new_blocks,
                                added: Seq::empty(),
                                phase: SyncPhase::Idle,
                                ..self
                            },
                            ChainActionView::Updated(reset_update(new_blocks)),
                        ),
                        Some(current) => (
                            ChainModel {
                                blocks: window_after(
                                    self.blocks,
                                    new_blocks,
                                    current,
                                    self.history_size,
                                ),
                                added: Seq::empty(),
                                phase: SyncPhase::Idle,
                                ..self
                            },
                            ChainActionView::Updated(
                                update_for(self.blocks, new_blocks, current, self.history_size),
                            ),
                        ),
                    }
                },
            },
            _ => (self, self.pending_action()),
        }
    }
}

/// The window after new blocks came in holds consecutive numbers.
pub proof fn lemma_window_after_consecutive(
    window: Seq<BlockView>,
    added: Seq<BlockView>,
    current: u64,
    history_size: u64,
)
    requires
        history_size >= 1,
        consecutive(window),
        consecutive(added),
        added.len() > 0,
        window.len() > 0,
        window.last().number == current,
        added[0].number <= current + 1,
    ensures
        consecutive(window_after(window, added, current, history_size)),
        window_after(window, added, current, history_size).len() <= history_size,
        window_after(window, added, current, history_size).len() > 0,
        window_after(window, added, current, history_size).last() == added.last(),
{
    let kept = kept_blocks(window, current, added[0].number);
    let joined = kept + added;
    let after = window_after(window, added, current, history_size);
    let evicted = evicted_count(joined.len(), history_size) as int;
    assert forall|i: int| 0 <= i < joined.len() implies (#[trigger] joined[i]).number == joined[0].number
        + i by {
        if i < kept.len() {
            assert(joined[i] == window[i]);
            assert(joined[0] == window[0]);
        } else {
            assert(joined[i] == added[i - kept.len()]);
            if kept.len() > 0 {
                assert(joined[0] == window[0]);
                assert(window.last() == window[window.len() - 1]);
            } else {
                assert(joined[0] == added[0]);
            }
        }
    }
    assert forall|i: int| 0 <= i < after.len() implies (#[trigger] after[i]).number == after[0].number
        + i by {
        assert(after[i] == joined[i + evicted]);
        assert(after[0] == joined[evicted]);
    }
    assert(after.last() == joined[joined.len() - 1]);
}

/// Where the window and the new blocks are each linked by parent hashes, and
/// the new blocks connect to what stays of the window, the window after they
/// came in is linked too.
pub proof fn lemma_window_after_linked(
    window: Seq<BlockView>,
    added: Seq<BlockView>,
    current: u64,
    history_size: u64,
)
    requires
        hash_linked(window),
        hash_linked(added),
        added.len() > 0,
        connects(window, added[0], current),
    ensures
        hash_linked(window_after(window, added, current, history_size)),
{
    let kept = kept_blocks(window, current, added[0].number);
    let joined = kept + added;
    let after = window_after(window, added, current, history_size);
    let evicted = evicted_count(joined.len(), history_size) as int;
    assert forall|i: int, j: int|
        0 <= i < joined.len() && j == i + 1 && j < joined.len() implies (#[trigger] joined[j]).parent_hash
        == (#[trigger] joined[i]).hash by {
        if j < kept.len() {
            assert(joined[i] == window[i]);
            assert(joined[j] == window[j]);
        } else if i < kept.len() {
            assert(joined[i] == window[i]);
            assert(joined[j] == added[0]);
        } else {
            assert(joined[i] == added[i - kept.len()]);
            assert(joined[j] == added[j - kept.len()]);
        }
    }
    assert forall|i: int, j: int|
        0 <= i < after.len() && j == i + 1 && j < after.len() implies (#[trigger] after[j]).parent_hash
        == (#[trigger] after[i]).hash by {
        assert(after[i] == joined[i + evicted]);
        assert(after[j] == joined[j + evicted]);
    }
}

/// The blocks that left the front of the window when `added` came in.
pub open spec fn evicted_blocks(
    window: Seq<BlockView>,
    added: Seq<BlockView>,
    current: u64,
    history_size: u64,
) -> Seq<BlockView> {
    let joined = kept_blocks(window, current, added[0].number) + added;
    joined.take(evicted_count(joined.len(), history_size) as int)
}

/// Bringing the window to a new head loses no operation unseen: the
/// operations of the window before are those of the blocks that stay
/// followed by the unmined ones of the update, and the operations of the
/// blocks that stay followed by the mined ones of the update are those of
/// the blocks that left at the front followed by those of the window after.
/// Where no block leaves at the front, the window after holds the operations
/// it held before, less the unmined and with the mined.
pub proof fn law_ops_conserved(
    window: Seq<BlockView>,
    added: Seq<BlockView>,
    current: u64,
    history_size: u64,
)
    requires
        added.len() > 0,
    ensures
        all_ops(window) == all_ops(kept_blocks(window, current, added[0].number)) + update_for(
            window,
            added,
            current,
            history_size,
        ).unmined_ops,
        all_ops(kept_blocks(window, current, added[0].number)) + update_for(
            window,
            added,
            current,
            history_size,
        ).mined_ops == all_ops(evicted_blocks(window, added, current, history_size)) + all_ops(
            window_after(window, added, current, history_size),
        ),
        evicted_blocks(window, added, current, history_size).len() == 0 ==> all_ops(
            window_after(window, added, current, history_size),
        ) == all_ops(kept_blocks(window, current, added[0].number)) + update_for(
            window,
            added,
            current,
            history_size,
        ).mined_ops,
{
    let kept = kept_blocks(window, current, added[0].number);
    let replaced = replaced_blocks(window, current, added[0].number);
    let joined = kept + added;
    let gone = evicted_blocks(window, added, current, history_size);
    let after = window_after(window, added, current, history_size);
    assert(window =~= kept + replaced);
    lemma_all_concat(kept, replaced);
    lemma_all_concat(kept, added);
    assert(joined =~= gone + after);
    lemma_all_concat(gone, after);
    if gone.len() == 0 {
        assert(all_ops(gone) =~= Seq::<MinedOp>::empty());
        assert(all_ops(gone) + all_ops(after) =~= all_ops(after));
    }
}

impl BlockSummary {
    /// Makes a block of the window, without operations, from a block of the
    /// provider. Where a block number is expected, the block must carry it.
    pub fn try_from_block_without_ops(block: Block, expected_block_number: Option<u64>) -> (r:
        Result<BlockSummary, ChainError>)
        ensures
            match summary_of(block, expected_block_number) {
                Ok(view) => r is Ok && r->Ok_0@ == view,
                Err(e) => r == Err::<BlockSummary, _>(e),
            },
    {
        let number = match block.number {
            Some(n) => n,
            None => {
                return Err(ChainError::ProviderInconsistent);
            },
        };
        if number == u64::MAX {
            return Err(ChainError::ProviderInconsistent);
        }
        if let Some(expected) = expected_block_number {
            if number != expected {
                return Err(ChainError::ProviderInconsistent);
            }
        }
        let hash = match block.hash {
            Some(h) => h,
            None => {
                return Err(ChainError::ProviderInconsistent);
            },
        };
        Ok(
            BlockSummary {
                number,
                hash,
                timestamp: block.timestamp,
                parent_hash: block.parent_hash,
                ops: Vec::new(),
                entity_deposits: Vec::new(),
            },
        )
    }
}

/// The recent state of the chain, with the logic to bring it to a new head
/// and to say what changed.
#[derive(Debug)]
pub struct Chain {
    settings: Settings,
    user_operation_topic: H256,
    deposited_topic: H256,
    /// Oldest block at the front, newest at the back.
    blocks: VecDeque<BlockSummary>,
    added: VecDeque<BlockSummary>,
    phase: SyncPhase,
}

impl View for Chain {
    type V = ChainModel;

    closed spec fn view(&self) -> ChainModel {
        ChainModel {
            history_size: self.settings.history_size,
            poll_interval_millis: self.settings.poll_interval_millis,
            entry_point_addresses: self.settings.entry_point_addresses@,
            user_operation_topic: self.user_operation_topic,
            deposited_topic: self.deposited_topic,
            blocks: views(self.blocks@),
            added: views(self.added@),
            phase: self.phase,
        }
    }
}

impl Chain {
    /// The block of the window with this number, if the window holds it.
    pub fn block_with_number(&self, number: u64) -> (r: Option<&BlockSummary>)
        ensures
            match r {
                Some(block) => self@.blocks.len() > 0 && self@.blocks[0].number <= number && number
                    - self@.blocks[0].number < self@.blocks.len() && block@ == self@.blocks[number
                    - self@.blocks[0].number],
                None => self@.blocks.len() == 0 || number < self@.blocks[0].number || number
                    - self@.blocks[0].number >= self@.blocks.len(),
            },
    {
        if self.blocks.len() == 0 {
            return None;
        }
        let earliest_number = self.blocks[0].number;
        if number < earliest_number {
            return None;
        }
        let offset = number - earliest_number;
        if offset >= self.blocks.len() as u64 {
            return None;
        }
        let block = &self.blocks[offset as usize];
        assert(block@ == views(self.blocks@)[offset as int]);
        Some(block)
    }

    /// The update that reports the window as it stands now.
    fn new_update(
        &self,
        reorg_depth: u64,
        mined_ops: Vec<MinedOp>,
        unmined_ops: Vec<MinedOp>,
        entity_deposits: Vec<DepositInfo>,
        unmined_entity_deposits: Vec<DepositInfo>,
        reorg_larger_than_history: bool,
    ) -> (update: ChainUpdate)
        requires
            self@.blocks.len() > 0,
        ensures
            update@ == (ChainUpdateView {
                latest_block_number: self@.blocks.last().number,
                latest_block_hash: self@.blocks.last().hash,
                latest_block_timestamp: self@.blocks.last().timestamp,
                earliest_remembered_block_number: self@.blocks[0].number,
                reorg_depth,
                mined_ops: mined_ops@,
                unmined_ops: unmined_ops@,
                entity_deposits: entity_deposits@,
                unmined_entity_deposits: unmined_entity_deposits@,
                reorg_larger_than_history,
            }),
    {
        let latest_block = &self.blocks[self.blocks.len() - 1];
        let earliest_block = &self.blocks[0];
        assert(latest_block@ == views(self.blocks@).last());
        assert(earliest_block@ == views(self.blocks@)[0]);
        ChainUpdate {
            latest_block_number: latest_block.number,
            latest_block_hash: latest_block.hash,
            latest_block_timestamp: latest_block.timestamp,
            earliest_remembered_block_number: earliest_block.number,
            reorg_depth,
            mined_ops,
            unmined_ops,
            entity_deposits,
            unmined_entity_deposits,
            reorg_larger_than_history,
        }
    }

    /// Takes `added_blocks` into the window. Their numbers may overlap those
    /// of the window after a reorg: the blocks of the window from the first
    /// added number on give way. Returns what changed.
    pub fn update_with_blocks(
        &mut self,
        current_block_number: u64,
        added_blocks: VecDeque<BlockSummary>,
    ) -> (update: ChainUpdate)
        requires
            old(self)@.history_size >= 1,
            added_blocks@.len() > 0,
            added_blocks@[0].number <= current_block_number + 1,
            current_block_number + 1 - added_blocks@[0].number <= u64::MAX,
        ensures
            final(self)@ == (ChainModel {
                blocks: window_after(
                    old(self)@.blocks,
                    views(added_blocks@),
                    current_block_number,
                    old(self)@.history_size,
                ),
                ..old(self)@
            }),
            update@ == update_for(
                old(self)@.blocks,
                views(added_blocks@),
                current_block_number,
                old(self)@.history_size,
            ),
            old(self)@.wf() && old(self)@.phase is Idle && old(self)@.is_head(
                current_block_number,
            ) && consecutive(views(added_blocks@)) && added_blocks@.last().number < u64::MAX
                ==> final(self)@.wf(),
    {
        proof {
            let window = self@.blocks;
            let incoming = views(added_blocks@);
            if self@.wf() && self@.is_head(current_block_number) && consecutive(incoming)
                && added_blocks@.last().number < u64::MAX {
                lemma_window_after_consecutive(
                    window,
                    incoming,
                    current_block_number,
                    self@.history_size,
                );
                let after = window_after(
                    window,
                    incoming,
                    current_block_number,
                    self@.history_size,
                );
                assert(incoming.last() == added_blocks@.last()@);
                assert forall|i: int| 0 <= i < after.len() implies (#[trigger] after[i]).number
                    < u64::MAX by {
                    assert(after[i].number == after[0].number + i);
                    assert(after.last() == after[after.len() - 1]);
                    assert(after.last().number == after[0].number + after.len() - 1);
                }
            }
        }
        let mut added = added_blocks;
        let ghost window = views(self.blocks@);
        let ghost incoming = views(added@);
        let ghost first_number = incoming[0].number;
        let ghost kept = kept_blocks(window, current_block_number, first_number);
        let mined_ops = collect_ops(&added, 0);
        let entity_deposits = collect_deposits(&added, 0);
        assert(incoming.skip(0) =~= incoming);
        let first = added[0].number;
        assert(first == first_number);
        let reorg_depth: u64 = if first <= current_block_number {
            current_block_number - first + 1
        } else {
            0
        };
        let len = self.blocks.len();
        let replaced: usize = if reorg_depth <= len as u64 {
            reorg_depth as usize
        } else {
            len
        };
        assert(replaced == replaced_count(window.len(), current_block_number, first_number));
        let unmined_ops = collect_ops(&self.blocks, len - replaced);
        let unmined_entity_deposits = collect_deposits(&self.blocks, len - replaced);
        let is_reorg_larger_than_history = reorg_depth >= self.settings.history_size;

        let mut popped: usize = 0;
        while popped < replaced
            invariant
                popped <= replaced <= len,
                len == window.len(),
                views(self.blocks@) == window.take(len - popped),
                self@ == (ChainModel { blocks: views(self.blocks@), ..old(self)@ }),
            decreases replaced - popped,
        {
            let ghost before = self.blocks@;
            assert(views(before).len() == before.len());
            let gone = self.blocks.pop_back();
            popped += 1;
            assert(gone is Some);
            assert(self.blocks@ == before.subrange(0, before.len() - 1));
            assert(views(self.blocks@) =~= window.take(len - popped));
        }
        assert(views(self.blocks@) == kept);
        while added.len() > 0
            invariant
                views(self.blocks@) + views(added@) == kept + incoming,
                self@ == (ChainModel { blocks: views(self.blocks@), ..old(self)@ }),
            decreases added@.len(),
        {
            let ghost blocks_before = views(self.blocks@);
            let ghost added_before = views(added@);
            match added.pop_front() {
                Some(block) => {
                    self.blocks.push_back(block);
                    assert(views(self.blocks@) =~= blocks_before.push(added_before[0]));
                    assert(views(added@) =~= added_before.skip(1));
                    assert(views(self.blocks@) + views(added@) =~= blocks_before + added_before);
                },
                None => {},
            }
        }
        assert(views(self.blocks@) =~= kept + incoming);
        let ghost joined = kept + incoming;
        let ghost evicted: nat = 0;
        while self.blocks.len() as u64 > self.settings.history_size
            invariant
                evicted <= joined.len(),
                views(self.blocks@) == joined.skip(evicted as int),
                joined.len() - evicted >= 1,
                evicted <= evicted_count(joined.len(), self.settings.history_size),
                self.settings.history_size >= 1,
                self@ == (ChainModel { blocks: views(self.blocks@), ..old(self)@ }),
            decreases self.blocks@.len(),
        {
            let ghost before = self.blocks@;
            assert(views(before).len() == before.len());
            let gone = self.blocks.pop_front();
            proof {
                assert(gone is Some);
                assert(self.blocks@ == before.subrange(1, before.len() as int));
                assert forall|i: int| 0 <= i < self.blocks@.len() implies views(
                    self.blocks@,
                )[i] == joined.skip(evicted as int + 1)[i] by {
                    assert(views(before)[i + 1] == joined.skip(evicted as int)[i + 1]);
                }
                evicted = evicted + 1;
                assert(views(self.blocks@) =~= joined.skip(evicted as int));
            }
        }
        assert(evicted == evicted_count(joined.len(), self.settings.history_size));
        self.new_update(
            reorg_depth,
            mined_ops,
            unmined_ops,
            entity_deposits,
            unmined_entity_deposits,
            is_reorg_larger_than_history,
        )
    }
}

impl Chain {
    /// A tracker with an empty window.
    pub fn new(settings: Settings) -> (chain: Chain)
        requires
            settings.history_size >= 1,
        ensures
            chain@.wf(),
            chain@.history_size == settings.history_size,
            chain@.poll_interval_millis == settings.poll_interval_millis,
            chain@.entry_point_addresses == settings.entry_point_addresses@,
            chain@.user_operation_topic.bytes@ == topic_of(
                "UserOperationEvent(bytes32,address,address,uint256,bool,uint256,uint256)"@,
            ),
            chain@.deposited_topic.bytes@ == topic_of("Deposited(address,uint256)"@),
            chain@.blocks.len() == 0,
            chain@.added.len() == 0,
            chain@.phase is Idle,
    {
        let chain = Chain {
            settings,
            user_operation_topic: event_topic(user_operation_event_signature()),
            deposited_topic: event_topic(deposited_signature()),
            blocks: VecDeque::new(),
            added: VecDeque::new(),
            phase: SyncPhase::Idle,
        };
        assert(chain@.blocks =~= Seq::empty());
        assert(chain@.added =~= Seq::empty());
        chain
    }

    /// The hash of the window's newest block, or the zero hash while the
    /// window is empty. A head with this hash brings nothing new.
    pub fn latest_block_hash(&self) -> (hash: H256)
        ensures
            self@.blocks.len() > 0 ==> hash == self@.blocks.last().hash,
            self@.blocks.len() == 0 ==> all_zero(hash.bytes@),
    {
        if self.blocks.len() == 0 {
            H256::zero()
        } else {
            let block = &self.blocks[self.blocks.len() - 1];
            assert(block@ == views(self.blocks@).last());
            block.hash
        }
    }

    /// How many blocks the window holds.
    pub fn len(&self) -> (n: usize)
        ensures
            n == self@.blocks.len(),
    {
        self.blocks.len()
    }

    /// Begins to bring the window to `new_head`. A sync still in flight is
    /// dropped for it.
    pub fn sync_to_block(&mut self, new_head: Block) -> (action: ChainAction)
        requires
            old(self)@.wf(),
        ensures
            (final(self)@, action@) == (ChainModel {
                added: Seq::empty(),
                phase: SyncPhase::Idle,
                ..old(self)@
            }).sync_to_block(new_head),
            final(self)@.wf(),
            hash_linked(old(self)@.blocks) ==> final(self)@.linked(),
    {
        self.added.clear();
        self.phase = SyncPhase::Idle;
        assert(views(self.added@) =~= Seq::empty());
        let head = match BlockSummary::try_from_block_without_ops(new_head, None) {
            Ok(head) => head,
            Err(e) => {
                return self.fail(e);
            },
        };
        let head_number = head.number;
        let history_size = self.settings.history_size;
        let floor: u64 = if head_number as u128 + 1 >= history_size as u128 {
            (head_number as u128 + 1 - history_size as u128) as u64
        } else {
            0
        };
        if self.blocks.len() == 0 {
            self.added.push_back(head);
            assert(views(self.added@) =~= seq![head@]);
            return self.continue_loading(floor, None);
        }
        let current = self.blocks[self.blocks.len() - 1].number;
        assert(current == views(self.blocks@).last().number);
        if current as u128 >= head_number as u128 + history_size as u128 {
            return self.fail(ChainError::ChainInconsistent);
        }
        self.added.push_back(head);
        assert(views(self.added@) =~= seq![head@]);
        if (current as u128 + history_size as u128) < head_number as u128 {
            self.continue_loading(floor, None)
        } else {
            assert(views(self.blocks@)[self.blocks@.len() - 1].number < u64::MAX);
            self.continue_loading(current + 1, Some(current))
        }
    }

    /// Takes the provider's answer to the request for a block.
    pub fn on_block(&mut self, response: BlockResponse) -> (action: ChainAction)
        requires
            old(self)@.wf(),
        ensures
            (final(self)@, action@) == old(self)@.on_block(response),
            final(self)@.wf(),
            old(self)@.linked() && (response matches BlockResponse::Found(block) ==> block.hash
                == Some(old(self)@.added[0].parent_hash)) ==> final(self)@.linked(),
    {
        match self.phase {
            SyncPhase::LoadingHistory { min_block_number, join_at } => {
                match self.take_parent(response) {
                    Ok(()) => self.continue_loading(min_block_number, join_at),
                    Err(e) => self.fail(e),
                }
            },
            SyncPhase::Connecting { current } => {
                match self.take_parent(response) {
                    Ok(()) => self.continue_connecting(current),
                    Err(e) => self.fail(e),
                }
            },
            _ => self.pending_action(),
        }
    }

    /// Takes the provider's answer to the request for logs: one batch for
    /// each block asked about, in the order asked, or nothing where the
    /// provider could not answer. With the logs the sync is complete: the
    /// window moves to the new head, or stays as it was where it fails.
    pub fn on_logs(&mut self, response: Option<Vec<Vec<Log>>>) -> (action: ChainAction)
        requires
            old(self)@.wf(),
        ensures
            (final(self)@, action@) == old(self)@.on_logs(
                match response {
                    Some(batches) => Some(log_batches(batches@)),
                    None => None,
                },
            ),
            final(self)@.wf(),
            old(self)@.linked() ==> final(self)@.linked(),
    {
        let join_at = match self.phase {
            SyncPhase::LoadingOps { join_at } => join_at,
            _ => {
                return self.pending_action();
            },
        };
        let batches = match response {
            Some(batches) => batches,
            None => {
                return self.fail(ChainError::ProviderUnavailable);
            },
        };
        if batches.len() != self.added.len() {
            assert(log_batches(batches@).len() == batches@.len());
            return self.fail(ChainError::ProviderInconsistent);
        }
        let ghost before = self@;
        let ghost new_blocks = filled(
            before.added,
            log_batches(batches@),
            before.user_operation_topic,
            before.deposited_topic,
        );
        let new_blocks_exec = self.fill_blocks(&batches);
        self.phase = SyncPhase::Idle;
        proof {
            assert(views(new_blocks_exec@) == new_blocks);
            assert(new_blocks.len() == before.added.len());
            assert forall|i: int| 0 <= i < new_blocks.len() implies (#[trigger] new_blocks[i]).number
                == before.added[i].number && new_blocks[i].hash == before.added[i].hash
                && new_blocks[i].parent_hash == before.added[i].parent_hash by {}
            assert(consecutive(new_blocks)) by {
                assert forall|i: int| 0 <= i < new_blocks.len() implies (#[trigger] new_blocks[i]).number
                    == new_blocks[0].number + i by {
                    assert(before.added[i].number == before.added[0].number + i);
                }
            }
            if hash_linked(before.added) {
                assert forall|i: int, j: int|
                    0 <= i < new_blocks.len() && j == i + 1 && j < new_blocks.len() implies (
                #[trigger] new_blocks[j]).parent_hash == (#[trigger] new_blocks[i]).hash by {
                    assert(before.added[j].parent_hash == before.added[i].hash);
                }
            }
        }
        match join_at {
            None => {
                let mined_ops = collect_ops(&new_blocks_exec, 0);
                let entity_deposits = collect_deposits(&new_blocks_exec, 0);
                assert(new_blocks.skip(0) =~= new_blocks);
                self.blocks = new_blocks_exec;
                let update = self.new_update(
                    0,
                    mined_ops,
                    Vec::new(),
                    entity_deposits,
                    Vec::new(),
                    false,
                );
                ChainAction::Updated(update)
            },
            Some(current) => {
                proof {
                    lemma_window_after_consecutive(
                        before.blocks,
                        new_blocks,
                        current,
                        before.history_size,
                    );
                    if before.linked() {
                        lemma_window_after_linked(
                            before.blocks,
                            new_blocks,
                            current,
                            before.history_size,
                        );
                    }
                    let after = window_after(
                        before.blocks,
                        new_blocks,
                        current,
                        before.history_size,
                    );
                    assert forall|i: int| 0 <= i < after.len() implies (#[trigger] after[i]).number
                        < u64::MAX by {
                        assert(after[i].number == after[0].number + i);
                        assert(after.last() == after[after.len() - 1]);
                        assert(after.last().number == after[0].number + after.len() - 1);
                        assert(new_blocks.last() == new_blocks[new_blocks.len() - 1]);
                    }
                }
                let update = self.update_with_blocks(current, new_blocks_exec);
                ChainAction::Updated(update)
            },
        }
    }

    /// Moves the blocks loaded out of the tracker, each with the operations
    /// and deposits that its batch of logs reports.
    fn fill_blocks(&mut self, batches: &Vec<Vec<Log>>) -> (blocks: VecDeque<BlockSummary>)
        requires
            batches@.len() == old(self)@.added.len(),
        ensures
            views(blocks@) == filled(
                old(self)@.added,
                log_batches(batches@),
                old(self)@.user_operation_topic,
                old(self)@.deposited_topic,
            ),
            final(self)@ == (ChainModel { added: Seq::empty(), ..old(self)@ }),
    {
        let ghost before = self@;
        let ghost target = filled(
            before.added,
            log_batches(batches@),
            before.user_operation_topic,
            before.deposited_topic,
        );
        let mut blocks: VecDeque<BlockSummary> = VecDeque::new();
        let mut i: usize = 0;
        assert(views(blocks@) =~= target.take(0));
        assert(views(self.added@).len() == self.added@.len());
        while i < batches.len()
            invariant
                i <= batches@.len(),
                batches@.len() == before.added.len(),
                self.added@.len() == batches@.len() - i,
                views(self.added@) == before.added.skip(i as int),
                views(blocks@) == target.take(i as int),
                target == filled(
                    before.added,
                    log_batches(batches@),
                    before.user_operation_topic,
                    before.deposited_topic,
                ),
                self@ == (ChainModel { added: views(self.added@), ..before }),
            decreases batches@.len() - i,
        {
            let ghost added_before = self.added@;
            let ghost blocks_before = blocks@;
            match self.added.pop_front() {
                Some(block) => {
                    assert(block@ == views(added_before)[0]);
                    assert(block@ == before.added[i as int]);
                    let ops = load_mined_ops(&batches[i], &self.user_operation_topic);
                    let entity_deposits = load_entity_deposits(&batches[i], &self.deposited_topic);
                    let full = BlockSummary {
                        number: block.number,
                        hash: block.hash,
                        timestamp: block.timestamp,
                        parent_hash: block.parent_hash,
                        ops,
                        entity_deposits,
                    };
                    proof {
                        assert(log_batches(batches@)[i as int] == log_views(batches@[i as int]@));
                        assert(full@ == target[i as int]);
                    }
                    blocks.push_back(full);
                    proof {
                        assert(views(blocks@) =~= views(blocks_before).push(full@));
                        assert(views(blocks@) =~= target.take(i + 1));
                        assert forall|k: int| 0 <= k < self.added@.len() implies views(
                            self.added@,
                        )[k] == before.added.skip(i + 1)[k] by {
                            assert(views(added_before)[k + 1] == before.added.skip(i as int)[k
                                + 1]);
                        }
                        assert(views(self.added@) =~= before.added.skip(i + 1));
                    }
                },
                None => {},
            }
            i += 1;
        }
        assert(target.take(i as int) =~= target);
        assert(views(self.added@) =~= Seq::empty());
        blocks
    }

    /// Puts the provider's answer in front of the blocks loaded, as the
    /// parent of the oldest of them.
    fn take_parent(&mut self, response: BlockResponse) -> (r: Result<(), ChainError>)
        requires
            old(self)@.wf(),
            old(self)@.added.len() > 0,
            old(self)@.added[0].number > 0,
        ensures
            match old(self)@.parent_of(response) {
                Ok(parent) => r is Ok && final(self)@ == (ChainModel {
                    added: seq![parent] + old(self)@.added,
                    ..old(self)@
                }),
                Err(e) => r == Err::<(), _>(e) && final(self)@ == old(self)@,
            },
    {
        let block = match response {
            BlockResponse::Found(block) => block,
            BlockResponse::Missing => {
                return Err(ChainError::ProviderInconsistent);
            },
            BlockResponse::Failed => {
                return Err(ChainError::ProviderUnavailable);
            },
        };
        let earliest = &self.added[0];
        assert(earliest@ == views(self.added@)[0]);
        let expected = earliest.number - 1;
        match BlockSummary::try_from_block_without_ops(block, Some(expected)) {
            Ok(parent) => {
                let ghost added_before = self.added@;
                self.added.push_front(parent);
                assert(views(self.added@) =~= seq![parent@] + views(added_before));
                Ok(())
            },
            Err(e) => Err(e),
        }
    }

    fn fail(&mut self, error: ChainError) -> (action: ChainAction)
        requires
            old(self)@.history_size >= 1,
            old(self)@.blocks.len() <= old(self)@.history_size,
            consecutive(old(self)@.blocks),
            forall|i: int|
                0 <= i < old(self)@.blocks.len() ==> (#[trigger] old(self)@.blocks[i]).number
                    < u64::MAX,
        ensures
            (final(self)@, action@) == old(self)@.fail(error),
            final(self)@.wf(),
            hash_linked(old(self)@.blocks) ==> final(self)@.linked(),
    {
        self.added.clear();
        self.phase = SyncPhase::Idle;
        assert(views(self.added@) =~= Seq::empty());
        ChainAction::Failed(error)
    }

    fn copy_addresses(&self) -> (addresses: Vec<Address>)
        ensures
            addresses@ == self@.entry_point_addresses,
    {
        let mut addresses: Vec<Address> = Vec::new();
        let mut i: usize = 0;
        while i < self.settings.entry_point_addresses.len()
            invariant
                i <= self.settings.entry_point_addresses@.len(),
                addresses@ == self.settings.entry_point_addresses@.take(i as int),
            decreases self.settings.entry_point_addresses@.len() - i,
        {
            addresses.push(self.settings.entry_point_addresses[i]);
            i += 1;
            assert(addresses@ =~= self.settings.entry_point_addresses@.take(i as int));
        }
        assert(addresses@ =~= self.settings.entry_point_addresses@);
        addresses
    }

    /// The request for the logs of the blocks loaded.
    fn logs_request(&self) -> (action: ChainAction)
        ensures
            action@ == self@.request_logs(None).1,
    {
        let mut block_hashes: Vec<H256> = Vec::new();
        let mut i: usize = 0;
        let ghost hashes = self@.added.map_values(|b: BlockView| b.hash);
        while i < self.added.len()
            invariant
                i <= self.added@.len(),
                hashes == self@.added.map_values(|b: BlockView| b.hash),
                block_hashes@ == hashes.take(i as int),
            decreases self.added@.len() - i,
        {
            let block = &self.added[i];
            assert(block@ == views(self.added@)[i as int]);
            block_hashes.push(block.hash);
            i += 1;
            assert(block_hashes@ =~= hashes.take(i as int));
        }
        assert(hashes.take(i as int) =~= hashes);
        let mut topics: Vec<H256> = Vec::new();
        topics.push(self.deposited_topic);
        topics.push(self.user_operation_topic);
        assert(topics@ =~= seq![self.deposited_topic, self.user_operation_topic]);
        ChainAction::GetLogs { addresses: self.copy_addresses(), topics, block_hashes }
    }

    fn pending_action(&self) -> (action: ChainAction)
        requires
            self@.wf(),
        ensures
            action@ == self@.pending_action(),
    {
        match self.phase {
            SyncPhase::Idle => ChainAction::Idle,
            SyncPhase::LoadingHistory { .. } | SyncPhase::Connecting { .. } => {
                let earliest = &self.added[0];
                assert(earliest@ == views(self.added@)[0]);
                ChainAction::GetBlock { hash: earliest.parent_hash }
            },
            SyncPhase::LoadingOps { .. } => self.logs_request(),
        }
    }

    fn request_logs(&mut self, join_at: Option<u64>) -> (action: ChainAction)
        ensures
            (final(self)@, action@) == old(self)@.request_logs(join_at),
    {
        self.phase = SyncPhase::LoadingOps { join_at };
        self.logs_request()
    }

    fn continue_connecting(&mut self, current: u64) -> (action: ChainAction)
        requires
            old(self)@.history_size >= 1,
            old(self)@.blocks.len() <= old(self)@.history_size,
            consecutive(old(self)@.blocks),
            consecutive(old(self)@.added),
            forall|i: int|
                0 <= i < old(self)@.blocks.len() ==> (#[trigger] old(self)@.blocks[i]).number
                    < u64::MAX,
            forall|i: int|
                0 <= i < old(self)@.added.len() ==> (#[trigger] old(self)@.added[i]).number
                    < u64::MAX,
            old(self)@.added.len() > 0,
            old(self)@.is_head(current),
            old(self)@.added[0].number <= current + 1,
        ensures
            (final(self)@, action@) == old(self)@.continue_connecting(current),
            final(self)@.wf(),
            old(self)@.linked() ==> final(self)@.linked(),
    {
        let earliest = &self.added[0];
        assert(earliest@ == views(self.added@)[0]);
        let earliest_number = earliest.number;
        let parent_hash = earliest.parent_hash;
        let ghost window = self@.blocks;
        proof {
            assert(window.last() == window[window.len() - 1]);
            assert(window.last().number == window[0].number + window.len() - 1);
        }
        if earliest_number == 0 {
            return self.request_logs(Some(current));
        }
        let connected = match self.block_with_number(earliest_number - 1) {
            None => true,
            Some(presumed_parent) => presumed_parent.hash == parent_hash,
        };
        if connected {
            self.request_logs(Some(current))
        } else {
            self.phase = SyncPhase::Connecting { current };
            ChainAction::GetBlock { hash: parent_hash }
        }
    }

    fn continue_loading(&mut self, min_block_number: u64, join_at: Option<u64>) -> (action:
        ChainAction)
        requires
            old(self)@.history_size >= 1,
            old(self)@.blocks.len() <= old(self)@.history_size,
            consecutive(old(self)@.blocks),
            consecutive(old(self)@.added),
            forall|i: int|
                0 <= i < old(self)@.blocks.len() ==> (#[trigger] old(self)@.blocks[i]).number
                    < u64::MAX,
            forall|i: int|
                0 <= i < old(self)@.added.len() ==> (#[trigger] old(self)@.added[i]).number
                    < u64::MAX,
            old(self)@.added.len() > 0,
            match join_at {
                Some(current) => old(self)@.is_head(current) && min_block_number == current + 1
                    && (old(self)@.added[0].number >= min_block_number || old(self)@.added.len()
                    == 1),
                None => old(self)@.added.last().number - min_block_number < old(
                    self,
                )@.history_size && (old(self)@.added[0].number >= min_block_number || old(
                    self,
                )@.added.len() == 1),
            },
        ensures
            (final(self)@, action@) == old(self)@.continue_loading(min_block_number, join_at),
            final(self)@.wf(),
            old(self)@.linked() ==> final(self)@.linked(),
    {
        let earliest = &self.added[0];
        assert(earliest@ == views(self.added@)[0]);
        if earliest.number > min_block_number {
            let hash = earliest.parent_hash;
            self.phase = SyncPhase::LoadingHistory { min_block_number, join_at };
            return ChainAction::GetBlock { hash };
        }
        proof {
            let added = self@.added;
            assert(added.last() == added[added.len() - 1]);
            assert(added.last().number == added[0].number + added.len() - 1);
        }
        match join_at {
            None => self.request_logs(None),
            Some(current) => self.continue_connecting(current),
        }
    }
}

/// The mined and unmined operations of an update without those that occur
/// on both sides.
#[derive(Debug, PartialEq, Eq)]
pub struct DedupedOps {
    pub mined_ops: Vec<MinedOp>,
    pub unmined_ops: Vec<MinedOp>,
}

/// True when one of `ops` has this hash.
pub open spec fn has_hash(ops: Seq<MinedOp>, hash: H256) -> bool {
    exists|i: int| 0 <= i < ops.len() && (#[trigger] ops[i]).hash == hash
}

/// The operations of `ops` whose hash none of `others` has, in order.
pub open spec fn without_hashes_of(ops: Seq<MinedOp>, others: Seq<MinedOp>) -> Seq<MinedOp>
    decreases ops.len(),
{
    if ops.len() == 0 {
        Seq::empty()
    } else if has_hash(others, ops.last().hash) {
        without_hashes_of(ops.drop_last(), others)
    } else {
        without_hashes_of(ops.drop_last(), others).push(ops.last())
    }
}

/// What `without_hashes_of` keeps was in `ops`, and none of `others` has its hash.
pub proof fn lemma_without_hashes_of(ops: Seq<MinedOp>, others: Seq<MinedOp>)
    ensures
        forall|i: int|
            0 <= i < without_hashes_of(ops, others).len() ==> has_hash(
                ops,
                (#[trigger] without_hashes_of(ops, others)[i]).hash,
            ) && !has_hash(others, without_hashes_of(ops, others)[i].hash),
    decreases ops.len(),
{
    if ops.len() > 0 {
        lemma_without_hashes_of(ops.drop_last(), others);
        let kept = without_hashes_of(ops, others);
        let kept_before = without_hashes_of(ops.drop_last(), others);
        assert forall|i: int| 0 <= i < kept.len() implies has_hash(ops, (#[trigger] kept[i]).hash)
            && !has_hash(others, kept[i].hash) by {
            if i < kept_before.len() {
                assert(kept[i] == kept_before[i]);
                let k = choose|k: int|
                    0 <= k < ops.drop_last().len() && (#[trigger] ops.drop_last()[k]).hash
                        == kept[i].hash;
                assert(ops[k].hash == kept[i].hash);
            } else {
                assert(kept[i] == ops.last());
                assert(ops[ops.len() - 1].hash == kept[i].hash);
            }
        }
    }
}

/// No operation is left on both sides after the operations that occur as
/// mined and as unmined are taken out.
pub proof fn law_deduped_disjoint(mined: Seq<MinedOp>, unmined: Seq<MinedOp>)
    ensures
        forall|i: int, j: int|
            0 <= i < without_hashes_of(mined, unmined).len() && 0 <= j < without_hashes_of(
                unmined,
                mined,
            ).len() ==> (#[trigger] without_hashes_of(mined, unmined)[i]).hash != (
            #[trigger] without_hashes_of(unmined, mined)[j]).hash,
{
    lemma_without_hashes_of(mined, unmined);
    lemma_without_hashes_of(unmined, mined);
}

fn contains_hash(ops: &Vec<MinedOp>, hash: &H256) -> (r: bool)
    ensures
        r == has_hash(ops@, *hash),
{
    let mut i: usize = 0;
    while i < ops.len()
        invariant
            i <= ops@.len(),
            forall|k: int| 0 <= k < i ==> (#[trigger] ops@[k]).hash != *hash,
        decreases ops@.len() - i,
    {
        if ops[i].hash == *hash {
            return true;
        }
        i += 1;
    }
    false
}

fn filter_out(ops: &Vec<MinedOp>, others: &Vec<MinedOp>) -> (kept: Vec<MinedOp>)
    ensures
        kept@ == without_hashes_of(ops@, others@),
{
    let mut kept: Vec<MinedOp> = Vec::new();
    let mut i: usize = 0;
    while i < ops.len()
        invariant
            i <= ops@.len(),
            kept@ == without_hashes_of(ops@.take(i as int), others@),
        decreases ops@.len() - i,
    {
        proof {
            assert(ops@.take(i + 1).drop_last() =~= ops@.take(i as int));
            assert(ops@.take(i + 1).last() == ops@[i as int]);
        }
        if !contains_hash(others, &ops[i].hash) {
            kept.push(ops[i]);
        }
        i += 1;
    }
    assert(ops@.take(i as int) =~= ops@);
    kept
}

impl ChainUpdate {
    /// Cancels out the operations that occur as mined and as unmined: what is
    /// left on each side has a hash that no operation of the other side has.
    pub fn deduped_ops(&self) -> (deduped: DedupedOps)
        ensures
            deduped.mined_ops@ == without_hashes_of(self.mined_ops@, self.unmined_ops@),
            deduped.unmined_ops@ == without_hashes_of(self.unmined_ops@, self.mined_ops@),
            forall|i: int, j: int|
                0 <= i < deduped.mined_ops@.len() && 0 <= j < deduped.unmined_ops@.len() ==> (
                #[trigger] deduped.mined_ops@[i]).hash != (#[trigger] deduped.unmined_ops@[j]).hash,
    {
        proof {
            law_deduped_disjoint(self.mined_ops@, self.unmined_ops@);
        }
        DedupedOps {
            mined_ops: filter_out(&self.mined_ops, &self.unmined_ops),
            unmined_ops: filter_out(&self.unmined_ops, &self.mined_ops),
        }
    }
}

} // verus!
