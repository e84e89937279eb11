use bundler_core::chain::{
    Block, BlockResponse, BlockSummary, Chain, ChainAction, ChainError, ChainUpdate, DepositInfo,
    MinedOp, Settings,
};
use bundler_core::events::{deposited_signature, event_topic, user_operation_event_signature, Log};
use bundler_core::primitives::{Address, H256};
use bundler_core::uint::U256;
use std::collections::VecDeque;

const HISTORY_SIZE: u64 = 3;
const ENTRY_POINT_ADDRESS: Address = Address { bytes: *b"01234567890123456789" };

#[derive(Clone, Debug)]
struct MockBlock {
    hash: H256,
    op_hashes: Vec<H256>,
    deposit_addresses: Vec<Address>,
}

impl MockBlock {
    fn new(hash: H256, op_hashes: Vec<H256>, deposit_addresses: Vec<Address>) -> Self {
        Self { hash, op_hashes, deposit_addresses }
    }
}

struct ProviderController {
    blocks: Vec<MockBlock>,
}

impl ProviderController {
    fn set_blocks(&mut self, blocks: Vec<MockBlock>) {
        self.blocks = blocks;
    }

    fn get_head(&self) -> Block {
        let hash = self.blocks.last().unwrap().hash;
        self.get_block_by_hash(hash).unwrap()
    }

    fn get_block_by_hash(&self, hash: H256) -> Option<Block> {
        let number = self.blocks.iter().position(|block| block.hash == hash)?;
        let parent_hash = if number > 0 { self.blocks[number - 1].hash } else { H256::zero() };
        Some(Block { hash: Some(hash), parent_hash, number: Some(number as u64), timestamp: 0 })
    }

    fn get_logs_by_block_hash(&self, block_hash: H256) -> Vec<Log> {
        let block = self.blocks.iter().find(|block| block.hash == block_hash);
        let Some(block) = block else {
            return vec![];
        };
        let mut joined_logs: Vec<Log> = Vec::new();
        joined_logs.extend(block.op_hashes.iter().copied().map(fake_log));
        joined_logs.extend(block.deposit_addresses.iter().copied().map(fake_deposit_log));
        joined_logs
    }
}

/// Performs what the chain asks for against the mock provider until the sync ends.
fn sync(chain: &mut Chain, controller: &ProviderController, head: Block) -> Result<ChainUpdate, ChainError> {
    let mut action = chain.sync_to_block(head);
    loop {
        action = match action {
            ChainAction::GetBlock { hash } => {
                let response = match controller.get_block_by_hash(hash) {
                    Some(block) => BlockResponse::Found(block),
                    None => BlockResponse::Missing,
                };
                chain.on_block(response)
            }
            ChainAction::GetLogs { addresses, topics, block_hashes } => {
                assert_eq!(addresses, vec![ENTRY_POINT_ADDRESS]);
                assert_eq!(
                    topics,
                    vec![
                        event_topic(deposited_signature()),
                        event_topic(user_operation_event_signature())
                    ]
                );
                let batches = block_hashes
                    .iter()
                    .map(|hash| controller.get_logs_by_block_hash(*hash))
                    .collect();
                chain.on_logs(Some(batches))
            }
            ChainAction::Updated(update) => return Ok(update),
            ChainAction::Failed(error) => return Err(error),
            ChainAction::Idle => panic!("the chain asked for nothing before the sync ended"),
        };
    }
}

fn sync_to_head(chain: &mut Chain, controller: &ProviderController) -> ChainUpdate {
    sync(chain, controller, controller.get_head()).unwrap()
}

fn new_chain() -> (Chain, ProviderController) {
    let chain = Chain::new(Settings {
        history_size: HISTORY_SIZE,
        poll_interval_millis: 250_000,
        entry_point_addresses: vec![ENTRY_POINT_ADDRESS],
    });
    (chain, ProviderController { blocks: vec![] })
}

fn word_of(address: Address) -> H256 {
    let mut word = H256::zero();
    word.bytes[12..].copy_from_slice(&address.bytes);
    word
}

fn fake_log(op_hash: H256) -> Log {
    let mut data = vec![0u8; 128];
    data[63] = 1; // success
    Log {
        address: ENTRY_POINT_ADDRESS,
        topics: vec![
            event_topic(user_operation_event_signature()),
            op_hash,
            H256::zero(), // sender
            H256::zero(), // paymaster
        ],
        data,
    }
}

fn fake_deposit_log(deposit_address: Address) -> Log {
    Log {
        address: ENTRY_POINT_ADDRESS,
        topics: vec![event_topic(deposited_signature()), word_of(deposit_address)],
        data: vec![0u8; 32],
    }
}

fn fake_mined_op(n: u8) -> MinedOp {
    MinedOp {
        hash: hash(n),
        entry_point: ENTRY_POINT_ADDRESS,
        sender: Address::zero(),
        nonce: U256::zero(),
        actual_gas_cost: U256::zero(),
        paymaster: None,
    }
}

fn fake_mined_deposit(address: Address, amount: U256) -> DepositInfo {
    DepositInfo { address, entrypoint: ENTRY_POINT_ADDRESS, amount }
}

// Helper that makes fake hashes.
fn hash(n: u8) -> H256 {
    let mut hash = H256::zero();
    hash.bytes[0] = n;
    hash
}

// Helper that makes fake addresses.
fn addr(n: u8) -> Address {
    let mut address = Address::zero();
    address.bytes[0] = n;
    address
}

#[test]
fn test_initial_load() {
    let (mut chain, mut controller) = new_chain();
    controller.set_blocks(vec![
        MockBlock::new(hash(0), vec![hash(101), hash(102)], vec![]),
        MockBlock::new(hash(1), vec![hash(103)], vec![]),
        MockBlock::new(hash(2), vec![], vec![]),
        MockBlock::new(hash(3), vec![hash(104), hash(105)], vec![]),
    ]);
    let update = sync_to_head(&mut chain, &controller);
    // With a history size of 3, we should get updates from all blocks except the first one.
    assert_eq!(
        update,
        ChainUpdate {
            latest_block_number: 3,
            latest_block_hash: hash(3),
            latest_block_timestamp: 0,
            earliest_remembered_block_number: 1,
            reorg_depth: 0,
            mined_ops: vec![fake_mined_op(103), fake_mined_op(104), fake_mined_op(105),],
            unmined_ops: vec![],
            entity_deposits: vec![],
            unmined_entity_deposits: vec![],
            reorg_larger_than_history: false,
        }
    );
}

#[test]
fn test_simple_advance() {
    let (mut chain, mut controller) = new_chain();
    controller.set_blocks(vec![
        MockBlock::new(hash(0), vec![hash(101), hash(102)], vec![]),
        MockBlock::new(hash(1), vec![hash(103)], vec![]),
        MockBlock::new(hash(2), vec![], vec![]),
        MockBlock::new(hash(3), vec![hash(104), hash(105)], vec![]),
    ]);
    sync_to_head(&mut chain, &controller);
    controller.blocks.push(MockBlock::new(hash(4), vec![hash(106)], vec![]));
    let update = sync_to_head(&mut chain, &controller);
    assert_eq!(
        update,
        ChainUpdate {
            latest_block_number: 4,
            latest_block_hash: hash(4),
            latest_block_timestamp: 0,
            earliest_remembered_block_number: 2,
            reorg_depth: 0,
            mined_ops: vec![fake_mined_op(106)],
            unmined_ops: vec![],
            entity_deposits: vec![],
            unmined_entity_deposits: vec![],
            reorg_larger_than_history: false,
        }
    );
}

#[test]
fn test_forward_reorg() {
    let (mut chain, mut controller) = new_chain();
    controller.set_blocks(vec![
        MockBlock::new(hash(0), vec![hash(100)], vec![]),
        MockBlock::new(hash(1), vec![hash(101)], vec![]),
        MockBlock::new(hash(2), vec![hash(102)], vec![Address::zero()]),
    ]);
    sync_to_head(&mut chain, &controller);
    {
        // Replaces the head of the chain with three new blocks.
        let blocks = &mut controller.blocks;
        blocks.pop();
        blocks.extend([
            MockBlock::new(hash(12), vec![hash(112)], vec![]),
            MockBlock::new(hash(13), vec![hash(113)], vec![]),
            MockBlock::new(hash(14), vec![hash(114)], vec![]),
        ]);
    }
    let update = sync_to_head(&mut chain, &controller);
    assert_eq!(
        update,
        ChainUpdate {
            latest_block_number: 4,
            latest_block_hash: hash(14),
            latest_block_timestamp: 0,
            earliest_remembered_block_number: 2,
            reorg_depth: 1,
            mined_ops: vec![fake_mined_op(112), fake_mined_op(113), fake_mined_op(114)],
            unmined_ops: vec![fake_mined_op(102)],
            entity_deposits: vec![],
            unmined_entity_deposits: vec![fake_mined_deposit(Address::zero(), U256::zero())],
            reorg_larger_than_history: false,
        }
    );
}

#[test]
fn test_sideways_reorg() {
    let (mut chain, mut controller) = new_chain();
    controller.set_blocks(vec![
        MockBlock::new(hash(0), vec![hash(100)], vec![]),
        MockBlock::new(hash(1), vec![hash(101)], vec![addr(1)]),
        MockBlock::new(hash(2), vec![hash(102)], vec![]),
    ]);
    sync_to_head(&mut chain, &controller);
    {
        // Replaces the top two blocks with two new ones.
        let blocks = &mut controller.blocks;
        blocks.pop();
        blocks.pop();
        blocks.extend([
            MockBlock::new(hash(11), vec![hash(111)], vec![addr(2)]),
            MockBlock::new(hash(12), vec![hash(112)], vec![]),
        ]);
    }
    let update = sync_to_head(&mut chain, &controller);
    assert_eq!(
        update,
        ChainUpdate {
            entity_deposits: vec![fake_mined_deposit(addr(2), U256::zero())],
            latest_block_number: 2,
            latest_block_hash: hash(12),
            latest_block_timestamp: 0,
            earliest_remembered_block_number: 0,
            reorg_depth: 2,
            mined_ops: vec![fake_mined_op(111), fake_mined_op(112)],
            unmined_ops: vec![fake_mined_op(101), fake_mined_op(102)],
            unmined_entity_deposits: vec![fake_mined_deposit(addr(1), U256::zero())],
            reorg_larger_than_history: false,
        }
    );
}

#[test]
fn test_backwards_reorg() {
    let (mut chain, mut controller) = new_chain();
    controller.set_blocks(vec![
        MockBlock::new(hash(0), vec![hash(100)], vec![]),
        MockBlock::new(hash(1), vec![hash(101)], vec![]),
        MockBlock::new(hash(2), vec![hash(102)], vec![]),
    ]);
    sync_to_head(&mut chain, &controller);
    {
        // Replaces the top two blocks with just one new one.
        let blocks = &mut controller.blocks;
        blocks.pop();
        blocks.pop();
        blocks.push(MockBlock::new(hash(11), vec![hash(111)], vec![addr(1)]));
    }
    let update = sync_to_head(&mut chain, &controller);
    assert_eq!(
        update,
        ChainUpdate {
            latest_block_number: 1,
            entity_deposits: vec![fake_mined_deposit(addr(1), U256::zero())],
            latest_block_hash: hash(11),
            latest_block_timestamp: 0,
            earliest_remembered_block_number: 0,
            reorg_depth: 2,
            mined_ops: vec![fake_mined_op(111)],
            unmined_ops: vec![fake_mined_op(101), fake_mined_op(102)],
            unmined_entity_deposits: vec![],
            reorg_larger_than_history: false,
        }
    );
}

#[test]
fn test_reorg_longer_than_history() {
    let (mut chain, mut controller) = new_chain();
    controller.set_blocks(vec![
        MockBlock::new(hash(0), vec![hash(100)], vec![]),
        MockBlock::new(hash(1), vec![hash(101)], vec![]),
        MockBlock::new(hash(2), vec![hash(102)], vec![]),
        MockBlock::new(hash(3), vec![hash(103)], vec![]),
    ]);
    sync_to_head(&mut chain, &controller);
    // The history has size 3, so after this update it's completely unrecognizable.
    controller.set_blocks(vec![
        MockBlock::new(hash(0), vec![hash(100)], vec![]),
        MockBlock::new(hash(11), vec![hash(111)], vec![]),
        MockBlock::new(hash(12), vec![hash(112)], vec![]),
        MockBlock::new(hash(13), vec![hash(113)], vec![]),
    ]);
    let update = sync_to_head(&mut chain, &controller);
    assert_eq!(
        update,
        ChainUpdate {
            entity_deposits: vec![],
            latest_block_number: 3,
            latest_block_hash: hash(13),
            latest_block_timestamp: 0,
            earliest_remembered_block_number: 1,
            reorg_depth: 3,
            mined_ops: vec![fake_mined_op(111), fake_mined_op(112), fake_mined_op(113)],
            unmined_ops: vec![fake_mined_op(101), fake_mined_op(102), fake_mined_op(103)],
            unmined_entity_deposits: vec![],
            reorg_larger_than_history: true,
        }
    );
}

#[test]
fn test_advance_larger_than_history_size() {
    let (mut chain, mut controller) = new_chain();
    controller.set_blocks(vec![
        MockBlock::new(hash(0), vec![hash(100)], vec![]),
        MockBlock::new(hash(1), vec![hash(101)], vec![]),
        MockBlock::new(hash(2), vec![hash(102)], vec![]),
    ]);
    sync_to_head(&mut chain, &controller);
    {
        let blocks = &mut controller.blocks;
        for i in 3..7 {
            blocks.push(MockBlock::new(hash(10 + i), vec![hash(100 + i)], vec![]));
        }
    }
    let update = sync_to_head(&mut chain, &controller);
    assert_eq!(
        update,
        ChainUpdate {
            latest_block_number: 6,
            latest_block_hash: hash(16),
            latest_block_timestamp: 0,
            earliest_remembered_block_number: 4,
            reorg_depth: 0,
            entity_deposits: vec![],
            mined_ops: vec![fake_mined_op(104), fake_mined_op(105), fake_mined_op(106)],
            unmined_ops: vec![],
            unmined_entity_deposits: vec![],
            reorg_larger_than_history: false,
        }
    );
}

/// This test probably only matters for running against a local chain.
#[test]
fn test_latest_block_number_smaller_than_history_size() {
    let (mut chain, mut controller) = new_chain();
    let blocks = vec![
        MockBlock::new(hash(0), vec![hash(101), hash(102)], vec![]),
        MockBlock::new(hash(1), vec![hash(103)], vec![]),
    ];
    controller.set_blocks(blocks);
    let update = sync_to_head(&mut chain, &controller);
    assert_eq!(
        update,
        ChainUpdate {
            latest_block_number: 1,
            latest_block_hash: hash(1),
            latest_block_timestamp: 0,
            earliest_remembered_block_number: 0,
            reorg_depth: 0,
            entity_deposits: vec![],
            mined_ops: vec![fake_mined_op(101), fake_mined_op(102), fake_mined_op(103),],
            unmined_ops: vec![],
            unmined_entity_deposits: vec![],
            reorg_larger_than_history: false,
        }
    );
}

#[test]
fn test_same_head_again_leaves_window_unchanged() {
    let (mut chain, mut controller) = new_chain();
    controller.set_blocks(vec![
        MockBlock::new(hash(0), vec![hash(100)], vec![]),
        MockBlock::new(hash(1), vec![hash(101)], vec![]),
    ]);
    sync_to_head(&mut chain, &controller);
    assert_eq!(chain.latest_block_hash(), hash(1));
    let update = sync_to_head(&mut chain, &controller);
    assert_eq!(chain.len(), 2);
    assert_eq!(chain.latest_block_hash(), hash(1));
    assert_eq!(update.latest_block_number, 1);
    assert_eq!(update.earliest_remembered_block_number, 0);
    let deduped = update.deduped_ops();
    assert_eq!(deduped.mined_ops, vec![]);
    assert_eq!(deduped.unmined_ops, vec![]);
}

#[test]
fn test_head_older_than_history_is_chain_inconsistent() {
    let (mut chain, mut controller) = new_chain();
    let blocks: Vec<MockBlock> =
        (0..6).map(|i| MockBlock::new(hash(i), vec![hash(100 + i)], vec![])).collect();
    controller.set_blocks(blocks);
    sync_to_head(&mut chain, &controller);
    // The window ends at block 5 and the history is 3: block 2 is too old, block 3 is not.
    let old_head = controller.get_block_by_hash(hash(2)).unwrap();
    assert_eq!(sync(&mut chain, &controller, old_head), Err(ChainError::ChainInconsistent));
    assert_eq!(chain.len(), 3);
    assert_eq!(chain.latest_block_hash(), hash(5));
    let head = controller.get_block_by_hash(hash(3)).unwrap();
    let update = sync(&mut chain, &controller, head).unwrap();
    assert_eq!(update.latest_block_number, 3);
    assert_eq!(update.reorg_depth, 3);
    assert_eq!(
        update.unmined_ops,
        vec![fake_mined_op(103), fake_mined_op(104), fake_mined_op(105)]
    );
    assert_eq!(update.mined_ops, vec![fake_mined_op(103)]);
    assert!(update.reorg_larger_than_history);
    assert_eq!(update.deduped_ops().unmined_ops, vec![fake_mined_op(104), fake_mined_op(105)]);
    assert_eq!(update.deduped_ops().mined_ops, vec![]);
}

#[test]
fn test_block_without_number_or_hash_is_provider_inconsistent() {
    let (mut chain, controller) = new_chain();
    let no_number =
        Block { number: None, hash: Some(hash(1)), parent_hash: hash(0), timestamp: 0 };
    assert_eq!(sync(&mut chain, &controller, no_number), Err(ChainError::ProviderInconsistent));
    let no_hash = Block { number: Some(1), hash: None, parent_hash: hash(0), timestamp: 0 };
    assert_eq!(sync(&mut chain, &controller, no_hash), Err(ChainError::ProviderInconsistent));
    assert_eq!(chain.len(), 0);
    assert_eq!(chain.latest_block_hash(), H256::zero());
}

#[test]
fn test_missing_or_misnumbered_parent_is_provider_inconsistent() {
    let (mut chain, _) = new_chain();
    let head = Block { number: Some(5), hash: Some(hash(5)), parent_hash: hash(4), timestamp: 0 };
    assert_eq!(chain.sync_to_block(head), ChainAction::GetBlock { hash: hash(4) });
    assert_eq!(
        chain.on_block(BlockResponse::Missing),
        ChainAction::Failed(ChainError::ProviderInconsistent)
    );
    assert_eq!(chain.sync_to_block(head), ChainAction::GetBlock { hash: hash(4) });
    let wrong = Block { number: Some(3), hash: Some(hash(4)), parent_hash: hash(3), timestamp: 0 };
    assert_eq!(
        chain.on_block(BlockResponse::Found(wrong)),
        ChainAction::Failed(ChainError::ProviderInconsistent)
    );
    assert_eq!(chain.on_block(BlockResponse::Missing), ChainAction::Idle);
}

#[test]
fn test_provider_failures_abort_the_sync() {
    let (mut chain, mut controller) = new_chain();
    controller.set_blocks(vec![
        MockBlock::new(hash(0), vec![hash(100)], vec![]),
        MockBlock::new(hash(1), vec![hash(101)], vec![]),
    ]);
    assert_eq!(chain.sync_to_block(controller.get_head()), ChainAction::GetBlock { hash: hash(0) });
    assert_eq!(
        chain.on_block(BlockResponse::Failed),
        ChainAction::Failed(ChainError::ProviderUnavailable)
    );
    let mut action = chain.sync_to_block(controller.get_head());
    action = match action {
        ChainAction::GetBlock { hash } => {
            chain.on_block(BlockResponse::Found(controller.get_block_by_hash(hash).unwrap()))
        }
        other => panic!("unexpected {other:?}"),
    };
    assert!(matches!(action, ChainAction::GetLogs { .. }));
    // An answer of the wrong kind changes nothing: the request is made again.
    assert_eq!(chain.on_block(BlockResponse::Missing), action);
    assert_eq!(chain.on_logs(None), ChainAction::Failed(ChainError::ProviderUnavailable));
    assert_eq!(chain.len(), 0);
    // One batch too few.
    let mut action = chain.sync_to_block(controller.get_head());
    action = match action {
        ChainAction::GetBlock { hash } => {
            chain.on_block(BlockResponse::Found(controller.get_block_by_hash(hash).unwrap()))
        }
        other => panic!("unexpected {other:?}"),
    };
    assert!(matches!(action, ChainAction::GetLogs { .. }));
    assert_eq!(
        chain.on_logs(Some(vec![vec![]])),
        ChainAction::Failed(ChainError::ProviderInconsistent)
    );
    assert_eq!(chain.len(), 0);
}

#[test]
fn test_deduped_ops_cancels_pairs() {
    let update = ChainUpdate {
        latest_block_number: 0,
        latest_block_hash: hash(0),
        latest_block_timestamp: 0,
        earliest_remembered_block_number: 0,
        reorg_depth: 1,
        mined_ops: vec![fake_mined_op(1), fake_mined_op(2), fake_mined_op(3)],
        unmined_ops: vec![fake_mined_op(3), fake_mined_op(4), fake_mined_op(1)],
        entity_deposits: vec![],
        unmined_entity_deposits: vec![],
        reorg_larger_than_history: false,
    };
    let deduped = update.deduped_ops();
    assert_eq!(deduped.mined_ops, vec![fake_mined_op(2)]);
    assert_eq!(deduped.unmined_ops, vec![fake_mined_op(4)]);
}

#[test]
fn test_mined_op_id() {
    let mut op = fake_mined_op(7);
    op.sender = addr(9);
    op.nonce = U256::from_u64(12);
    let id = op.id();
    assert_eq!(id.sender, addr(9));
    assert_eq!(id.nonce, U256::from_u64(12));
}

/// The hashes of the operations in the blocks of the window, oldest block first.
fn window_op_hashes(chain: &Chain, earliest: u64, latest: u64) -> Vec<H256> {
    (earliest..=latest)
        .flat_map(|number| chain.block_with_number(number).unwrap().ops.iter().map(|op| op.hash))
        .collect()
}

#[test]
fn test_window_stays_hash_linked_and_bounded() {
    let (mut chain, mut controller) = new_chain();
    let mut blocks: Vec<MockBlock> =
        (0..5).map(|i| MockBlock::new(hash(i), vec![hash(100 + i)], vec![])).collect();
    controller.set_blocks(blocks.clone());
    let mut updates = vec![sync_to_head(&mut chain, &controller)];
    // A reorg of two blocks, then an advance of two.
    blocks.truncate(3);
    blocks.extend((3..6).map(|i| MockBlock::new(hash(20 + i), vec![hash(120 + i)], vec![])));
    controller.set_blocks(blocks.clone());
    updates.push(sync_to_head(&mut chain, &controller));
    blocks.extend((6..8).map(|i| MockBlock::new(hash(20 + i), vec![], vec![])));
    controller.set_blocks(blocks);
    updates.push(sync_to_head(&mut chain, &controller));
    for update in updates {
        assert!(update.latest_block_number - update.earliest_remembered_block_number < HISTORY_SIZE);
    }
    assert_eq!(chain.len(), 3);
    assert!(chain.block_with_number(4).is_none());
    assert!(chain.block_with_number(8).is_none());
    for number in 6..=7 {
        let block = chain.block_with_number(number).unwrap();
        let parent = chain.block_with_number(number - 1).unwrap();
        assert_eq!(block.number, number);
        assert_eq!(block.parent_hash, parent.hash);
    }
    assert_eq!(chain.latest_block_hash(), hash(27));
}

#[test]
fn test_window_holds_what_was_mined_and_not_unmined() {
    let (mut chain, mut controller) = new_chain();
    controller.set_blocks(vec![
        MockBlock::new(hash(0), vec![hash(100)], vec![]),
        MockBlock::new(hash(1), vec![hash(101), hash(102)], vec![]),
        MockBlock::new(hash(2), vec![hash(103)], vec![]),
    ]);
    let first = sync_to_head(&mut chain, &controller);
    let mut held: Vec<H256> = first.mined_ops.iter().map(|op| op.hash).collect();
    assert_eq!(window_op_hashes(&chain, 0, 2), held);
    // Block 2 gives way to another; no block leaves at the front.
    controller.blocks.pop();
    controller.blocks.push(MockBlock::new(hash(12), vec![hash(101), hash(113)], vec![]));
    let second = sync_to_head(&mut chain, &controller);
    assert_eq!(second.reorg_depth, 1);
    held.retain(|hash| !second.unmined_ops.iter().any(|op| op.hash == *hash));
    held.extend(second.mined_ops.iter().map(|op| op.hash));
    assert_eq!(window_op_hashes(&chain, 0, 2), held);
    assert_eq!(held, vec![hash(100), hash(101), hash(102), hash(101), hash(113)]);
}

#[test]
fn test_update_with_blocks_replaces_the_overlap() {
    let summary = |number: u64, hash_byte: u8, op: u8| BlockSummary {
        number,
        hash: hash(hash_byte),
        timestamp: 1_000 + number,
        parent_hash: hash(hash_byte.wrapping_sub(1)),
        ops: vec![fake_mined_op(op)],
        entity_deposits: vec![],
    };
    let (mut chain, _) = new_chain();
    let update = chain.update_with_blocks(
        6,
        VecDeque::from([summary(7, 7, 107), summary(8, 8, 108)]),
    );
    assert_eq!(update.reorg_depth, 0);
    assert_eq!(update.latest_block_timestamp, 1_008);
    assert_eq!(chain.len(), 2);
    // Blocks 8 to 11 come in over a window that ends at 8: one gives way, two leave at the front.
    let update = chain.update_with_blocks(
        8,
        VecDeque::from([summary(8, 28, 128), summary(9, 29, 129), summary(10, 30, 130), summary(11, 31, 131)]),
    );
    assert_eq!(
        update,
        ChainUpdate {
            latest_block_number: 11,
            latest_block_hash: hash(31),
            latest_block_timestamp: 1_011,
            earliest_remembered_block_number: 9,
            reorg_depth: 1,
            mined_ops: vec![
                fake_mined_op(128),
                fake_mined_op(129),
                fake_mined_op(130),
                fake_mined_op(131)
            ],
            unmined_ops: vec![fake_mined_op(108)],
            entity_deposits: vec![],
            unmined_entity_deposits: vec![],
            reorg_larger_than_history: false,
        }
    );
    assert_eq!(chain.len(), 3);
    // The new blocks start below the window: all of it gives way.
    let update = chain.update_with_blocks(11, VecDeque::from([summary(5, 5, 55)]));
    assert_eq!(update.reorg_depth, 7);
    assert!(update.reorg_larger_than_history);
    assert_eq!(
        update.unmined_ops,
        vec![fake_mined_op(129), fake_mined_op(130), fake_mined_op(131)]
    );
    assert_eq!(update.earliest_remembered_block_number, 5);
    assert_eq!(chain.len(), 1);
}
