//! The two entry-point events the chain tracker reads from a block's logs:
//! `UserOperationEvent`, which reports a mined user operation, and
//! `Deposited`, which reports an entity's deposit.
//!
//! A log carries the hash of the event's signature as its first topic, the
//! indexed fields as the topics that follow, and the other fields as 32-byte
//! big-endian words in its data.

use crate::chain::{DepositInfo, MinedOp};
use crate::primitives::{all_zero, Address, H256};
use crate::uint::U256;
use vstd::prelude::*;

verus! {

/// A log entry of a block.
#[derive(Clone, Debug, PartialEq, Eq)]
pub struct Log {
    /// The contract that emitted it.
    pub address: Address,
    pub topics: Vec<H256>,
    pub data: Vec<u8>,
}

/// A log entry as a mathematical value.
pub struct LogView {
    pub address: Address,
    pub topics: Seq<H256>,
    pub data: Seq<u8>,
}

impl View for Log {
    type V = LogView;

    open spec fn view(&self) -> LogView {
        LogView { address: self.address, topics: self.topics@, data: self.data@ }
    }
}

/// The Keccak-256 digest of `input`, 32 bytes long.
pub uninterp spec fn keccak256_digest(input: Seq<u8>) -> Seq<u8>;

/// `ethers::utils::keccak256`: the Keccak-256 digest of the bytes given.
#[verifier::external_body]
fn keccak256(input: &[u8]) -> (digest: H256)
    ensures
        digest.bytes@ == keccak256_digest(input@),
{
    H256 { bytes: ethers::utils::keccak256(input) }
}

/// The signature of the event that reports a mined user operation.
pub fn user_operation_event_signature() -> (s: &'static str)
    ensures
        s@ == "UserOperationEvent(bytes32,address,address,uint256,bool,uint256,uint256)"@,
{
    "UserOperationEvent(bytes32,address,address,uint256,bool,uint256,uint256)"
}

/// The signature of the event that reports a deposit.
pub fn deposited_signature() -> (s: &'static str)
    ensures
        s@ == "Deposited(address,uint256)"@,
{
    "Deposited(address,uint256)"
}

/// The digest that is the first topic of a log carrying the event with this
/// signature.
pub open spec fn topic_of(signature: Seq<char>) -> Seq<u8> {
    keccak256_digest(vstd::utf8::encode_utf8(signature))
}

/// The first topic of a log that carries the event with this signature.
pub fn event_topic(signature: &str) -> (topic: H256)
    ensures
        topic.bytes@ == topic_of(signature@),
{
    keccak256(signature.as_bytes())
}

/// The eight bytes of `s` from `at` on, read as a big-endian number.
pub open spec fn be_u64(s: Seq<u8>, at: int) -> u64 {
    (s[at] as u64 * 0x0100_0000_0000_0000 + s[at + 1] as u64 * 0x0001_0000_0000_0000 + s[at
        + 2] as u64 * 0x0000_0100_0000_0000 + s[at + 3] as u64 * 0x0000_0001_0000_0000 + s[at
        + 4] as u64 * 0x0000_0000_0100_0000 + s[at + 5] as u64 * 0x0000_0000_0001_0000 + s[at
        + 6] as u64 * 0x0000_0000_0000_0100 + s[at + 7] as u64) as u64
}

/// The 32 bytes of `s` from `at` on, read as a big-endian number.
pub open spec fn be_u256(s: Seq<u8>, at: int) -> U256 {
    U256 { limbs: [be_u64(s, at + 24), be_u64(s, at + 16), be_u64(s, at + 8), be_u64(s, at)] }
}

/// The address in a 32-byte word: its last 20 bytes.
pub open spec fn word_address(word: H256) -> Address {
    Address {
        bytes: [
            word.bytes[12],
            word.bytes[13],
            word.bytes[14],
            word.bytes[15],
            word.bytes[16],
            word.bytes[17],
            word.bytes[18],
            word.bytes[19],
            word.bytes[20],
            word.bytes[21],
            word.bytes[22],
            word.bytes[23],
            word.bytes[24],
            word.bytes[25],
            word.bytes[26],
            word.bytes[27],
            word.bytes[28],
            word.bytes[29],
            word.bytes[30],
            word.bytes[31],
        ],
    }
}

/// What a `UserOperationEvent` log reports, or `None` where `log` is no such
/// event: it needs this topic first, three more topics (the operation's
/// hash, its sender, its paymaster), and four words of data (the nonce, a
/// success flag whose first 31 bytes are zero, the gas cost, the gas used).
/// A paymaster of zero stands for none.
pub open spec fn decode_user_operation_event(log: LogView, topic: H256) -> Option<MinedOp> {
    if log.topics.len() == 4 && log.topics[0] == topic && log.data.len() >= 128 && all_zero(
        log.data.subrange(32, 63),
    ) {
        let paymaster = word_address(log.topics[3]);
        Some(
            MinedOp {
                hash: log.topics[1],
                entry_point: log.address,
                sender: word_address(log.topics[2]),
                nonce: be_u256(log.data, 0),
                actual_gas_cost: be_u256(log.data, 64),
                paymaster: if all_zero(paymaster.bytes@) {
                    None
                } else {
                    Some(paymaster)
                },
            },
        )
    } else {
        None
    }
}

/// What a `Deposited` log reports, or `None` where `log` is no such event: it
/// needs this topic first, one more topic (the account), and one word of
/// data (the account's total deposit).
pub open spec fn decode_deposited(log: LogView, topic: H256) -> Option<DepositInfo> {
    if log.topics.len() == 2 && log.topics[0] == topic && log.data.len() >= 32 {
        Some(
            DepositInfo {
                address: word_address(log.topics[1]),
                entrypoint: log.address,
                amount: be_u256(log.data, 0),
            },
        )
    } else {
        None
    }
}

/// The user operations that `logs` report, in the order of the logs.
pub open spec fn mined_ops_in(logs: Seq<LogView>, topic: H256) -> Seq<MinedOp>
    decreases logs.len(),
{
    if logs.len() == 0 {
        Seq::empty()
    } else {
        match decode_user_operation_event(logs.last(), topic) {
            Some(op) => mined_ops_in(logs.drop_last(), topic).push(op),
            None => mined_ops_in(logs.drop_last(), topic),
        }
    }
}

/// The deposits that `logs` report, in the order of the logs.
pub open spec fn deposits_in(logs: Seq<LogView>, topic: H256) -> Seq<DepositInfo>
    decreases logs.len(),
{
    if logs.len() == 0 {
        Seq::empty()
    } else {
        match decode_deposited(logs.last(), topic) {
            Some(deposit) => deposits_in(logs.drop_last(), topic).push(deposit),
            None => deposits_in(logs.drop_last(), topic),
        }
    }
}

/// The logs of `logs`, each as a mathematical value.
pub open spec fn log_views(logs: Seq<Log>) -> Seq<LogView> {
    logs.map_values(|l: Log| l@)
}

fn read_be_u64(data: &Vec<u8>, at: usize) -> (r: u64)
    requires
        at + 8 <= data.len(),
    ensures
        r == be_u64(data@, at as int),
{
    (data[at] as u64) * 0x0100_0000_0000_0000 + (data[at + 1] as u64) * 0x0001_0000_0000_0000 + (
    data[at + 2] as u64) * 0x0000_0100_0000_0000 + (data[at + 3] as u64) * 0x0000_0001_0000_0000
        + (data[at + 4] as u64) * 0x0000_0000_0100_0000 + (data[at + 5] as u64)
        * 0x0000_0000_0001_0000 + (data[at + 6] as u64) * 0x0000_0000_0000_0100 + (data[at
        + 7] as u64)
}

fn read_be_u256(data: &Vec<u8>, at: usize) -> (r: U256)
    requires
        at + 32 <= data.len(),
    ensures
        r == be_u256(data@, at as int),
{
    let r = U256 {
        limbs: [
            read_be_u64(data, at + 24),
            read_be_u64(data, at + 16),
            read_be_u64(data, at + 8),
            read_be_u64(data, at),
        ],
    };
    assert(r.limbs =~= be_u256(data@, at as int).limbs);
    r
}

fn read_word_address(word: &H256) -> (r: Address)
    ensures
        r == word_address(*word),
{
    let mut bytes = [0u8;20];
    let mut i: usize = 0;
    while i < 20
        invariant
            i <= 20,
            forall|j: int| 0 <= j < i ==> bytes@[j] == word.bytes@[j + 12],
        decreases 20 - i,
    {
        bytes[i] = word.bytes[i + 12];
        i += 1;
    }
    let r = Address { bytes };
    assert(r.bytes =~= word_address(*word).bytes);
    r
}

/// Reads `log` as a `UserOperationEvent`.
pub fn parse_user_operation_event(log: &Log, topic: &H256) -> (r: Option<MinedOp>)
    ensures
        r == decode_user_operation_event(log@, *topic),
{
    if log.topics.len() != 4 || log.topics[0] != *topic || log.data.len() < 128 {
        return None;
    }
    let mut i: usize = 32;
    while i < 63
        invariant
            32 <= i <= 63,
            log.data@.len() >= 128,
            forall|j: int| 32 <= j < i ==> log.data@[j] == 0u8,
        decreases 63 - i,
    {
        if log.data[i] != 0 {
            assert(log.data@.subrange(32, 63)[i - 32] == log.data@[i as int]);
            return None;
        }
        i += 1;
    }
    assert(all_zero(log.data@.subrange(32, 63))) by {
        assert forall|j: int| 0 <= j < 31 implies log.data@.subrange(32, 63)[j] == 0u8 by {
            assert(log.data@.subrange(32, 63)[j] == log.data@[j + 32]);
        }
    }
    let paymaster = read_word_address(&log.topics[3]);
    Some(
        MinedOp {
            hash: log.topics[1],
            entry_point: log.address,
            sender: read_word_address(&log.topics[2]),
            nonce: read_be_u256(&log.data, 0),
            actual_gas_cost: read_be_u256(&log.data, 64),
            paymaster: if paymaster.is_zero() {
                None
            } else {
                Some(paymaster)
            },
        },
    )
}

/// Reads `log` as a `Deposited` event.
pub fn parse_deposited(log: &Log, topic: &H256) -> (r: Option<DepositInfo>)
    ensures
        r == decode_deposited(log@, *topic),
{
    if log.topics.len() != 2 || log.topics[0] != *topic || log.data.len() < 32 {
        return None;
    }
    Some(
        DepositInfo {
            address: read_word_address(&log.topics[1]),
            entrypoint: log.address,
            amount: read_be_u256(&log.data, 0),
        },
    )
}

/// The user operations that the logs of one block report, in log order.
pub fn load_mined_ops(logs: &Vec<Log>, topic: &H256) -> (mined_ops: Vec<MinedOp>)
    ensures
        mined_ops@ == mined_ops_in(log_views(logs@), *topic),
{
    let mut mined_ops: Vec<MinedOp> = Vec::new();
    let mut i: usize = 0;
    while i < logs.len()
        invariant
            i <= logs@.len(),
            mined_ops@ == mined_ops_in(log_views(logs@).take(i as int), *topic),
        decreases logs@.len() - i,
    {
        proof {
            assert(log_views(logs@).take(i + 1).drop_last() =~= log_views(logs@).take(i as int));
            assert(log_views(logs@).take(i + 1).last() == logs@[i as int]@);
        }
        if let Some(op) = parse_user_operation_event(&logs[i], topic) {
            mined_ops.push(op);
        }
        i += 1;
    }
    assert(log_views(logs@).take(i as int) =~= log_views(logs@));
    mined_ops
}

/// The deposits that the logs of one block report, in log order.
pub fn load_entity_deposits(logs: &Vec<Log>, topic: &H256) -> (deposits: Vec<DepositInfo>)
    ensures
        deposits@ == deposits_in(log_views(logs@), *topic),
{
    let mut deposits: Vec<DepositInfo> = Vec::new();
    let mut i: usize = 0;
    while i < logs.len()
        invariant
            i <= logs@.len(),
            deposits@ == deposits_in(log_views(logs@).take(i as int), *topic),
        decreases logs@.len() - i,
    {
        proof {
            assert(log_views(logs@).take(i + 1).drop_last() =~= log_views(logs@).take(i as int));
            assert(log_views(logs@).take(i + 1).last() == logs@[i as int]@);
        }
        if let Some(deposit) = parse_deposited(&logs[i], topic) {
            deposits.push(deposit);
        }
        i += 1;
    }
    assert(log_views(logs@).take(i as int) =~= log_views(logs@));
    deposits
}

} // verus!
