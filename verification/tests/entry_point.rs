use bundler_core::bundle_proposer::HandleOpsOut;
use bundler_core::entry_point::{
    decode_handle_ops_revert, failed_op_signature, signature_validation_failed_signature,
    starts_with_selector, uses_plain_handle_ops,
};
use bundler_core::primitives::Address;
use bundler_core::proposal::UserOpsPerAggregator;
use bundler_core::transaction_tracker::TxStatus;
use bundler_core::user_operation::UserOperation;
use ethers::abi::Token;

const FAILED_OP_SELECTOR: [u8; 4] = [0x22, 0x02, 0x66, 0xb6];
const SIGNATURE_VALIDATION_FAILED_SELECTOR: [u8; 4] = [0x86, 0xa9, 0xf7, 0x50];

fn failed_op_revert(index: u64, reason: &str) -> Vec<u8> {
    let mut data = FAILED_OP_SELECTOR.to_vec();
    data.extend(ethers::abi::encode(&[
        Token::Uint(ethers::types::U256::from(index)),
        Token::String(reason.to_string()),
    ]));
    data
}

fn aggregator() -> Address {
    Address { bytes: [7; 20] }
}

#[test]
fn test_selectors_are_the_first_bytes_of_the_digests() {
    assert!(starts_with_selector(&FAILED_OP_SELECTOR.to_vec(), failed_op_signature()));
    assert!(starts_with_selector(
        &SIGNATURE_VALIDATION_FAILED_SELECTOR.to_vec(),
        signature_validation_failed_signature()
    ));
    assert!(!starts_with_selector(&FAILED_OP_SELECTOR.to_vec(), signature_validation_failed_signature()));
    assert!(!starts_with_selector(&FAILED_OP_SELECTOR[..3].to_vec(), failed_op_signature()));
    assert!(starts_with_selector(&failed_op_revert(0, ""), failed_op_signature()));
}

#[test]
fn test_decode_failed_op_revert() {
    assert_eq!(
        decode_handle_ops_revert(&failed_op_revert(1, "AA13: reject factory")),
        Some(HandleOpsOut::FailedOp(1, "AA13: reject factory".to_string()))
    );
    assert_eq!(
        decode_handle_ops_revert(&failed_op_revert(0, "")),
        Some(HandleOpsOut::FailedOp(0, String::new()))
    );
    // The reason is cut short: no pair of values is encoded.
    let mut cut = failed_op_revert(3, "AA21 didn't pay prefund");
    cut.truncate(cut.len() - 32);
    assert_eq!(decode_handle_ops_revert(&cut), None);
    assert_eq!(decode_handle_ops_revert(&FAILED_OP_SELECTOR.to_vec()), None);
    // An index that no `usize` holds.
    let mut data = FAILED_OP_SELECTOR.to_vec();
    data.extend(ethers::abi::encode(&[
        Token::Uint(ethers::types::U256::MAX),
        Token::String("AA10".to_string()),
    ]));
    assert_eq!(decode_handle_ops_revert(&data), None);
}

#[test]
fn test_decode_signature_validation_failed_revert() {
    let mut data = SIGNATURE_VALIDATION_FAILED_SELECTOR.to_vec();
    data.extend(ethers::abi::encode(&[Token::Address(ethers::types::H160(aggregator().bytes))]));
    assert_eq!(
        decode_handle_ops_revert(&data),
        Some(HandleOpsOut::SignatureValidationFailed(aggregator()))
    );
    // The bytes in front of the address are not read.
    data[4] = 0xff;
    data.push(1);
    assert_eq!(
        decode_handle_ops_revert(&data),
        Some(HandleOpsOut::SignatureValidationFailed(aggregator()))
    );
    data.truncate(35);
    assert_eq!(decode_handle_ops_revert(&data), None);
}

#[test]
fn test_decode_other_revert_data() {
    assert_eq!(decode_handle_ops_revert(&vec![]), None);
    assert_eq!(decode_handle_ops_revert(&vec![0x08, 0xc3, 0x79, 0xa0, 0, 0, 0, 0]), None);
}

#[test]
fn test_uses_plain_handle_ops_for_one_group_without_aggregator() {
    let plain = UserOpsPerAggregator { user_ops: vec![UserOperation::default()], ..Default::default() };
    let aggregated = UserOpsPerAggregator { aggregator: aggregator(), ..Default::default() };
    assert!(uses_plain_handle_ops(&vec![plain.clone()]));
    assert!(!uses_plain_handle_ops(&vec![aggregated.clone()]));
    assert!(!uses_plain_handle_ops(&vec![plain.clone(), plain.clone()]));
    assert!(!uses_plain_handle_ops(&vec![plain, aggregated]));
    assert!(!uses_plain_handle_ops(&vec![]));
}

#[test]
fn test_tx_status_from_lookup() {
    assert_eq!(TxStatus::from_lookup(None), TxStatus::Dropped);
    assert_eq!(TxStatus::from_lookup(Some(None)), TxStatus::Pending);
    assert_eq!(TxStatus::from_lookup(Some(Some(12))), TxStatus::Mined { block_number: 12 });
}
