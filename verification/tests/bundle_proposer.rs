use bundler_core::bundle_proposer::{
    assemble_context, classify_failure, filter_by_fee, meets_priority_fee, process_failed_op,
    simulate_validation, Bundle, BundleProposerImpl, FailureCause, HandleOpsOut, OpFromPool,
    PoolFetch, ProposerAction, ProposerError, ScreenedOp, Settings,
};
use bundler_core::primitives::{Address, H256};
use bundler_core::proposal::{AggregationResult, ProposalContext, UserOpsPerAggregator};
use bundler_core::simulation::{
    AggregatorSimOut, OpWithSimulation, SimulationResult, SimulationSuccess, ValidTimeRange,
};
use bundler_core::uint::U256;
use bundler_core::user_operation::{Entity, UserOperation};

/// The time at which the tests make their bundles.
const NOW: u64 = 1_700_000_000;

struct MockOp {
    op: UserOperation,
    simulation_result: Box<dyn Fn() -> SimulationResult>,
}

struct MockAggregator {
    address: Address,
    signature: Box<dyn Fn() -> AggregationResult>,
}

fn simple_make_bundle(mock_ops: Vec<MockOp>) -> Bundle {
    make_bundle(
        mock_ops,
        vec![],
        vec![HandleOpsOut::SuccessWithGas(default_estimated_gas())],
        vec![],
        U256::zero(),
    )
}

fn make_bundle(
    mock_ops: Vec<MockOp>,
    mock_aggregators: Vec<MockAggregator>,
    mock_estimate_gasses: Vec<HandleOpsOut>,
    mock_paymaster_deposits: Vec<U256>,
    max_priority_fee_per_gas: U256,
) -> Bundle {
    try_make_bundle(
        mock_ops,
        mock_aggregators,
        mock_estimate_gasses,
        mock_paymaster_deposits,
        max_priority_fee_per_gas,
    )
    .expect("should make a bundle")
}

/// Performs what the proposer asks for against the mocks until the round ends.
fn try_make_bundle(
    mock_ops: Vec<MockOp>,
    mock_aggregators: Vec<MockAggregator>,
    mock_estimate_gasses: Vec<HandleOpsOut>,
    mock_paymaster_deposits: Vec<U256>,
    max_priority_fee_per_gas: U256,
) -> Result<Bundle, ProposerError> {
    let beneficiary = address(124);
    let current_block_hash = hash(125);
    let expected_code_hash = hash(126);
    let max_bundle_size = mock_ops.len() as u64;
    let mut estimates = mock_estimate_gasses.into_iter();
    let mut deposits = mock_paymaster_deposits.into_iter();
    let mut proposer = BundleProposerImpl::new(Settings {
        max_bundle_size,
        beneficiary,
        use_dynamic_max_priority_fee: true,
        max_priority_fee_overhead_percent: 10,
    });
    let mut action = proposer.make_bundle();
    loop {
        action = match action {
            ProposerAction::Fetch { max_ops, with_priority_fee } => {
                assert_eq!(max_ops, max_bundle_size);
                assert!(with_priority_fee);
                let ops = mock_ops
                    .iter()
                    .map(|MockOp { op, .. }| OpFromPool { op: op.clone(), expected_code_hash })
                    .collect();
                proposer.on_fetched(Ok(PoolFetch {
                    ops,
                    max_priority_fee: Some(max_priority_fee_per_gas),
                    block_hash: current_block_hash,
                }))
            }
            ProposerAction::Simulate { ops, block_hash, paymasters } => {
                assert_eq!(block_hash, current_block_hash);
                let results = ops
                    .iter()
                    .map(|op| {
                        assert_eq!(op.expected_code_hash, expected_code_hash);
                        let mock = mock_ops.iter().find(|mock| mock.op == op.op).unwrap();
                        (mock.simulation_result)()
                    })
                    .collect();
                let deposits = paymasters
                    .iter()
                    .map(|_| deposits.next().expect("a deposit for each paymaster"))
                    .collect();
                proposer.on_simulated(NOW, results, Some(deposits))
            }
            ProposerAction::AggregateSignatures { requests } => {
                let results = requests
                    .iter()
                    .map(|request| {
                        let mock = mock_aggregators
                            .iter()
                            .find(|mock| mock.address == request.aggregator)
                            .unwrap();
                        (mock.signature)()
                    })
                    .collect();
                proposer.on_aggregated(results)
            }
            ProposerAction::EstimateGas { beneficiary: to, .. } => {
                assert_eq!(to, beneficiary);
                proposer.on_estimated(Some(estimates.next().expect("an estimate for each request")))
            }
            ProposerAction::Finished(result) => return result,
        };
    }
}

fn address(n: u8) -> Address {
    let mut bytes = [0_u8; 20];
    bytes[0] = n;
    Address { bytes }
}

fn hash(n: u8) -> H256 {
    let mut bytes = [0_u8; 32];
    bytes[0] = n;
    H256 { bytes }
}

fn bytes(n: u8) -> Vec<u8> {
    vec![n]
}

fn op_with_sender(sender: Address) -> UserOperation {
    UserOperation { sender, ..Default::default() }
}

fn op_with_sender_paymaster(sender: Address, paymaster: Address) -> UserOperation {
    UserOperation { sender, paymaster_and_data: paymaster.bytes.to_vec(), ..Default::default() }
}

fn op_with_sender_factory(sender: Address, factory: Address) -> UserOperation {
    UserOperation { sender, init_code: factory.bytes.to_vec(), ..Default::default() }
}

fn op_with_sender_and_priority_fee(
    sender: Address,
    max_priority_fee_per_gas: U256,
) -> UserOperation {
    UserOperation { sender, max_priority_fee_per_gas, ..Default::default() }
}

fn default_estimated_gas() -> U256 {
    U256::from_u64(20000)
}

fn success() -> SimulationResult {
    SimulationResult::Success(SimulationSuccess::default())
}

#[test]
fn test_singleton_valid_bundle() {
    let op = UserOperation::default();
    let bundle = simple_make_bundle(vec![MockOp {
        op: op.clone(),
        simulation_result: Box::new(success),
    }]);
    assert_eq!(
        bundle.ops_per_aggregator,
        vec![UserOpsPerAggregator { user_ops: vec![op], ..Default::default() }]
    );
    assert_eq!(bundle.gas_estimate, default_estimated_gas());
}

#[test]
fn test_rejects_on_violation() {
    let op = UserOperation::default();
    let bundle = simple_make_bundle(vec![MockOp {
        op: op.clone(),
        simulation_result: Box::new(|| SimulationResult::Violations),
    }]);
    assert!(bundle.ops_per_aggregator.is_empty());
    assert_eq!(bundle.rejected_ops, vec![op]);
}

#[test]
fn test_drops_but_not_rejects_on_simulation_failure() {
    let op = UserOperation::default();
    let bundle = simple_make_bundle(vec![MockOp {
        op: op.clone(),
        simulation_result: Box::new(|| SimulationResult::Failed),
    }]);
    assert!(bundle.ops_per_aggregator.is_empty());
    assert!(bundle.rejected_ops.is_empty());
}

#[test]
fn test_rejects_on_signature_failure() {
    let op = UserOperation::default();
    let bundle = simple_make_bundle(vec![MockOp {
        op: op.clone(),
        simulation_result: Box::new(|| {
            SimulationResult::Success(SimulationSuccess {
                signature_failed: true,
                ..Default::default()
            })
        }),
    }]);
    assert!(bundle.ops_per_aggregator.is_empty());
    assert_eq!(bundle.rejected_ops, vec![op]);
}

#[test]
fn test_rejects_on_invalid_time_range() {
    let invalid_time_ranges = [
        ValidTimeRange::new(NOW + 3600, u64::MAX),
        ValidTimeRange::new(0, NOW + 5),
    ];
    for time_range in invalid_time_ranges {
        let op = UserOperation::default();
        let bundle = simple_make_bundle(vec![MockOp {
            op: op.clone(),
            simulation_result: Box::new(move || {
                SimulationResult::Success(SimulationSuccess {
                    valid_time_range: time_range,
                    ..Default::default()
                })
            }),
        }]);
        assert!(bundle.ops_per_aggregator.is_empty());
        assert_eq!(bundle.rejected_ops, vec![op]);
    }
}

#[test]
fn test_drops_but_not_rejects_op_accessing_another_sender() {
    let op1 = op_with_sender(address(1));
    let op2 = op_with_sender(address(2));
    let bundle = simple_make_bundle(vec![
        MockOp {
            op: op1,
            simulation_result: Box::new(|| {
                SimulationResult::Success(SimulationSuccess {
                    accessed_addresses: [address(1), address(2)].into(),
                    ..Default::default()
                })
            }),
        },
        MockOp {
            op: op2.clone(),
            simulation_result: Box::new(|| {
                SimulationResult::Success(SimulationSuccess {
                    accessed_addresses: [address(2)].into(),
                    ..Default::default()
                })
            }),
        },
    ]);
    assert_eq!(
        bundle.ops_per_aggregator,
        vec![UserOpsPerAggregator { user_ops: vec![op2], ..Default::default() }]
    );
    assert!(bundle.rejected_ops.is_empty())
}

#[test]
fn test_drops_but_not_rejects_op_with_too_low_priority_fee() {
    // With 10% required overhead on priority fee, op1 should be excluded
    // but op2 accepted.
    let max_priority_fee_per_gas = U256::from_u64(50);
    let op1 = op_with_sender_and_priority_fee(address(1), U256::from_u64(54));
    let op2 = op_with_sender_and_priority_fee(address(2), U256::from_u64(55));
    let bundle = make_bundle(
        vec![
            MockOp { op: op1.clone(), simulation_result: Box::new(success) },
            MockOp { op: op2.clone(), simulation_result: Box::new(success) },
        ],
        vec![],
        vec![HandleOpsOut::SuccessWithGas(default_estimated_gas())],
        vec![],
        max_priority_fee_per_gas,
    );
    assert_eq!(bundle.max_priority_fee_per_gas, max_priority_fee_per_gas);
    assert_eq!(
        bundle.ops_per_aggregator,
        vec![UserOpsPerAggregator { user_ops: vec![op2], ..Default::default() }],
    );
    assert!(bundle.rejected_ops.is_empty());
}

#[test]
fn test_aggregators() {
    // One op with no aggregator, two from aggregator A, and one from
    // aggregator B.
    let unaggregated_op = op_with_sender(address(1));
    let aggregated_op_a1 = op_with_sender(address(2));
    let aggregated_op_a2 = op_with_sender(address(3));
    let aggregated_op_b = op_with_sender(address(4));
    let aggregator_a_address = address(10);
    let aggregator_b_address = address(11);
    let op_a1_aggregated_sig = 11;
    let op_a2_aggregated_sig = 12;
    let op_b_aggregated_sig = 21;
    let aggregator_a_signature = 101;
    let aggregator_b_signature = 102;
    let with_aggregator = |address: Address, signature: u8| -> Box<dyn Fn() -> SimulationResult> {
        Box::new(move || {
            SimulationResult::Success(SimulationSuccess {
                aggregator: Some(AggregatorSimOut { address, signature: bytes(signature) }),
                ..Default::default()
            })
        })
    };
    let bundle = make_bundle(
        vec![
            MockOp { op: unaggregated_op.clone(), simulation_result: Box::new(success) },
            MockOp {
                op: aggregated_op_a1.clone(),
                simulation_result: with_aggregator(aggregator_a_address, op_a1_aggregated_sig),
            },
            MockOp {
                op: aggregated_op_a2.clone(),
                simulation_result: with_aggregator(aggregator_a_address, op_a2_aggregated_sig),
            },
            MockOp {
                op: aggregated_op_b.clone(),
                simulation_result: with_aggregator(aggregator_b_address, op_b_aggregated_sig),
            },
        ],
        vec![
            MockAggregator {
                address: aggregator_a_address,
                signature: Box::new(move || {
                    AggregationResult::Signature(bytes(aggregator_a_signature))
                }),
            },
            MockAggregator {
                address: aggregator_b_address,
                signature: Box::new(move || {
                    AggregationResult::Signature(bytes(aggregator_b_signature))
                }),
            },
        ],
        vec![HandleOpsOut::SuccessWithGas(default_estimated_gas())],
        vec![],
        U256::zero(),
    );
    // Ops should be grouped by aggregator. Further, the `signature` field
    // of each op with an aggregator should be replaced with what was
    // returned from simulation.
    assert_eq!(
        bundle.ops_per_aggregator,
        vec![
            UserOpsPerAggregator { user_ops: vec![unaggregated_op], ..Default::default() },
            UserOpsPerAggregator {
                user_ops: vec![
                    UserOperation { signature: bytes(op_a1_aggregated_sig), ..aggregated_op_a1 },
                    UserOperation { signature: bytes(op_a2_aggregated_sig), ..aggregated_op_a2 }
                ],
                aggregator: aggregator_a_address,
                signature: bytes(aggregator_a_signature)
            },
            UserOpsPerAggregator {
                user_ops: vec![UserOperation {
                    signature: bytes(op_b_aggregated_sig),
                    ..aggregated_op_b
                }],
                aggregator: aggregator_b_address,
                signature: bytes(aggregator_b_signature)
            },
        ],
    );
    assert_eq!(bundle.len(), 4);
    assert!(!bundle.is_empty());
}

#[test]
fn test_reject_entities() {
    let op1 = op_with_sender_paymaster(address(1), address(1));
    let op2 = op_with_sender_paymaster(address(2), address(1));
    let op3 = op_with_sender_paymaster(address(3), address(2));
    let op4 = op_with_sender_factory(address(4), address(3));
    let op5 = op_with_sender_factory(address(5), address(3));
    let op6 = op_with_sender_factory(address(6), address(4));
    let deposit = U256::from_u64(1_000_000_000_000_000_000); // one ether

    let bundle = make_bundle(
        vec![
            MockOp { op: op1.clone(), simulation_result: Box::new(success) },
            MockOp { op: op2.clone(), simulation_result: Box::new(success) },
            MockOp { op: op3.clone(), simulation_result: Box::new(success) },
            MockOp { op: op4.clone(), simulation_result: Box::new(success) },
            MockOp { op: op5.clone(), simulation_result: Box::new(success) },
            MockOp { op: op6.clone(), simulation_result: Box::new(success) },
        ],
        vec![],
        vec![
            HandleOpsOut::FailedOp(0, "AA30: reject paymaster".to_string()),
            HandleOpsOut::FailedOp(1, "AA13: reject factory".to_string()),
            HandleOpsOut::SuccessWithGas(default_estimated_gas()),
        ],
        vec![deposit, deposit, deposit],
        U256::zero(),
    );

    assert_eq!(
        bundle.rejected_entities,
        vec![Entity::paymaster(address(1)), Entity::factory(address(3)),]
    );
    assert_eq!(bundle.rejected_ops, vec![]);
    assert_eq!(
        bundle.ops_per_aggregator,
        vec![UserOpsPerAggregator { user_ops: vec![op3, op6], ..Default::default() }]
    );
}

#[test]
fn test_other_failure_rejects_the_op_at_the_index() {
    let op1 = op_with_sender(address(1));
    let op2 = op_with_sender(address(2));
    let op3 = op_with_sender(address(3));
    let bundle = make_bundle(
        vec![
            MockOp { op: op1.clone(), simulation_result: Box::new(success) },
            MockOp { op: op2.clone(), simulation_result: Box::new(success) },
            MockOp { op: op3.clone(), simulation_result: Box::new(success) },
        ],
        vec![],
        vec![
            HandleOpsOut::FailedOp(1, "AA32 paymaster expired or not due".to_string()),
            HandleOpsOut::FailedOp(1, "AA".to_string()),
            HandleOpsOut::SuccessWithGas(default_estimated_gas()),
        ],
        vec![],
        U256::zero(),
    );
    assert_eq!(bundle.rejected_ops, vec![op2, op3]);
    assert_eq!(bundle.rejected_entities, vec![]);
    assert_eq!(
        bundle.ops_per_aggregator,
        vec![UserOpsPerAggregator { user_ops: vec![op1], ..Default::default() }]
    );
    assert_eq!(bundle.len(), 1);
}

#[test]
fn test_bundle_is_empty_when_every_op_is_rejected() {
    let op = op_with_sender(address(1));
    let bundle = make_bundle(
        vec![MockOp { op: op.clone(), simulation_result: Box::new(success) }],
        vec![],
        vec![HandleOpsOut::FailedOp(0, "AA25 invalid account nonce".to_string())],
        vec![],
        U256::from_u64(0),
    );
    assert!(bundle.is_empty());
    assert_eq!(bundle.len(), 0);
    assert_eq!(bundle.gas_estimate, U256::zero());
    assert_eq!(bundle.rejected_ops, vec![op]);
}

#[test]
fn test_failed_signature_validation_rejects_the_aggregator() {
    let plain = op_with_sender(address(1));
    let aggregated = op_with_sender(address(2));
    let aggregator = address(10);
    let bundle = make_bundle(
        vec![
            MockOp { op: plain.clone(), simulation_result: Box::new(success) },
            MockOp {
                op: aggregated.clone(),
                simulation_result: Box::new(move || {
                    SimulationResult::Success(SimulationSuccess {
                        aggregator: Some(AggregatorSimOut { address: aggregator, signature: bytes(7) }),
                        ..Default::default()
                    })
                }),
            },
        ],
        vec![MockAggregator {
            address: aggregator,
            signature: Box::new(|| AggregationResult::Signature(bytes(9))),
        }],
        vec![
            HandleOpsOut::SignatureValidationFailed(aggregator),
            HandleOpsOut::SuccessWithGas(default_estimated_gas()),
        ],
        vec![],
        U256::zero(),
    );
    assert_eq!(bundle.rejected_entities, vec![Entity::aggregator(aggregator)]);
    assert_eq!(bundle.rejected_ops, vec![]);
    assert_eq!(
        bundle.ops_per_aggregator,
        vec![UserOpsPerAggregator { user_ops: vec![plain], ..Default::default() }]
    );
}

#[test]
fn test_aggregator_without_signature_is_rejected_and_failed_one_is_dropped() {
    let op_a = op_with_sender(address(1));
    let op_b = op_with_sender(address(2));
    let op_c = op_with_sender(address(3));
    let with_aggregator = |address: Address| -> Box<dyn Fn() -> SimulationResult> {
        Box::new(move || {
            SimulationResult::Success(SimulationSuccess {
                aggregator: Some(AggregatorSimOut { address, signature: bytes(1) }),
                ..Default::default()
            })
        })
    };
    let bundle = make_bundle(
        vec![
            MockOp { op: op_a.clone(), simulation_result: with_aggregator(address(10)) },
            MockOp { op: op_b.clone(), simulation_result: with_aggregator(address(11)) },
            MockOp { op: op_c.clone(), simulation_result: with_aggregator(address(12)) },
        ],
        vec![
            MockAggregator {
                address: address(10),
                signature: Box::new(|| AggregationResult::Refused),
            },
            MockAggregator { address: address(11), signature: Box::new(|| AggregationResult::Failed) },
            MockAggregator {
                address: address(12),
                signature: Box::new(|| AggregationResult::Signature(bytes(5))),
            },
        ],
        vec![HandleOpsOut::SuccessWithGas(default_estimated_gas())],
        vec![],
        U256::zero(),
    );
    assert_eq!(bundle.rejected_entities, vec![Entity::aggregator(address(10))]);
    assert_eq!(bundle.rejected_ops, vec![]);
    assert_eq!(
        bundle.ops_per_aggregator,
        vec![UserOpsPerAggregator {
            user_ops: vec![UserOperation { signature: bytes(1), ..op_c }],
            aggregator: address(12),
            signature: bytes(5),
        }]
    );
}

#[test]
fn test_paymaster_with_too_small_deposit_is_rejected() {
    let fee = U256::from_u64(2);
    let costly = |sender: u8, paymaster: u8| UserOperation {
        sender: address(sender),
        paymaster_and_data: address(paymaster).bytes.to_vec(),
        max_fee_per_gas: fee,
        call_gas_limit: U256::from_u64(10),
        verification_gas_limit: U256::from_u64(5),
        pre_verification_gas: U256::from_u64(1),
        ..Default::default()
    };
    // Each op may cost 2 * (1 + 10 + 3 * 5) = 52.
    let op1 = costly(1, 21);
    let op2 = costly(2, 21);
    let op3 = costly(3, 22);
    let op4 = costly(4, 22);
    assert_eq!(op1.max_gas_cost(), Some(U256::from_u64(52)));
    let bundle = make_bundle(
        vec![
            MockOp { op: op1.clone(), simulation_result: Box::new(success) },
            MockOp { op: op2.clone(), simulation_result: Box::new(success) },
            MockOp { op: op3.clone(), simulation_result: Box::new(success) },
            MockOp { op: op4.clone(), simulation_result: Box::new(success) },
        ],
        vec![],
        vec![HandleOpsOut::SuccessWithGas(default_estimated_gas())],
        // Paymaster 21 can pay for one op and not for two; paymaster 22 for both.
        vec![
            U256::from_u64(103),
            U256::from_u64(103),
            U256::from_u64(104),
            U256::from_u64(104),
        ],
        U256::zero(),
    );
    assert_eq!(bundle.rejected_entities, vec![Entity::paymaster(address(21))]);
    assert_eq!(bundle.rejected_ops, vec![]);
    assert_eq!(
        bundle.ops_per_aggregator,
        vec![UserOpsPerAggregator { user_ops: vec![op3, op4], ..Default::default() }]
    );
}

#[test]
fn test_infrastructure_failures_end_the_round() {
    let settings = Settings {
        max_bundle_size: 5,
        beneficiary: address(124),
        use_dynamic_max_priority_fee: false,
        max_priority_fee_overhead_percent: 10,
    };
    let mut proposer = BundleProposerImpl::new(settings);
    assert_eq!(
        proposer.make_bundle(),
        ProposerAction::Fetch { max_ops: 5, with_priority_fee: false }
    );
    assert_eq!(
        proposer.on_fetched(Err(ProposerError::PoolUnavailable)),
        ProposerAction::Finished(Err(ProposerError::PoolUnavailable))
    );
    // Nothing is waited for now.
    assert_eq!(
        proposer.on_estimated(None),
        ProposerAction::Finished(Err(ProposerError::Inconsistent))
    );
    proposer.make_bundle();
    let fetch = PoolFetch {
        ops: vec![OpFromPool { op: op_with_sender(address(1)), expected_code_hash: hash(1) }],
        max_priority_fee: Some(U256::from_u64(1_000)),
        block_hash: hash(2),
    };
    // The quote is not used where the settings do not ask for it.
    assert!(matches!(proposer.on_fetched(Ok(fetch.clone())), ProposerAction::Simulate { .. }));
    assert_eq!(
        proposer.on_simulated(NOW, vec![success()], None),
        ProposerAction::Finished(Err(ProposerError::ProviderUnavailable))
    );
    proposer.make_bundle();
    proposer.on_fetched(Ok(fetch.clone()));
    assert_eq!(
        proposer.on_simulated(NOW, vec![], Some(vec![])),
        ProposerAction::Finished(Err(ProposerError::Inconsistent))
    );
    proposer.make_bundle();
    proposer.on_fetched(Ok(fetch));
    assert!(matches!(
        proposer.on_simulated(NOW, vec![success()], Some(vec![])),
        ProposerAction::EstimateGas { .. }
    ));
    assert_eq!(
        proposer.on_estimated(None),
        ProposerAction::Finished(Err(ProposerError::ProviderUnavailable))
    );
}

#[test]
fn test_factory_failure_on_op_without_factory_is_inconsistent() {
    let result = try_make_bundle(
        vec![MockOp { op: op_with_sender(address(1)), simulation_result: Box::new(success) }],
        vec![],
        vec![HandleOpsOut::FailedOp(0, "AA13 initCode failed or OOG".to_string())],
        vec![],
        U256::zero(),
    );
    assert_eq!(result, Err(ProposerError::Inconsistent));
    let result = try_make_bundle(
        vec![MockOp { op: op_with_sender(address(1)), simulation_result: Box::new(success) }],
        vec![],
        vec![HandleOpsOut::FailedOp(3, "AA31 paymaster deposit too low".to_string())],
        vec![],
        U256::zero(),
    );
    assert_eq!(result, Err(ProposerError::Inconsistent));
}

#[test]
fn test_classify_failure() {
    for message in ["AA13 a", "AA14", "AA15: x"] {
        assert_eq!(classify_failure(message), FailureCause::Factory);
    }
    for message in ["AA30", "AA31 b", "AA33", "AA34 signature error"] {
        assert_eq!(classify_failure(message), FailureCause::Paymaster);
    }
    for message in ["AA32 expired", "AA10", "AA1", "", "aa13", "AA35", "XAA13", "AA2\u{e9}"] {
        assert_eq!(classify_failure(message), FailureCause::Operation);
    }
}

#[test]
fn test_priority_fee_threshold_rounds_down() {
    let op = |fee: u64| op_with_sender_and_priority_fee(address(1), U256::from_u64(fee));
    // 7 * 115 / 100 = 8.05, rounded down to 8.
    assert!(meets_priority_fee(&op(8), &U256::from_u64(7), 15));
    assert!(!meets_priority_fee(&op(7), &U256::from_u64(7), 15));
    // A quote of zero asks for nothing.
    assert!(meets_priority_fee(&op(0), &U256::zero(), u64::MAX));
    // A threshold beyond 256 bits is met by nobody.
    let mut most = op(0);
    most.max_priority_fee_per_gas = U256::max_value();
    assert!(!meets_priority_fee(&most, &U256::max_value(), 1));
    assert!(meets_priority_fee(&most, &U256::max_value(), 0));
    let kept = filter_by_fee(
        vec![
            OpFromPool { op: op(54), expected_code_hash: hash(1) },
            OpFromPool { op: op(55), expected_code_hash: hash(2) },
            OpFromPool { op: op(56), expected_code_hash: hash(3) },
        ],
        &U256::from_u64(50),
        10,
    );
    assert_eq!(
        kept,
        vec![
            OpFromPool { op: op(55), expected_code_hash: hash(2) },
            OpFromPool { op: op(56), expected_code_hash: hash(3) },
        ]
    );
}

#[test]
fn test_simulate_validation_time_buffer() {
    let with_range = |valid_after: u64, valid_until: u64| {
        SimulationResult::Success(SimulationSuccess {
            valid_time_range: ValidTimeRange::new(valid_after, valid_until),
            ..Default::default()
        })
    };
    let passes = |result: SimulationResult| {
        simulate_validation(UserOperation::default(), result, NOW).unwrap().simulation.is_some()
    };
    assert!(passes(with_range(NOW, NOW + 60)));
    assert!(!passes(with_range(NOW, NOW + 59)));
    assert!(!passes(with_range(NOW + 1, NOW + 60)));
    assert!(simulate_validation(UserOperation::default(), SimulationResult::Failed, NOW).is_none());
    assert!(ValidTimeRange::default().contains(u64::MAX - 60, 60));
    assert!(!ValidTimeRange::default().contains(u64::MAX - 59, 60));
}

#[test]
fn test_context_rejections_by_index_and_entity() {
    let sim = |aggregator: Option<u8>| SimulationSuccess {
        aggregator: aggregator
            .map(|n| AggregatorSimOut { address: address(n), signature: bytes(n) }),
        ..Default::default()
    };
    let mut context = ProposalContext::new();
    assert!(context.is_empty());
    let ops: Vec<UserOperation> = (1..=5).map(|n| op_with_sender(address(n))).collect();
    for (op, aggregator) in ops.iter().zip([None, Some(10), Some(10), Some(11), None]) {
        context.push_op(
            aggregator.map(address),
            OpWithSimulation { op: op.clone(), simulation: sim(aggregator) },
        );
    }
    // Laid end to end: [1, 5] without aggregator, [2, 3] under 10, [4] under 11.
    assert_eq!(context.get_op_at(0), Some(&ops[0]));
    assert_eq!(context.get_op_at(1), Some(&ops[4]));
    assert_eq!(context.get_op_at(2), Some(&ops[1]));
    assert_eq!(context.get_op_at(4), Some(&ops[3]));
    assert_eq!(context.get_op_at(5), None);
    assert_eq!(context.aggregators(), vec![address(10), address(11)]);
    // Past the end: nothing changes.
    assert_eq!(context.reject_index(5), None);
    assert_eq!(context.rejected_ops(), &vec![]);
    // The group under 10 keeps an op: its signature is to be made again.
    assert_eq!(context.reject_index(2), Some(address(10)));
    // The group under 11 is left empty and goes.
    assert_eq!(context.reject_index(3), None);
    assert_eq!(context.aggregators(), vec![address(10)]);
    // The group without aggregator has no signature to make again.
    assert_eq!(context.reject_index(0), None);
    assert_eq!(context.rejected_ops(), &vec![ops[1].clone(), ops[3].clone(), ops[0].clone()]);
    assert_eq!(context.reject_entity(Entity::account(address(1))), vec![]);
    assert_eq!(context.rejected_entities(), &vec![Entity::account(address(1))]);
    let requests = context.signature_requests(&vec![address(11), address(10)]);
    assert_eq!(requests.len(), 1);
    assert_eq!(requests[0].aggregator, address(10));
    assert_eq!(requests[0].ops, vec![ops[2].clone()]);
    context.apply_aggregation_signature_result(address(10), AggregationResult::Signature(bytes(9)));
    assert_eq!(
        context.to_ops_per_aggregator(),
        vec![
            UserOpsPerAggregator { user_ops: vec![ops[4].clone()], ..Default::default() },
            UserOpsPerAggregator {
                user_ops: vec![UserOperation { signature: bytes(10), ..ops[2].clone() }],
                aggregator: address(10),
                signature: bytes(9),
            },
        ]
    );
    let mut changed = context.reject_entity(Entity::aggregator(address(10)));
    assert!(changed.is_empty());
    changed = process_failed_op(&mut context, 0, "AA23 reverted").unwrap();
    assert!(changed.is_empty());
    assert!(context.is_empty());
}

#[test]
fn test_rejecting_a_factory_reports_the_groups_it_changed() {
    let sim = |aggregator: u8| SimulationSuccess {
        aggregator: Some(AggregatorSimOut { address: address(aggregator), signature: bytes(0) }),
        ..Default::default()
    };
    let items = vec![
        ScreenedOp { op: op_with_sender_factory(address(1), address(30)), simulation: Some(sim(10)) },
        ScreenedOp { op: op_with_sender(address(2)), simulation: Some(sim(10)) },
        ScreenedOp { op: op_with_sender_factory(address(3), address(30)), simulation: Some(sim(11)) },
        ScreenedOp { op: op_with_sender(address(4)), simulation: Some(sim(12)) },
        ScreenedOp { op: op_with_sender(address(5)), simulation: None },
    ];
    let mut context = assemble_context(items, &vec![], vec![]);
    assert_eq!(context.rejected_ops(), &vec![op_with_sender(address(5))]);
    assert_eq!(context.aggregators(), vec![address(10), address(11), address(12)]);
    let changed = process_failed_op(&mut context, 2, "AA14 initCode must return sender").unwrap();
    assert_eq!(changed, vec![address(10)]);
    assert_eq!(context.aggregators(), vec![address(10), address(12)]);
    assert_eq!(context.rejected_entities(), &vec![Entity::factory(address(30))]);
    assert_eq!(context.get_op_at(0), Some(&op_with_sender(address(2))));
    assert_eq!(context.get_op_at(1), Some(&op_with_sender(address(4))));
    assert_eq!(context.get_op_at(2), None);
}
