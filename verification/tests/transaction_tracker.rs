use bundler_core::gas::GasFees;
use bundler_core::primitives::H256;
use bundler_core::transaction_tracker::{
    PendingTransaction, Settings, TrackerAction, TrackerError, TrackerEvent, TrackerUpdate,
    TransactionTrackerImpl, TxStatus,
};
use bundler_core::uint::U256;

fn tx_hash(n: u8) -> H256 {
    let mut hash = H256::zero();
    hash.bytes[31] = n;
    hash
}

fn fees(max_fee: u64, max_priority_fee: u64) -> GasFees {
    GasFees {
        max_fee_per_gas: U256::from_u64(max_fee),
        max_priority_fee_per_gas: U256::from_u64(max_priority_fee),
    }
}

fn nonce(n: u64) -> U256 {
    U256::from_u64(n)
}

fn new_tracker(start_nonce: u64) -> TransactionTrackerImpl {
    TransactionTrackerImpl::new(
        Settings {
            poll_interval_millis: 250,
            max_blocks_to_wait_for_mine: 2,
            replacement_fee_percent_increase: 10,
        },
        nonce(start_nonce),
    )
}

fn finished(update: TrackerUpdate) -> TrackerAction {
    TrackerAction::Finished(Ok(Some(update)))
}

/// Sends a transaction and lets it stay pending until the wait is over.
fn send_and_leave_pending(tracker: &mut TransactionTrackerImpl, n: u64, gas_fees: GasFees, hash: H256) {
    assert_eq!(tracker.send_transaction_and_wait(Some(nonce(n)), gas_fees), TrackerAction::SendTransaction);
    assert_eq!(tracker.on_event(TrackerEvent::Sent { tx_hash: hash }), TrackerAction::GetBlockNumber);
    assert_eq!(tracker.on_event(TrackerEvent::BlockNumber(100)), TrackerAction::GetTransactionCount);
    assert_eq!(
        tracker.on_event(TrackerEvent::Nonce(nonce(n))),
        TrackerAction::GetTransactionStatus { tx_hash: hash }
    );
    assert_eq!(tracker.on_event(TrackerEvent::Status(TxStatus::Pending)), TrackerAction::GetBlockNumber);
    assert_eq!(
        tracker.on_event(TrackerEvent::BlockNumber(102)),
        finished(TrackerUpdate::StillPendingAfterWait)
    );
}

#[test]
fn test_tracker_mines_on_first_attempt() {
    let mut tracker = new_tracker(7);
    assert_eq!(tracker.get_nonce_and_required_fees(), Ok((nonce(7), None)));
    assert_eq!(
        tracker.send_transaction_and_wait(Some(nonce(7)), fees(100, 10)),
        TrackerAction::SendTransaction
    );
    assert_eq!(
        tracker.on_event(TrackerEvent::Sent { tx_hash: tx_hash(1) }),
        TrackerAction::GetBlockNumber
    );
    assert_eq!(tracker.on_event(TrackerEvent::BlockNumber(50)), TrackerAction::GetTransactionCount);
    assert_eq!(
        tracker.on_event(TrackerEvent::Nonce(nonce(8))),
        TrackerAction::GetTransactionStatus { tx_hash: tx_hash(1) }
    );
    assert_eq!(
        tracker.on_event(TrackerEvent::Status(TxStatus::Mined { block_number: 51 })),
        finished(TrackerUpdate::Mined {
            tx_hash: tx_hash(1),
            gas_fees: fees(100, 10),
            block_number: 51,
            attempt_number: 0,
        })
    );
    assert_eq!(tracker.get_nonce_and_required_fees(), Ok((nonce(8), None)));
    assert!(tracker.pending_transactions().is_empty());
    assert!(!tracker.is_busy());
}

#[test]
fn test_wrong_nonce_is_invalid_and_never_reaches_the_sender() {
    let mut tracker = new_tracker(7);
    for wrong in [Some(nonce(6)), Some(nonce(8)), None] {
        assert_eq!(
            tracker.send_transaction_and_wait(wrong, fees(100, 10)),
            TrackerAction::Finished(Err(TrackerError::InvalidSubmission))
        );
        assert!(!tracker.is_busy());
        assert!(tracker.pending_transactions().is_empty());
        assert_eq!(tracker.on_event(TrackerEvent::Sent { tx_hash: tx_hash(1) }), TrackerAction::Idle);
    }
    assert_eq!(tracker.validate_transaction(Some(nonce(7)), fees(0, 0)), Ok(()));
    assert_eq!(tracker.get_nonce_and_required_fees(), Ok((nonce(7), None)));
}

#[test]
fn test_replacement_must_raise_both_fees() {
    let mut tracker = new_tracker(3);
    send_and_leave_pending(&mut tracker, 3, fees(100, 10), tx_hash(1));
    assert_eq!(tracker.get_nonce_and_required_fees(), Ok((nonce(3), Some(fees(110, 11)))));
    for low in [fees(109, 11), fees(110, 10), fees(100, 10)] {
        assert_eq!(
            tracker.validate_transaction(Some(nonce(3)), low),
            Err(TrackerError::InvalidSubmission)
        );
    }
    assert_eq!(tracker.validate_transaction(Some(nonce(3)), fees(110, 11)), Ok(()));
    send_and_leave_pending(&mut tracker, 3, fees(115, 19), tx_hash(2));
    // 115 * 110 / 100 = 126.5 and 19 * 110 / 100 = 20.9, both rounded down.
    assert_eq!(tracker.get_nonce_and_required_fees(), Ok((nonce(3), Some(fees(126, 20)))));
    assert_eq!(
        tracker.pending_transactions(),
        &vec![
            PendingTransaction { tx_hash: tx_hash(1), gas_fees: fees(100, 10), attempt_number: 0 },
            PendingTransaction { tx_hash: tx_hash(2), gas_fees: fees(115, 19), attempt_number: 1 },
        ]
    );
}

#[test]
fn test_only_one_operation_at_a_time() {
    let mut tracker = new_tracker(3);
    assert_eq!(tracker.check_for_update_now(), TrackerAction::GetTransactionCount);
    assert!(tracker.is_busy());
    assert_eq!(
        tracker.check_for_update_now(),
        TrackerAction::Finished(Err(TrackerError::BusyTracker))
    );
    assert_eq!(
        tracker.send_transaction_and_wait(Some(nonce(3)), fees(1, 1)),
        TrackerAction::Finished(Err(TrackerError::BusyTracker))
    );
    assert_eq!(tracker.get_nonce_and_required_fees(), Err(TrackerError::BusyTracker));
    // The first operation goes on undisturbed.
    assert_eq!(tracker.on_event(TrackerEvent::Nonce(nonce(3))), TrackerAction::Finished(Ok(None)));
    assert!(!tracker.is_busy());
}

#[test]
fn test_dropped_transaction_lifts_the_fee_floor() {
    let mut tracker = new_tracker(3);
    send_and_leave_pending(&mut tracker, 3, fees(100, 10), tx_hash(1));
    assert_eq!(tracker.check_for_update_now(), TrackerAction::GetTransactionCount);
    assert_eq!(
        tracker.on_event(TrackerEvent::Nonce(nonce(3))),
        TrackerAction::GetTransactionStatus { tx_hash: tx_hash(1) }
    );
    assert_eq!(
        tracker.on_event(TrackerEvent::Status(TxStatus::Dropped)),
        finished(TrackerUpdate::LatestTxDropped)
    );
    assert_eq!(tracker.get_nonce_and_required_fees(), Ok((nonce(3), None)));
    // Nothing new was sent since: there is no update, and the sender is not asked.
    assert_eq!(tracker.check_for_update_now(), TrackerAction::GetTransactionCount);
    assert_eq!(tracker.on_event(TrackerEvent::Nonce(nonce(3))), TrackerAction::Finished(Ok(None)));
    // A replacement may bid less than the dropped transaction did.
    assert_eq!(
        tracker.send_transaction_and_wait(Some(nonce(3)), fees(1, 1)),
        TrackerAction::SendTransaction
    );
    assert_eq!(tracker.on_event(TrackerEvent::Sent { tx_hash: tx_hash(2) }), TrackerAction::GetBlockNumber);
    assert_eq!(tracker.pending_transactions().len(), 2);
    assert_eq!(tracker.pending_transactions()[1].attempt_number, 1);
}

#[test]
fn test_nonce_change_scans_attempts_newest_first() {
    let mut tracker = new_tracker(3);
    send_and_leave_pending(&mut tracker, 3, fees(100, 10), tx_hash(1));
    send_and_leave_pending(&mut tracker, 3, fees(200, 20), tx_hash(2));
    send_and_leave_pending(&mut tracker, 3, fees(300, 30), tx_hash(3));
    assert_eq!(tracker.check_for_update_now(), TrackerAction::GetTransactionCount);
    assert_eq!(
        tracker.on_event(TrackerEvent::Nonce(nonce(5))),
        TrackerAction::GetTransactionStatus { tx_hash: tx_hash(3) }
    );
    assert_eq!(
        tracker.on_event(TrackerEvent::Status(TxStatus::Pending)),
        TrackerAction::GetTransactionStatus { tx_hash: tx_hash(2) }
    );
    // An answer of another kind changes nothing: the question is asked again.
    assert_eq!(
        tracker.on_event(TrackerEvent::BlockNumber(1)),
        TrackerAction::GetTransactionStatus { tx_hash: tx_hash(2) }
    );
    assert_eq!(
        tracker.on_event(TrackerEvent::Status(TxStatus::Mined { block_number: 9 })),
        finished(TrackerUpdate::Mined {
            tx_hash: tx_hash(2),
            gas_fees: fees(200, 20),
            block_number: 9,
            attempt_number: 1,
        })
    );
    // The transaction count becomes the nonce as it is.
    assert_eq!(tracker.get_nonce_and_required_fees(), Ok((nonce(5), None)));
    assert!(tracker.pending_transactions().is_empty());
}

#[test]
fn test_nonce_used_for_other_transaction() {
    let mut tracker = new_tracker(3);
    assert_eq!(tracker.check_for_update_now(), TrackerAction::GetTransactionCount);
    assert_eq!(
        tracker.on_event(TrackerEvent::Nonce(nonce(4))),
        finished(TrackerUpdate::NonceUsedForOtherTx)
    );
    assert_eq!(tracker.get_nonce_and_required_fees(), Ok((nonce(4), None)));
    send_and_leave_pending(&mut tracker, 4, fees(100, 10), tx_hash(1));
    send_and_leave_pending(&mut tracker, 4, fees(200, 20), tx_hash(2));
    assert_eq!(tracker.check_for_update_now(), TrackerAction::GetTransactionCount);
    assert_eq!(
        tracker.on_event(TrackerEvent::Nonce(nonce(5))),
        TrackerAction::GetTransactionStatus { tx_hash: tx_hash(2) }
    );
    assert_eq!(
        tracker.on_event(TrackerEvent::Status(TxStatus::Dropped)),
        TrackerAction::GetTransactionStatus { tx_hash: tx_hash(1) }
    );
    assert_eq!(
        tracker.on_event(TrackerEvent::Status(TxStatus::Pending)),
        finished(TrackerUpdate::NonceUsedForOtherTx)
    );
    assert_eq!(tracker.get_nonce_and_required_fees(), Ok((nonce(5), None)));
    assert!(tracker.pending_transactions().is_empty());
}

#[test]
fn test_wait_polls_until_the_deadline() {
    let mut tracker = new_tracker(3);
    assert_eq!(
        tracker.send_transaction_and_wait(Some(nonce(3)), fees(100, 10)),
        TrackerAction::SendTransaction
    );
    assert_eq!(tracker.on_event(TrackerEvent::Sent { tx_hash: tx_hash(1) }), TrackerAction::GetBlockNumber);
    // The wait starts at block 100 and lasts two blocks.
    assert_eq!(tracker.on_event(TrackerEvent::BlockNumber(100)), TrackerAction::GetTransactionCount);
    for block in [100, 101] {
        assert_eq!(
            tracker.on_event(TrackerEvent::Nonce(nonce(3))),
            TrackerAction::GetTransactionStatus { tx_hash: tx_hash(1) }
        );
        assert_eq!(
            tracker.on_event(TrackerEvent::Status(TxStatus::Pending)),
            TrackerAction::GetBlockNumber
        );
        assert_eq!(
            tracker.on_event(TrackerEvent::BlockNumber(block)),
            TrackerAction::Sleep { millis: 250 }
        );
        assert_eq!(tracker.on_event(TrackerEvent::Nonce(nonce(9))), TrackerAction::Sleep { millis: 250 });
        assert_eq!(tracker.on_event(TrackerEvent::Slept), TrackerAction::GetTransactionCount);
    }
    assert_eq!(
        tracker.on_event(TrackerEvent::Nonce(nonce(3))),
        TrackerAction::GetTransactionStatus { tx_hash: tx_hash(1) }
    );
    assert_eq!(
        tracker.on_event(TrackerEvent::Status(TxStatus::Mined { block_number: 102 })),
        finished(TrackerUpdate::Mined {
            tx_hash: tx_hash(1),
            gas_fees: fees(100, 10),
            block_number: 102,
            attempt_number: 0,
        })
    );
    assert_eq!(tracker.get_nonce_and_required_fees(), Ok((nonce(4), None)));
}

#[test]
fn test_send_error_is_explained_by_a_used_nonce_or_surfaces() {
    // The nonce was used meanwhile: that is the outcome.
    let mut tracker = new_tracker(3);
    tracker.send_transaction_and_wait(Some(nonce(3)), fees(100, 10));
    assert_eq!(tracker.on_event(TrackerEvent::SendFailed), TrackerAction::GetTransactionCount);
    assert_eq!(
        tracker.on_event(TrackerEvent::Nonce(nonce(4))),
        finished(TrackerUpdate::NonceUsedForOtherTx)
    );
    assert_eq!(tracker.get_nonce_and_required_fees(), Ok((nonce(4), None)));
    // Nothing explains it: the send error surfaces.
    tracker.send_transaction_and_wait(Some(nonce(4)), fees(100, 10));
    assert_eq!(tracker.on_event(TrackerEvent::SendFailed), TrackerAction::GetTransactionCount);
    assert_eq!(
        tracker.on_event(TrackerEvent::Nonce(nonce(4))),
        TrackerAction::Finished(Err(TrackerError::SendFailed))
    );
    assert!(tracker.pending_transactions().is_empty());
    // An earlier attempt was dropped: the send error surfaces all the same.
    send_and_leave_pending(&mut tracker, 4, fees(100, 10), tx_hash(1));
    tracker.send_transaction_and_wait(Some(nonce(4)), fees(110, 11));
    assert_eq!(tracker.on_event(TrackerEvent::SendFailed), TrackerAction::GetTransactionCount);
    assert_eq!(
        tracker.on_event(TrackerEvent::Nonce(nonce(4))),
        TrackerAction::GetTransactionStatus { tx_hash: tx_hash(1) }
    );
    assert_eq!(
        tracker.on_event(TrackerEvent::Status(TxStatus::Dropped)),
        TrackerAction::Finished(Err(TrackerError::SendFailed))
    );
    assert_eq!(tracker.get_nonce_and_required_fees(), Ok((nonce(4), None)));
}

#[test]
fn test_provider_failure_ends_the_operation() {
    let mut tracker = new_tracker(3);
    assert_eq!(tracker.check_for_update_now(), TrackerAction::GetTransactionCount);
    assert_eq!(
        tracker.on_event(TrackerEvent::ProviderFailed),
        TrackerAction::Finished(Err(TrackerError::ProviderUnavailable))
    );
    assert!(!tracker.is_busy());
    tracker.send_transaction_and_wait(Some(nonce(3)), fees(100, 10));
    // While the transaction is with the sender no query is out.
    assert_eq!(tracker.on_event(TrackerEvent::ProviderFailed), TrackerAction::SendTransaction);
    tracker.on_event(TrackerEvent::Sent { tx_hash: tx_hash(1) });
    assert_eq!(
        tracker.on_event(TrackerEvent::ProviderFailed),
        TrackerAction::Finished(Err(TrackerError::ProviderUnavailable))
    );
    // The attempt stays on record.
    assert_eq!(tracker.get_nonce_and_required_fees(), Ok((nonce(3), Some(fees(110, 11)))));
}

#[test]
fn test_gas_fees_increase_saturates() {
    let most = GasFees { max_fee_per_gas: U256::max_value(), max_priority_fee_per_gas: U256::zero() };
    let raised = most.increase_by_percent(1);
    assert_eq!(raised.max_fee_per_gas, U256::max_value());
    assert_eq!(raised.max_priority_fee_per_gas, U256::zero());
    assert_eq!(fees(10, 3).increase_by_percent(0), fees(10, 3));
    assert_eq!(fees(10, 3).increase_by_percent(50), fees(15, 4));
    assert!(fees(15, 4).covers(&fees(15, 4)));
    assert!(!fees(15, 3).covers(&fees(15, 4)));
    assert!(!fees(14, 4).covers(&fees(15, 4)));
}
