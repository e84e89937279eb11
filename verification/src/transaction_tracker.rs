//! Tracks the transactions sent for one account nonce.
//!
//! The tracker owns the nonce and the list of replacement attempts made for
//! it. It never talks to the network itself: each call hands back a
//! [`TrackerAction`] for the caller to perform, and the caller reports what
//! happened with [`TransactionTrackerImpl::on_event`]. Only one operation is
//! in flight at a time.

use crate::gas::GasFees;
use crate::primitives::H256;
use crate::uint::{u256_limit, U256};
use vstd::prelude::*;

verus! {

/// What the sender knows of a transaction.
#[derive(Clone, Copy, Debug, PartialEq, Eq)]
pub enum TxStatus {
    Pending,
    Mined { block_number: u64 },
    Dropped,
}

impl TxStatus {
    /// The status of a transaction as a look-up by its hash tells it: one
    /// that is not found was dropped, one that is found without a block is
    /// pending, and one that is found in a block was mined there.
    pub fn from_lookup(block_number_of_transaction: Option<Option<u64>>) -> (status: TxStatus)
        ensures
            status == match block_number_of_transaction {
                None => TxStatus::Dropped,
                Some(None) => TxStatus::Pending,
                Some(Some(block_number)) => TxStatus::Mined { block_number },
            },
    {
        match block_number_of_transaction {
            None => TxStatus::Dropped,
            Some(None) => TxStatus::Pending,
            Some(Some(block_number)) => TxStatus::Mined { block_number },
        }
    }
}

/// How an operation of the tracker ended.
#[derive(Clone, Copy, Debug, PartialEq, Eq)]
pub enum TrackerUpdate {
    Mined { tx_hash: H256, gas_fees: GasFees, block_number: u64, attempt_number: u64 },
    StillPendingAfterWait,
    LatestTxDropped,
    NonceUsedForOtherTx,
}

/// Why an operation of the tracker failed.
#[derive(Clone, Copy, Debug, PartialEq, Eq)]
pub enum TrackerError {
    /// Another operation is still in flight.
    BusyTracker,
    /// The transaction has no nonce, the wrong nonce, or fees below the floor.
    InvalidSubmission,
    /// The provider or the sender could not answer a query.
    ProviderUnavailable,
    /// The sender refused the transaction and no mined outcome explains it.
    SendFailed,
}

#[derive(Clone, Copy, Debug, PartialEq, Eq)]
pub struct Settings {
    /// Pause between two polls, in milliseconds.
    pub poll_interval_millis: u64,
    pub max_blocks_to_wait_for_mine: u64,
    pub replacement_fee_percent_increase: u64,
}

/// One submission attempt for the current nonce.
#[derive(Clone, Copy, Debug, PartialEq, Eq)]
pub struct PendingTransaction {
    pub tx_hash: H256,
    pub gas_fees: GasFees,
    pub attempt_number: u64,
}

/// Why the tracker is looking for an update.
#[derive(Clone, Copy, Debug, PartialEq, Eq)]
pub enum Purpose {
    /// A single poll asked for by the caller.
    CheckNow,
    /// The last check after the sender refused a transaction.
    SendRecovery,
    /// One round of the wait that follows a send; `end_block` is the deadline.
    Wait { end_block: u128 },
}

/// Where the operation in flight stands.
#[derive(Clone, Copy, Debug, PartialEq, Eq)]
pub enum Phase {
    Idle,
    /// The transaction was handed to the sender.
    Sending { gas_fees: GasFees },
    /// The account's transaction count was asked for.
    AwaitingNonce { purpose: Purpose },
    /// The nonce has moved on; the attempts are asked about, newest first.
    /// The one asked about last is `transactions[remaining - 1]`.
    Scanning { purpose: Purpose, external_nonce: U256, remaining: usize },
    /// The newest attempt is asked about.
    AwaitingLatestStatus { purpose: Purpose },
    /// The block number at which the wait starts was asked for.
    AwaitingStartBlock,
    /// The block number was asked for, to hold it against the deadline.
    AwaitingCurrentBlock { end_block: u128 },
    /// The tracker pauses before the next poll.
    Sleeping { end_block: u128 },
}

/// What the caller reports back.
#[derive(Clone, Copy, Debug, PartialEq, Eq)]
pub enum TrackerEvent {
    /// The account's transaction count.
    Nonce(U256),
    /// The status of the transaction asked about.
    Status(TxStatus),
    /// The sender accepted the transaction.
    Sent { tx_hash: H256 },
    /// The sender refused the transaction.
    SendFailed,
    /// The latest block number.
    BlockNumber(u64),
    /// The pause is over.
    Slept,
    /// The query could not be answered.
    ProviderFailed,
}

/// What the caller is to do next.
#[derive(Clone, Copy, Debug, PartialEq, Eq)]
pub enum TrackerAction {
    /// Nothing is in flight.
    Idle,
    GetTransactionCount,
    GetTransactionStatus { tx_hash: H256 },
    /// Hand the transaction given to `send_transaction_and_wait` to the sender.
    SendTransaction,
    GetBlockNumber,
    Sleep { millis: u64 },
    /// The operation is over, with this result.
    Finished(Result<Option<TrackerUpdate>, TrackerError>),
}

/// The tracker as a mathematical value.
pub struct TrackerModel {
    pub settings: Settings,
    pub nonce: U256,
    pub transactions: Seq<PendingTransaction>,
    pub has_dropped: bool,
    pub attempt_count: u64,
    pub phase: Phase,
}

impl TrackerModel {
    /// The attempts are numbered in the order they were made, none has a
    /// number above the count of attempts, and where the newest attempt was
    /// found dropped there is such an attempt.
    pub open spec fn wf(self) -> bool {
        &&& self.has_dropped ==> self.transactions.len() > 0
        &&& forall|i: int, j: int|
            0 <= i < j < self.transactions.len() ==> self.transactions[i].attempt_number
                <= self.transactions[j].attempt_number
        &&& forall|i: int|
            0 <= i < self.transactions.len() ==> self.transactions[i].attempt_number
                <= self.attempt_count
    }

    /// The floor for the fees of the next attempt: the newest attempt's fees
    /// raised by the configured percentage, or none when that attempt was
    /// dropped or there is no attempt.
    pub open spec fn fee_floor_applies(self) -> bool {
        !self.has_dropped && self.transactions.len() > 0
    }

    /// True when a transaction with this nonce and these fees may be sent.
    pub open spec fn accepts(self, nonce: Option<U256>, gas_fees: GasFees) -> bool {
        &&& nonce == Some(self.nonce)
        &&& self.fee_floor_applies() ==> gas_fees.meets_increase_of(
            self.transactions.last().gas_fees,
            self.settings.replacement_fee_percent_increase,
        )
    }

    /// The state after a transaction was found mined or the nonce was found
    /// used: nothing is pending for the new nonce.
    pub open spec fn reset_to(self, nonce: U256) -> TrackerModel {
        TrackerModel {
            nonce,
            transactions: Seq::empty(),
            has_dropped: false,
            attempt_count: 0,
            phase: Phase::Idle,
            ..self
        }
    }

    /// The request that the caller still owes an answer to.
    pub open spec fn pending_action(self) -> TrackerAction {
        match self.phase {
            Phase::Idle => TrackerAction::Idle,
            Phase::Sending { .. } => TrackerAction::SendTransaction,
            Phase::AwaitingNonce { .. } => TrackerAction::GetTransactionCount,
            Phase::Scanning { remaining, .. } => if 0 < remaining <= self.transactions.len() {
                TrackerAction::GetTransactionStatus {
                    tx_hash: self.transactions[remaining - 1].tx_hash,
                }
            } else {
                TrackerAction::Idle
            },
            Phase::AwaitingLatestStatus { .. } => if self.transactions.len() > 0 {
                TrackerAction::GetTransactionStatus { tx_hash: self.transactions.last().tx_hash }
            } else {
                TrackerAction::Idle
            },
            Phase::AwaitingStartBlock => TrackerAction::GetBlockNumber,
            Phase::AwaitingCurrentBlock { .. } => TrackerAction::GetBlockNumber,
            Phase::Sleeping { .. } => TrackerAction::Sleep {
                millis: self.settings.poll_interval_millis,
            },
        }
    }

    /// A check for an update begins: the transaction count is asked for.
    pub open spec fn begin_check(self, purpose: Purpose) -> (TrackerModel, TrackerAction) {
        (
            TrackerModel { phase: Phase::AwaitingNonce { purpose }, ..self },
            TrackerAction::GetTransactionCount,
        )
    }

    /// A check has ended with `found`. What follows depends on why it was made.
    pub open spec fn conclude(self, purpose: Purpose, found: Option<TrackerUpdate>) -> (
        TrackerModel,
        TrackerAction,
    ) {
        let idle = TrackerModel { phase: Phase::Idle, ..self };
        match purpose {
            Purpose::CheckNow => (idle, TrackerAction::Finished(Ok(found))),
            Purpose::SendRecovery => match found {
                Some(TrackerUpdate::Mined { .. }) | Some(TrackerUpdate::NonceUsedForOtherTx) => (
                    idle,
                    TrackerAction::Finished(Ok(found)),
                ),
                _ => (idle, TrackerAction::Finished(Err(TrackerError::SendFailed))),
            },
            Purpose::Wait { end_block } => match found {
                Some(_) => (idle, TrackerAction::Finished(Ok(found))),
                None => (
                    TrackerModel { phase: Phase::AwaitingCurrentBlock { end_block }, ..self },
                    TrackerAction::GetBlockNumber,
                ),
            },
        }
    }

    /// The transaction count has arrived.
    pub open spec fn on_nonce(self, purpose: Purpose, external_nonce: U256) -> (
        TrackerModel,
        TrackerAction,
    ) {
        if self.nonce.value() < external_nonce.value() {
            if self.transactions.len() == 0 {
                self.reset_to(external_nonce).conclude(
                    purpose,
                    Some(TrackerUpdate::NonceUsedForOtherTx),
                )
            } else {
                (
                    TrackerModel {
                        phase: Phase::Scanning {
                            purpose,
                            external_nonce,
                            remaining: self.transactions.len() as usize,
                        },
                        ..self
                    },
                    TrackerAction::GetTransactionStatus {
                        tx_hash: self.transactions.last().tx_hash,
                    },
                )
            }
        } else if self.has_dropped || self.transactions.len() == 0 {
            self.conclude(purpose, None)
        } else {
            (
                TrackerModel { phase: Phase::AwaitingLatestStatus { purpose }, ..self },
                TrackerAction::GetTransactionStatus { tx_hash: self.transactions.last().tx_hash },
            )
        }
    }

    /// While the attempts are gone through after the nonce moved on, the
    /// status of `transactions[remaining - 1]` has arrived.
    pub open spec fn on_scanned(
        self,
        purpose: Purpose,
        external_nonce: U256,
        remaining: usize,
        status: TxStatus,
    ) -> (TrackerModel, TrackerAction) {
        if remaining == 0 || remaining > self.transactions.len() {
            self.reset_to(external_nonce).conclude(
                purpose,
                Some(TrackerUpdate::NonceUsedForOtherTx),
            )
        } else {
            let tx = self.transactions[remaining - 1];
            match status {
                TxStatus::Mined { block_number } => self.reset_to(external_nonce).conclude(
                    purpose,
                    Some(
                        TrackerUpdate::Mined {
                            tx_hash: tx.tx_hash,
                            gas_fees: tx.gas_fees,
                            block_number,
                            attempt_number: tx.attempt_number,
                        },
                    ),
                ),
                _ => if remaining == 1 {
                    self.reset_to(external_nonce).conclude(
                        purpose,
                        Some(TrackerUpdate::NonceUsedForOtherTx),
                    )
                } else {
                    (
                        TrackerModel {
                            phase: Phase::Scanning {
                                purpose,
                                external_nonce,
                                remaining: (remaining - 1) as usize,
                            },
                            ..self
                        },
                        TrackerAction::GetTransactionStatus {
                            tx_hash: self.transactions[remaining - 2].tx_hash,
                        },
                    )
                },
            }
        }
    }

    /// The nonce has not moved, and the status of the newest attempt has arrived.
    pub open spec fn on_latest_status(self, purpose: Purpose, status: TxStatus) -> (
        TrackerModel,
        TrackerAction,
    ) {
        if self.transactions.len() == 0 {
            self.conclude(purpose, None)
        } else {
            let tx = self.transactions.last();
            match status {
                TxStatus::Pending => self.conclude(purpose, None),
                TxStatus::Mined { block_number } => {
                    let found = TrackerUpdate::Mined {
                        tx_hash: tx.tx_hash,
                        gas_fees: tx.gas_fees,
                        block_number,
                        attempt_number: tx.attempt_number,
                    };
                    self.reset_to(U256::from_value(self.nonce.next_value())).conclude(
                        purpose,
                        Some(found),
                    )
                },
                TxStatus::Dropped => TrackerModel { has_dropped: true, ..self }.conclude(
                    purpose,
                    Some(TrackerUpdate::LatestTxDropped),
                ),
            }
        }
    }

    /// The sender has accepted the transaction: it joins the attempts, and the
    /// wait begins with the block number it starts at.
    pub open spec fn on_sent(self, gas_fees: GasFees, tx_hash: H256) -> (
        TrackerModel,
        TrackerAction,
    ) {
        (
            TrackerModel {
                transactions: self.transactions.push(
                    PendingTransaction { tx_hash, gas_fees, attempt_number: self.attempt_count },
                ),
                has_dropped: false,
                attempt_count: if self.attempt_count < u64::MAX {
                    (self.attempt_count + 1) as u64
                } else {
                    self.attempt_count
                },
                phase: Phase::AwaitingStartBlock,
                ..self
            },
            TrackerAction::GetBlockNumber,
        )
    }

    /// A block number has arrived during a wait with this deadline.
    pub open spec fn on_current_block(self, end_block: u128, number: u64) -> (
        TrackerModel,
        TrackerAction,
    ) {
        if end_block <= number {
            (
                TrackerModel { phase: Phase::Idle, ..self },
                TrackerAction::Finished(Ok(Some(TrackerUpdate::StillPendingAfterWait))),
            )
        } else {
            (
                TrackerModel { phase: Phase::Sleeping { end_block }, ..self },
                TrackerAction::Sleep { millis: self.settings.poll_interval_millis },
            )
        }
    }

    /// The state that follows `event`, and what the caller is to do next. An
    /// event that does not answer the pending request changes nothing, and
    /// the request is made again.
    pub open spec fn step(self, event: TrackerEvent) -> (TrackerModel, TrackerAction) {
        let failed = (
            TrackerModel { phase: Phase::Idle, ..self },
            TrackerAction::Finished(Err(TrackerError::ProviderUnavailable)),
        );
        let ignored = (self, self.pending_action());
        match (self.phase, event) {
            (Phase::Sending { gas_fees }, TrackerEvent::Sent { tx_hash }) => self.on_sent(
                gas_fees,
                tx_hash,
            ),
            (Phase::Sending { .. }, TrackerEvent::SendFailed) => self.begin_check(
                Purpose::SendRecovery,
            ),
            (Phase::AwaitingNonce { purpose }, TrackerEvent::Nonce(n)) => self.on_nonce(purpose, n),
            (Phase::AwaitingNonce { .. }, TrackerEvent::ProviderFailed) => failed,
            (
                Phase::Scanning { purpose, external_nonce, remaining },
                TrackerEvent::Status(status),
            ) => self.on_scanned(purpose, external_nonce, remaining, status),
            (Phase::Scanning { .. }, TrackerEvent::ProviderFailed) => failed,
            (
                Phase::AwaitingLatestStatus { purpose },
                TrackerEvent::Status(status),
            ) => self.on_latest_status(purpose, status),
            (Phase::AwaitingLatestStatus { .. }, TrackerEvent::ProviderFailed) => failed,
            (Phase::AwaitingStartBlock, TrackerEvent::BlockNumber(number)) => self.begin_check(
                Purpose::Wait {
                    end_block: (number + self.settings.max_blocks_to_wait_for_mine) as u128,
                },
            ),
            (Phase::AwaitingStartBlock, TrackerEvent::ProviderFailed) => failed,
            (
                Phase::AwaitingCurrentBlock { end_block },
                TrackerEvent::BlockNumber(number),
            ) => self.on_current_block(end_block, number),
            (Phase::AwaitingCurrentBlock { .. }, TrackerEvent::ProviderFailed) => failed,
            (Phase::Sleeping { end_block }, TrackerEvent::Slept) => self.begin_check(
                Purpose::Wait { end_block },
            ),
            _ => ignored,
        }
    }
}

/// True when `action` ends an operation with a transaction of the tracker
/// found mined.
pub open spec fn reports_mined(action: TrackerAction) -> bool {
    action matches TrackerAction::Finished(Ok(Some(TrackerUpdate::Mined { .. })))
}

/// True when `action` ends an operation with the nonce found used, by a
/// transaction of the tracker or by another.
pub open spec fn reports_nonce_used(action: TrackerAction) -> bool {
    reports_mined(action) || action == TrackerAction::Finished(
        Ok(Some(TrackerUpdate::NonceUsedForOtherTx)),
    )
}

/// After an operation ends with the nonce found used, nothing is pending:
/// there are no attempts, no fee floor, and no operation in flight. The nonce
/// is the account's transaction count where that was what gave the nonce
/// away, and the one after the old nonce where the newest attempt was found
/// mined.
pub proof fn law_nonce_used_resets(before: TrackerModel, event: TrackerEvent)
    requires
        reports_nonce_used(before.step(event).1),
    ensures
        before.step(event).0.transactions.len() == 0,
        !before.step(event).0.has_dropped,
        before.step(event).0.attempt_count == 0,
        !before.step(event).0.fee_floor_applies(),
        before.step(event).0.phase is Idle,
        before.phase matches Phase::Scanning { external_nonce, .. } ==> before.step(event).0.nonce
            == external_nonce,
        before.phase is AwaitingNonce ==> event is Nonce && before.step(event).0.nonce
            == event->Nonce_0,
        before.phase is AwaitingLatestStatus ==> before.step(event).0.nonce.value()
            == before.nonce.next_value(),
{
    before.nonce.lemma_value(before.nonce);
    U256::lemma_from_value(before.nonce.next_value(), before.nonce);
}

/// After a transaction of the tracker is found mined, the nonce is the one
/// after the nonce it was sent with, and no fee floor applies. This is stated
/// for a transaction count that is one above the tracker's nonce: a count
/// further ahead becomes the nonce as it is.
pub proof fn law_mined_advances_nonce(before: TrackerModel, event: TrackerEvent)
    requires
        reports_mined(before.step(event).1),
        before.nonce.value() + 1 < u256_limit(),
        before.phase matches Phase::Scanning { external_nonce, .. } ==> external_nonce.value()
            == before.nonce.value() + 1,
    ensures
        before.step(event).0.nonce.value() == before.nonce.value() + 1,
        !before.step(event).0.fee_floor_applies(),
{
    law_nonce_used_resets(before, event);
}

/// A step keeps the attempts in the order they were made.
pub proof fn law_step_keeps_order(before: TrackerModel, event: TrackerEvent)
    requires
        before.wf(),
    ensures
        before.step(event).0.wf(),
{
    let after = before.step(event).0;
    assert(after.transactions == before.transactions || after.transactions.len() == 0 || (
    before.phase is Sending && event is Sent));
    if before.phase is Sending && event is Sent {
        assert(after == before.on_sent(before.phase->Sending_gas_fees, event->Sent_tx_hash).0);
    }
}

/// Keeps track of the transactions sent for one nonce, suggests the nonce and
/// the fees of the next one, and tells which of them was mined.
#[derive(Debug)]
pub struct TransactionTrackerImpl {
    settings: Settings,
    nonce: U256,
    transactions: Vec<PendingTransaction>,
    has_dropped: bool,
    attempt_count: u64,
    phase: Phase,
}

impl View for TransactionTrackerImpl {
    type V = TrackerModel;

    closed spec fn view(&self) -> TrackerModel {
        TrackerModel {
            settings: self.settings,
            nonce: self.nonce,
            transactions: self.transactions@,
            has_dropped: self.has_dropped,
            attempt_count: self.attempt_count,
            phase: self.phase,
        }
    }
}

impl TransactionTrackerImpl {
    /// A tracker for an account whose transaction count is `nonce`.
    pub fn new(settings: Settings, nonce: U256) -> (tracker: Self)
        ensures
            tracker@ == (TrackerModel {
                settings,
                nonce,
                transactions: Seq::empty(),
                has_dropped: false,
                attempt_count: 0,
                phase: Phase::Idle,
            }),
            tracker@.wf(),
    {
        TransactionTrackerImpl {
            settings,
            nonce,
            transactions: Vec::new(),
            has_dropped: false,
            attempt_count: 0,
            phase: Phase::Idle,
        }
    }

    /// Whether an operation is in flight.
    pub fn is_busy(&self) -> (busy: bool)
        ensures
            busy == !(self@.phase is Idle),
    {
        match self.phase {
            Phase::Idle => false,
            _ => true,
        }
    }

    /// The attempts made for the current nonce, oldest first.
    pub fn pending_transactions(&self) -> (txs: &Vec<PendingTransaction>)
        ensures
            txs@ == self@.transactions,
    {
        &self.transactions
    }

    fn required_fees(&self) -> (fees: Option<GasFees>)
        ensures
            fees is Some == self@.fee_floor_applies(),
            fees is Some ==> fees->0.is_increase_of(
                self@.transactions.last().gas_fees,
                self@.settings.replacement_fee_percent_increase,
            ),
    {
        if self.has_dropped || self.transactions.len() == 0 {
            None
        } else {
            let last = self.transactions[self.transactions.len() - 1];
            Some(last.gas_fees.increase_by_percent(self.settings.replacement_fee_percent_increase))
        }
    }

    /// The nonce the next transaction must carry, and the least fees it must
    /// offer: those of the newest attempt raised by the configured
    /// percentage, unless that attempt was dropped or there is none. Fails
    /// with `BusyTracker` while an operation is in flight.
    pub fn get_nonce_and_required_fees(&self) -> (r: Result<(U256, Option<GasFees>), TrackerError>)
        ensures
            !(self@.phase is Idle) ==> r == Err::<(U256, Option<GasFees>), _>(
                TrackerError::BusyTracker,
            ),
            self@.phase is Idle ==> r is Ok && r->Ok_0.0 == self@.nonce && (r->Ok_0.1 is Some
                == self@.fee_floor_applies()) && (r->Ok_0.1 is Some ==> r->Ok_0.1->0.is_increase_of(
                self@.transactions.last().gas_fees,
                self@.settings.replacement_fee_percent_increase,
            )),
    {
        if self.is_busy() {
            return Err(TrackerError::BusyTracker);
        }
        Ok((self.nonce, self.required_fees()))
    }

    /// Whether a transaction with this nonce and these fees may be sent: the
    /// nonce is the tracker's, and the fees are at least the required ones.
    pub fn validate_transaction(&self, nonce: Option<U256>, gas_fees: GasFees) -> (r: Result<
        (),
        TrackerError,
    >)
        ensures
            self@.accepts(nonce, gas_fees) ==> r == Ok::<(), TrackerError>(()),
            !self@.accepts(nonce, gas_fees) ==> r == Err::<(), _>(TrackerError::InvalidSubmission),
    {
        let nonce = match nonce {
            Some(n) => n,
            None => {
                return Err(TrackerError::InvalidSubmission);
            },
        };
        if nonce != self.nonce {
            return Err(TrackerError::InvalidSubmission);
        }
        match self.required_fees() {
            Some(floor) => {
                if gas_fees.covers(&floor) {
                    Ok(())
                } else {
                    Err(TrackerError::InvalidSubmission)
                }
            },
            None => Ok(()),
        }
    }

    /// Begins a single poll for an update. Fails with `BusyTracker`, and
    /// changes nothing, while another operation is in flight.
    pub fn check_for_update_now(&mut self) -> (action: TrackerAction)
        ensures
            !(old(self)@.phase is Idle) ==> final(self)@ == old(self)@ && action
                == TrackerAction::Finished(Err(TrackerError::BusyTracker)),
            old(self)@.phase is Idle ==> (final(self)@, action) == old(self)@.begin_check(
                Purpose::CheckNow,
            ),
    {
        if self.is_busy() {
            return TrackerAction::Finished(Err(TrackerError::BusyTracker));
        }
        self.begin_check(Purpose::CheckNow)
    }

    /// Begins sending a transaction with this nonce and these fees. While
    /// another operation is in flight it fails with `BusyTracker`; where the
    /// nonce is not the tracker's or the fees are below the required ones it
    /// fails with `InvalidSubmission`. In both cases nothing changes and the
    /// sender is not called. Otherwise the transaction goes to the sender.
    pub fn send_transaction_and_wait(&mut self, nonce: Option<U256>, gas_fees: GasFees) -> (action:
        TrackerAction)
        ensures
            !(old(self)@.phase is Idle) ==> final(self)@ == old(self)@ && action
                == TrackerAction::Finished(Err(TrackerError::BusyTracker)),
            old(self)@.phase is Idle && !old(self)@.accepts(nonce, gas_fees) ==> final(self)@
                == old(self)@ && action == TrackerAction::Finished(
                Err(TrackerError::InvalidSubmission),
            ),
            old(self)@.phase is Idle && old(self)@.accepts(nonce, gas_fees) ==> final(self)@ == (
            TrackerModel { phase: Phase::Sending { gas_fees }, ..old(self)@ }) && action
                == TrackerAction::SendTransaction,
    {
        if self.is_busy() {
            return TrackerAction::Finished(Err(TrackerError::BusyTracker));
        }
        match self.validate_transaction(nonce, gas_fees) {
            Ok(_) => {
                self.phase = Phase::Sending { gas_fees };
                TrackerAction::SendTransaction
            },
            Err(e) => TrackerAction::Finished(Err(e)),
        }
    }

    /// Takes the answer to the pending request and says what to do next.
    pub fn on_event(&mut self, event: TrackerEvent) -> (action: TrackerAction)
        ensures
            (final(self)@, action) == old(self)@.step(event),
            old(self)@.wf() ==> final(self)@.wf(),
    {
        proof {
            if self@.wf() {
                law_step_keeps_order(self@, event);
            }
        }
        match (self.phase, event) {
            (Phase::Sending { gas_fees }, TrackerEvent::Sent { tx_hash }) => self.on_sent(
                gas_fees,
                tx_hash,
            ),
            (Phase::Sending { .. }, TrackerEvent::SendFailed) => self.begin_check(
                Purpose::SendRecovery,
            ),
            (Phase::AwaitingNonce { purpose }, TrackerEvent::Nonce(n)) => self.on_nonce(purpose, n),
            (Phase::AwaitingNonce { .. }, TrackerEvent::ProviderFailed) => self.fail(),
            (
                Phase::Scanning { purpose, external_nonce, remaining },
                TrackerEvent::Status(status),
            ) => self.on_scanned(purpose, external_nonce, remaining, status),
            (Phase::Scanning { .. }, TrackerEvent::ProviderFailed) => self.fail(),
            (
                Phase::AwaitingLatestStatus { purpose },
                TrackerEvent::Status(status),
            ) => self.on_latest_status(purpose, status),
            (Phase::AwaitingLatestStatus { .. }, TrackerEvent::ProviderFailed) => self.fail(),
            (Phase::AwaitingStartBlock, TrackerEvent::BlockNumber(number)) => {
                let end_block: u128 = number as u128
                    + self.settings.max_blocks_to_wait_for_mine as u128;
                self.begin_check(Purpose::Wait { end_block })
            },
            (Phase::AwaitingStartBlock, TrackerEvent::ProviderFailed) => self.fail(),
            (
                Phase::AwaitingCurrentBlock { end_block },
                TrackerEvent::BlockNumber(number),
            ) => self.on_current_block(end_block, number),
            (Phase::AwaitingCurrentBlock { .. }, TrackerEvent::ProviderFailed) => self.fail(),
            (Phase::Sleeping { end_block }, TrackerEvent::Slept) => self.begin_check(
                Purpose::Wait { end_block },
            ),
            _ => self.pending_action(),
        }
    }

    fn pending_action(&self) -> (action: TrackerAction)
        ensures
            action == self@.pending_action(),
    {
        match self.phase {
            Phase::Idle => TrackerAction::Idle,
            Phase::Sending { .. } => TrackerAction::SendTransaction,
            Phase::AwaitingNonce { .. } => TrackerAction::GetTransactionCount,
            Phase::Scanning { remaining, .. } => {
                if 0 < remaining && remaining <= self.transactions.len() {
                    TrackerAction::GetTransactionStatus {
                        tx_hash: self.transactions[remaining - 1].tx_hash,
                    }
                } else {
                    TrackerAction::Idle
                }
            },
            Phase::AwaitingLatestStatus { .. } => {
                if self.transactions.len() > 0 {
                    TrackerAction::GetTransactionStatus {
                        tx_hash: self.transactions[self.transactions.len() - 1].tx_hash,
                    }
                } else {
                    TrackerAction::Idle
                }
            },
            Phase::AwaitingStartBlock => TrackerAction::GetBlockNumber,
            Phase::AwaitingCurrentBlock { .. } => TrackerAction::GetBlockNumber,
            Phase::Sleeping { .. } => TrackerAction::Sleep {
                millis: self.settings.poll_interval_millis,
            },
        }
    }

    fn fail(&mut self) -> (action: TrackerAction)
        ensures
            final(self)@ == (TrackerModel { phase: Phase::Idle, ..old(self)@ }),
            action == TrackerAction::Finished(Err(TrackerError::ProviderUnavailable)),
    {
        self.phase = Phase::Idle;
        TrackerAction::Finished(Err(TrackerError::ProviderUnavailable))
    }

    fn begin_check(&mut self, purpose: Purpose) -> (action: TrackerAction)
        ensures
            (final(self)@, action) == old(self)@.begin_check(purpose),
    {
        self.phase = Phase::AwaitingNonce { purpose };
        TrackerAction::GetTransactionCount
    }

    fn conclude(&mut self, purpose: Purpose, found: Option<TrackerUpdate>) -> (action:
        TrackerAction)
        ensures
            (final(self)@, action) == old(self)@.conclude(purpose, found),
    {
        match purpose {
            Purpose::CheckNow => {
                self.phase = Phase::Idle;
                TrackerAction::Finished(Ok(found))
            },
            Purpose::SendRecovery => {
                self.phase = Phase::Idle;
                match found {
                    Some(TrackerUpdate::Mined { .. }) | Some(
                        TrackerUpdate::NonceUsedForOtherTx,
                    ) => TrackerAction::Finished(Ok(found)),
                    _ => TrackerAction::Finished(Err(TrackerError::SendFailed)),
                }
            },
            Purpose::Wait { end_block } => match found {
                Some(_) => {
                    self.phase = Phase::Idle;
                    TrackerAction::Finished(Ok(found))
                },
                None => {
                    self.phase = Phase::AwaitingCurrentBlock { end_block };
                    TrackerAction::GetBlockNumber
                },
            },
        }
    }

    fn set_nonce_and_clear_state(&mut self, nonce: U256)
        ensures
            final(self)@ == old(self)@.reset_to(nonce),
    {
        self.nonce = nonce;
        self.transactions.clear();
        self.has_dropped = false;
        self.attempt_count = 0;
        self.phase = Phase::Idle;
    }

    fn on_nonce(&mut self, purpose: Purpose, external_nonce: U256) -> (action: TrackerAction)
        ensures
            (final(self)@, action) == old(self)@.on_nonce(purpose, external_nonce),
    {
        let count = self.transactions.len();
        if self.nonce.lt(&external_nonce) {
            if count == 0 {
                self.set_nonce_and_clear_state(external_nonce);
                self.conclude(purpose, Some(TrackerUpdate::NonceUsedForOtherTx))
            } else {
                self.phase = Phase::Scanning { purpose, external_nonce, remaining: count };
                TrackerAction::GetTransactionStatus { tx_hash: self.transactions[count - 1].tx_hash }
            }
        } else if self.has_dropped || count == 0 {
            self.conclude(purpose, None)
        } else {
            self.phase = Phase::AwaitingLatestStatus { purpose };
            TrackerAction::GetTransactionStatus { tx_hash: self.transactions[count - 1].tx_hash }
        }
    }

    fn on_scanned(
        &mut self,
        purpose: Purpose,
        external_nonce: U256,
        remaining: usize,
        status: TxStatus,
    ) -> (action: TrackerAction)
        ensures
            (final(self)@, action) == old(self)@.on_scanned(
                purpose,
                external_nonce,
                remaining,
                status,
            ),
    {
        if remaining == 0 || remaining > self.transactions.len() {
            self.set_nonce_and_clear_state(external_nonce);
            return self.conclude(purpose, Some(TrackerUpdate::NonceUsedForOtherTx));
        }
        let tx = self.transactions[remaining - 1];
        match status {
            TxStatus::Mined { block_number } => {
                self.set_nonce_and_clear_state(external_nonce);
                self.conclude(
                    purpose,
                    Some(
                        TrackerUpdate::Mined {
                            tx_hash: tx.tx_hash,
                            gas_fees: tx.gas_fees,
                            block_number,
                            attempt_number: tx.attempt_number,
                        },
                    ),
                )
            },
            _ => {
                if remaining == 1 {
                    self.set_nonce_and_clear_state(external_nonce);
                    self.conclude(purpose, Some(TrackerUpdate::NonceUsedForOtherTx))
                } else {
                    self.phase = Phase::Scanning {
                        purpose,
                        external_nonce,
                        remaining: remaining - 1,
                    };
                    TrackerAction::GetTransactionStatus {
                        tx_hash: self.transactions[remaining - 2].tx_hash,
                    }
                }
            },
        }
    }

    fn on_latest_status(&mut self, purpose: Purpose, status: TxStatus) -> (action: TrackerAction)
        ensures
            (final(self)@, action) == old(self)@.on_latest_status(purpose, status),
    {
        let count = self.transactions.len();
        if count == 0 {
            return self.conclude(purpose, None);
        }
        let tx = self.transactions[count - 1];
        match status {
            TxStatus::Pending => self.conclude(purpose, None),
            TxStatus::Mined { block_number } => {
                let next = self.nonce.saturating_increment();
                self.set_nonce_and_clear_state(next);
                self.conclude(
                    purpose,
                    Some(
                        TrackerUpdate::Mined {
                            tx_hash: tx.tx_hash,
                            gas_fees: tx.gas_fees,
                            block_number,
                            attempt_number: tx.attempt_number,
                        },
                    ),
                )
            },
            TxStatus::Dropped => {
                self.has_dropped = true;
                self.conclude(purpose, Some(TrackerUpdate::LatestTxDropped))
            },
        }
    }

    fn on_sent(&mut self, gas_fees: GasFees, tx_hash: H256) -> (action: TrackerAction)
        ensures
            (final(self)@, action) == old(self)@.on_sent(gas_fees, tx_hash),
    {
        self.transactions.push(
            PendingTransaction { tx_hash, gas_fees, attempt_number: self.attempt_count },
        );
        self.has_dropped = false;
        if self.attempt_count < u64::MAX {
            self.attempt_count = self.attempt_count + 1;
        }
        self.phase = Phase::AwaitingStartBlock;
        TrackerAction::GetBlockNumber
    }

    fn on_current_block(&mut self, end_block: u128, number: u64) -> (action: TrackerAction)
        ensures
            (final(self)@, action) == old(self)@.on_current_block(end_block, number),
    {
        if end_block <= number as u128 {
            self.phase = Phase::Idle;
            TrackerAction::Finished(Ok(Some(TrackerUpdate::StillPendingAfterWait)))
        } else {
            self.phase = Phase::Sleeping { end_block };
            TrackerAction::Sleep { millis: self.settings.poll_interval_millis }
        }
    }
}

} // verus!
