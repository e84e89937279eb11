//! What the simulator reports of a user operation, and the operation
//! together with that report.

use crate::primitives::Address;
use crate::user_operation::{copy_bytes, UserOperation, UserOperationView};
use vstd::prelude::*;

verus! {

/// The span of time, in seconds since the epoch, in which an operation is valid.
#[derive(Clone, Copy, Debug, PartialEq, Eq)]
pub struct ValidTimeRange {
    pub valid_after: u64,
    pub valid_until: u64,
}

impl ValidTimeRange {
    pub fn new(valid_after: u64, valid_until: u64) -> (r: ValidTimeRange)
        ensures
            r == (ValidTimeRange { valid_after, valid_until }),
    {
        ValidTimeRange { valid_after, valid_until }
    }

    /// True when the range holds `timestamp` and still holds it `buffer`
    /// seconds later.
    pub open spec fn spec_contains(self, timestamp: u64, buffer: u64) -> bool {
        self.valid_after <= timestamp && timestamp + buffer <= self.valid_until
    }

    /// Whether the range holds `timestamp` and still holds it `buffer`
    /// seconds later.
    pub fn contains(&self, timestamp: u64, buffer: u64) -> (r: bool)
        ensures
            r == self.spec_contains(timestamp, buffer),
    {
        self.valid_after <= timestamp && timestamp as u128 + buffer as u128
            <= self.valid_until as u128
    }
}

impl Default for ValidTimeRange {
    /// All of time.
    fn default() -> (r: ValidTimeRange)
        ensures
            r == (ValidTimeRange { valid_after: 0, valid_until: u64::MAX }),
    {
        ValidTimeRange { valid_after: 0, valid_until: u64::MAX }
    }
}

/// The aggregator an operation uses, and the signature the operation
/// carries inside that aggregator's bundle.
#[derive(Clone, Debug, PartialEq, Eq)]
pub struct AggregatorSimOut {
    pub address: Address,
    pub signature: Vec<u8>,
}

/// What a successful simulation says of an operation.
#[derive(Clone, Debug, Default, PartialEq, Eq)]
pub struct SimulationSuccess {
    pub signature_failed: bool,
    pub valid_time_range: ValidTimeRange,
    /// The addresses whose storage the validation touched.
    pub accessed_addresses: Vec<Address>,
    pub aggregator: Option<AggregatorSimOut>,
}

impl SimulationSuccess {
    /// The address of the aggregator the operation uses, if any.
    pub open spec fn spec_aggregator_address(self) -> Option<Address> {
        match self.aggregator {
            Some(aggregator) => Some(aggregator.address),
            None => None,
        }
    }

    /// The address of the aggregator the operation uses, if any.
    pub fn aggregator_address(&self) -> (r: Option<Address>)
        ensures
            r == self.spec_aggregator_address(),
    {
        match &self.aggregator {
            Some(aggregator) => Some(aggregator.address),
            None => None,
        }
    }

    /// True when the validation touched storage at `address`.
    pub open spec fn accesses(self, address: Address) -> bool {
        exists|i: int|
            0 <= i < self.accessed_addresses@.len() && #[trigger] self.accessed_addresses@[i]
                == address
    }
}

/// How the simulator answered for one operation.
#[derive(Clone, Debug, PartialEq, Eq)]
pub enum SimulationResult {
    Success(SimulationSuccess),
    /// The operation breaks a rule of validation.
    Violations,
    /// The simulation could not be run.
    Failed,
}

/// An operation that passed simulation, with what the simulation said of it.
#[derive(Clone, Debug, PartialEq, Eq)]
pub struct OpWithSimulation {
    pub op: UserOperation,
    pub simulation: SimulationSuccess,
}

impl OpWithSimulation {
    /// The operation as it goes into the bundle: under an aggregator it
    /// carries the signature that the simulation gave for it.
    pub open spec fn replaced_sig(self) -> UserOperationView {
        match self.simulation.aggregator {
            Some(aggregator) => UserOperationView { signature: aggregator.signature@, ..self.op@ },
            None => self.op@,
        }
    }

    /// The operation as it goes into the bundle: under an aggregator it
    /// carries the signature that the simulation gave for it.
    pub fn op_with_replaced_sig(&self) -> (op: UserOperation)
        ensures
            op@ == self.replaced_sig(),
    {
        let mut op = self.op.duplicate();
        if let Some(aggregator) = &self.simulation.aggregator {
            op.signature = copy_bytes(&aggregator.signature);
        }
        op
    }
}

} // verus!
