//! User operations and the entities that take part in them.

use crate::primitives::Address;
use crate::uint::{u256_limit, U256};
use vstd::prelude::*;

verus! {

/// A signed intent of an account, executed through an entry point.
#[derive(Clone, Debug, Default, PartialEq, Eq)]
pub struct UserOperation {
    pub sender: Address,
    pub nonce: U256,
    /// Empty, or the factory's address followed by its call data.
    pub init_code: Vec<u8>,
    pub call_data: Vec<u8>,
    pub call_gas_limit: U256,
    pub verification_gas_limit: U256,
    pub pre_verification_gas: U256,
    pub max_fee_per_gas: U256,
    pub max_priority_fee_per_gas: U256,
    /// Empty, or the paymaster's address followed by its data.
    pub paymaster_and_data: Vec<u8>,
    pub signature: Vec<u8>,
}

/// A user operation as a mathematical value.
pub struct UserOperationView {
    pub sender: Address,
    pub nonce: U256,
    pub init_code: Seq<u8>,
    pub call_data: Seq<u8>,
    pub call_gas_limit: U256,
    pub verification_gas_limit: U256,
    pub pre_verification_gas: U256,
    pub max_fee_per_gas: U256,
    pub max_priority_fee_per_gas: U256,
    pub paymaster_and_data: Seq<u8>,
    pub signature: Seq<u8>,
}

impl View for UserOperation {
    type V = UserOperationView;

    open spec fn view(&self) -> UserOperationView {
        UserOperationView {
            sender: self.sender,
            nonce: self.nonce,
            init_code: self.init_code@,
            call_data: self.call_data@,
            call_gas_limit: self.call_gas_limit,
            verification_gas_limit: self.verification_gas_limit,
            pre_verification_gas: self.pre_verification_gas,
            max_fee_per_gas: self.max_fee_per_gas,
            max_priority_fee_per_gas: self.max_priority_fee_per_gas,
            paymaster_and_data: self.paymaster_and_data@,
            signature: self.signature@,
        }
    }
}

/// The address that `data` begins with, if it is long enough to hold one.
pub open spec fn address_prefix(data: Seq<u8>) -> Option<Address> {
    if data.len() < 20 {
        None
    } else {
        Some(
            Address {
                bytes: [
                    data[0],
                    data[1],
                    data[2],
                    data[3],
                    data[4],
                    data[5],
                    data[6],
                    data[7],
                    data[8],
                    data[9],
                    data[10],
                    data[11],
                    data[12],
                    data[13],
                    data[14],
                    data[15],
                    data[16],
                    data[17],
                    data[18],
                    data[19],
                ],
            },
        )
    }
}

impl UserOperationView {
    /// The entity that deploys the sender, if the operation names one.
    pub open spec fn factory(self) -> Option<Address> {
        address_prefix(self.init_code)
    }

    /// The entity that pays for the operation, if it names one.
    pub open spec fn paymaster(self) -> Option<Address> {
        address_prefix(self.paymaster_and_data)
    }

    /// The most gas the operation may use: with a paymaster the verification
    /// gas counts three times.
    pub open spec fn max_gas(self) -> nat {
        let rounds: nat = if self.paymaster() is Some {
            3
        } else {
            1
        };
        self.pre_verification_gas.value() + self.call_gas_limit.value()
            + self.verification_gas_limit.value() * rounds
    }

    /// The most the operation may cost: its fee cap times the most gas it may use.
    pub open spec fn max_gas_cost(self) -> nat {
        self.max_fee_per_gas.value() * self.max_gas()
    }
}

/// A copy of the bytes.
pub fn copy_bytes(bytes: &Vec<u8>) -> (copy: Vec<u8>)
    ensures
        copy@ == bytes@,
{
    let mut copy: Vec<u8> = Vec::new();
    let mut i: usize = 0;
    while i < bytes.len()
        invariant
            i <= bytes@.len(),
            copy@ == bytes@.take(i as int),
        decreases bytes@.len() - i,
    {
        copy.push(bytes[i]);
        i += 1;
        assert(copy@ =~= bytes@.take(i as int));
    }
    assert(bytes@.take(i as int) =~= bytes@);
    copy
}

fn read_address_prefix(data: &Vec<u8>) -> (r: Option<Address>)
    ensures
        r == address_prefix(data@),
{
    if data.len() < 20 {
        return None;
    }
    let mut bytes = [0u8;20];
    let mut i: usize = 0;
    while i < 20
        invariant
            i <= 20,
            data@.len() >= 20,
            forall|j: int| 0 <= j < i ==> bytes@[j] == data@[j],
        decreases 20 - i,
    {
        bytes[i] = data[i];
        i += 1;
    }
    let address = Address { bytes };
    assert(address.bytes =~= address_prefix(data@)->0.bytes);
    Some(address)
}

impl UserOperation {
    /// The entity that deploys the sender, if the operation names one.
    pub fn factory(&self) -> (r: Option<Address>)
        ensures
            r == self@.factory(),
    {
        read_address_prefix(&self.init_code)
    }

    /// The entity that pays for the operation, if it names one.
    pub fn paymaster(&self) -> (r: Option<Address>)
        ensures
            r == self@.paymaster(),
    {
        read_address_prefix(&self.paymaster_and_data)
    }

    /// The most the operation may cost, unless that does not fit in 256 bits.
    pub fn max_gas_cost(&self) -> (r: Option<U256>)
        ensures
            r is Some <==> self@.max_gas_cost() < u256_limit(),
            r is Some ==> r->0.value() == self@.max_gas_cost(),
    {
        let rounds = U256::from_u64(if self.paymaster().is_some() {
            3
        } else {
            1
        });
        proof {
            self.max_fee_per_gas.lemma_value(self.max_fee_per_gas);
        }
        if self.max_fee_per_gas.is_zero() {
            assert(self@.max_gas_cost() == 0) by (nonlinear_arith)
                requires
                    self@.max_gas_cost() == self.max_fee_per_gas.value() * self@.max_gas(),
                    self.max_fee_per_gas.value() == 0,
            ;
            return Some(U256::zero());
        }
        let verification = match self.verification_gas_limit.checked_mul(&rounds) {
            Some(v) => v,
            None => {
                proof {
                    lemma_product_at_least(self.max_fee_per_gas.value(), self@.max_gas(), u256_limit());
                }
                return None;
            },
        };
        let fixed = match self.pre_verification_gas.checked_add(&self.call_gas_limit) {
            Some(v) => v,
            None => {
                proof {
                    lemma_product_at_least(self.max_fee_per_gas.value(), self@.max_gas(), u256_limit());
                }
                return None;
            },
        };
        let gas = match fixed.checked_add(&verification) {
            Some(v) => v,
            None => {
                proof {
                    lemma_product_at_least(self.max_fee_per_gas.value(), self@.max_gas(), u256_limit());
                }
                return None;
            },
        };
        self.max_fee_per_gas.checked_mul(&gas)
    }

    /// A copy of the operation.
    pub fn duplicate(&self) -> (copy: UserOperation)
        ensures
            copy@ == self@,
    {
        UserOperation {
            sender: self.sender,
            nonce: self.nonce,
            init_code: copy_bytes(&self.init_code),
            call_data: copy_bytes(&self.call_data),
            call_gas_limit: self.call_gas_limit,
            verification_gas_limit: self.verification_gas_limit,
            pre_verification_gas: self.pre_verification_gas,
            max_fee_per_gas: self.max_fee_per_gas,
            max_priority_fee_per_gas: self.max_priority_fee_per_gas,
            paymaster_and_data: copy_bytes(&self.paymaster_and_data),
            signature: copy_bytes(&self.signature),
        }
    }
}

/// A product with a positive factor is at least the other factor.
proof fn lemma_product_at_least(a: nat, b: nat, bound: nat)
    requires
        a >= 1,
        b >= bound,
    ensures
        a * b >= bound,
{
    assert(a * b >= b) by (nonlinear_arith)
        requires
            a >= 1,
    ;
}

/// What part an entity plays in a user operation.
#[derive(Clone, Copy, Debug, PartialEq, Eq, Hash)]
pub enum EntityType {
    Account,
    Paymaster,
    Aggregator,
    Factory,
}

/// A participant of a user operation that the pool keeps a reputation for.
#[derive(Clone, Copy, Debug, PartialEq, Eq, Hash)]
pub struct Entity {
    pub kind: EntityType,
    pub address: Address,
}

impl Entity {
    pub fn account(address: Address) -> (e: Entity)
        ensures
            e == (Entity { kind: EntityType::Account, address }),
    {
        Entity { kind: EntityType::Account, address }
    }

    pub fn paymaster(address: Address) -> (e: Entity)
        ensures
            e == (Entity { kind: EntityType::Paymaster, address }),
    {
        Entity { kind: EntityType::Paymaster, address }
    }

    pub fn aggregator(address: Address) -> (e: Entity)
        ensures
            e == (Entity { kind: EntityType::Aggregator, address }),
    {
        Entity { kind: EntityType::Aggregator, address }
    }

    pub fn factory(address: Address) -> (e: Entity)
        ensures
            e == (Entity { kind: EntityType::Factory, address }),
    {
        Entity { kind: EntityType::Factory, address }
    }
}

} // verus!
