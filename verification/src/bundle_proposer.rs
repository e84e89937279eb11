//! Puts a bundle together from the operations of the pool.
//!
//! The operations that bid enough are simulated again; those that pass are
//! grouped by aggregator, as far as their paymasters' deposits reach; the
//! groups are signed by their aggregators; and the entry point is asked for
//! a gas estimate until it gives one, each failure taking an operation or an
//! entity out of the proposal.

use crate::primitives::{Address, H256};
use crate::proposal::{
    after_aggregation, after_reject_entity, after_reject_index, aggregators_of, flat_ops,
    group_index, groups_for_entry_point, groups_wf, ops_per_aggregator_views, requests_match, with_op,
    AggregationResult, ContextView, GroupView, ProposalContext, SignatureRequest,
    UserOpsPerAggregator,
};
use crate::proposal_laws::{
    law_assembled, law_taking_out_keeps, lemma_aggregation_takes, lemma_estimate_takes,
    no_cross_access, within_deposits,
};
use crate::simulation::{OpWithSimulation, SimulationResult, SimulationSuccess};
use crate::uint::{percent_increase, U256};
use crate::user_operation::{Entity, EntityType, UserOperation};
use vstd::prelude::*;
use vstd::string::StringSliceAdditionalSpecFns;

verus! {

/// An operation must stay valid this many seconds from now to go into a bundle.
pub const TIME_RANGE_BUFFER_SECS: u64 = 60;

/// A storage slot that the bundle expects to find with a certain value.
#[derive(Clone, Copy, Debug, PartialEq, Eq)]
pub struct ExpectedStorageSlot {
    pub address: Address,
    pub slot: U256,
    pub value: U256,
}

/// A bundle ready to be sent, with what was rejected while it was made.
#[derive(Debug, Default, PartialEq, Eq)]
pub struct Bundle {
    pub ops_per_aggregator: Vec<UserOpsPerAggregator>,
    pub gas_estimate: U256,
    pub max_priority_fee_per_gas: U256,
    pub expected_storage_slots: Vec<ExpectedStorageSlot>,
    pub rejected_ops: Vec<UserOperation>,
    pub rejected_entities: Vec<Entity>,
}

/// The number of operations in the groups.
pub open spec fn total_ops(groups: Seq<UserOpsPerAggregator>) -> nat
    decreases groups.len(),
{
    if groups.len() == 0 {
        0
    } else {
        total_ops(groups.drop_last()) + groups.last().user_ops@.len()
    }
}

impl Bundle {
    /// The number of operations in the bundle, held at the largest `usize`
    /// where it would pass it.
    pub fn len(&self) -> (n: usize)
        ensures
            n == if total_ops(self.ops_per_aggregator@) <= usize::MAX {
                total_ops(self.ops_per_aggregator@)
            } else {
                usize::MAX as nat
            },
    {
        let mut n: usize = 0;
        let mut i: usize = 0;
        let ghost groups = self.ops_per_aggregator@;
        assert(groups.take(0) =~= Seq::<UserOpsPerAggregator>::empty());
        while i < self.ops_per_aggregator.len()
            invariant
                i <= groups.len(),
                groups == self.ops_per_aggregator@,
                n == if total_ops(groups.take(i as int)) <= usize::MAX {
                    total_ops(groups.take(i as int))
                } else {
                    usize::MAX as nat
                },
            decreases groups.len() - i,
        {
            proof {
                assert(groups.take(i + 1).drop_last() =~= groups.take(i as int));
                assert(groups.take(i + 1).last() == groups[i as int]);
            }
            let len = self.ops_per_aggregator[i].user_ops.len();
            n = if len <= usize::MAX - n {
                n + len
            } else {
                usize::MAX
            };
            i += 1;
        }
        assert(groups.take(i as int) =~= groups);
        n
    }

    /// Whether the bundle has no group of operations.
    pub fn is_empty(&self) -> (r: bool)
        ensures
            r == (self.ops_per_aggregator@.len() == 0),
    {
        self.ops_per_aggregator.len() == 0
    }
}

/// How bundles are made.
#[derive(Clone, Copy, Debug, PartialEq, Eq)]
pub struct Settings {
    /// The most operations to fetch from the pool.
    pub max_bundle_size: u64,
    /// Who receives the gas refund.
    pub beneficiary: Address,
    /// Whether the provider is asked for the priority fee that operations
    /// must bid. Where it is not, no priority fee is required.
    pub use_dynamic_max_priority_fee: bool,
    /// By how many percent an operation's priority fee must pass the
    /// provider's quote.
    pub max_priority_fee_overhead_percent: u64,
}

/// How the entry point answered the request for a gas estimate.
#[derive(Clone, Debug, PartialEq, Eq)]
pub enum HandleOpsOut {
    SuccessWithGas(U256),
    /// The operation at this place in the bundle failed, for this reason.
    FailedOp(usize, String),
    /// The signature of this aggregator did not hold.
    SignatureValidationFailed(Address),
}

/// An operation as the pool hands it out.
#[derive(Clone, Debug, PartialEq, Eq)]
pub struct OpFromPool {
    pub op: UserOperation,
    /// The hash of the code the operation touched when it entered the pool.
    pub expected_code_hash: H256,
}

/// Why no bundle could be made.
#[derive(Clone, Copy, Debug, PartialEq, Eq)]
pub enum ProposerError {
    /// The pool could not be reached.
    PoolUnavailable,
    /// The provider or the entry point could not be reached.
    ProviderUnavailable,
    /// An answer does not fit what was asked: the entry point blamed an
    /// operation that is not in the bundle or that names no such entity, or
    /// an answer came that was not waited for.
    Inconsistent,
}

/// The least priority fee an operation must bid: the provider's quote raised
/// by the overhead, rounded down.
pub open spec fn required_priority_fee(quoted: U256, overhead_percent: u64) -> nat {
    percent_increase(quoted.value(), overhead_percent as nat)
}

/// Whether the operation bids at least the required priority fee.
pub fn meets_priority_fee(op: &UserOperation, quoted: &U256, overhead_percent: u64) -> (r: bool)
    ensures
        r == (op.max_priority_fee_per_gas.value() >= required_priority_fee(
            *quoted,
            overhead_percent,
        )),
{
    proof {
        op.max_priority_fee_per_gas.lemma_value(op.max_priority_fee_per_gas);
    }
    match quoted.increase_by_percent(overhead_percent) {
        Some(required) => !op.max_priority_fee_per_gas.lt(&required),
        None => false,
    }
}

/// The operations that bid at least the required priority fee, in order.
pub open spec fn ops_meeting_fee(ops: Seq<OpFromPool>, quoted: U256, overhead_percent: u64) -> Seq<
    OpFromPool,
>
    decreases ops.len(),
{
    if ops.len() == 0 {
        Seq::empty()
    } else if ops.last().op.max_priority_fee_per_gas.value() >= required_priority_fee(
        quoted,
        overhead_percent,
    ) {
        ops_meeting_fee(ops.drop_last(), quoted, overhead_percent).push(ops.last())
    } else {
        ops_meeting_fee(ops.drop_last(), quoted, overhead_percent)
    }
}

/// The items in reverse order.
fn reversed<T>(items: Vec<T>) -> (stack: Vec<T>)
    ensures
        stack@ == items@.reverse(),
{
    let mut items = items;
    let mut stack: Vec<T> = Vec::new();
    let ghost all = items@;
    while items.len() > 0
        invariant
            items@.len() <= all.len(),
            items@ == all.take(items@.len() as int),
            stack@ == all.skip(items@.len() as int).reverse(),
        decreases items@.len(),
    {
        let ghost n = items@.len();
        match items.pop() {
            Some(item) => {
                stack.push(item);
                assert(stack@ =~= all.skip(n - 1).reverse());
                assert(items@ =~= all.take(n - 1));
            },
            None => {},
        }
    }
    assert(all.skip(0) =~= all);
    stack
}

/// Keeps the operations that bid at least the required priority fee. The
/// others are left out of the bundle and stay in the pool.
pub fn filter_by_fee(ops: Vec<OpFromPool>, quoted: &U256, overhead_percent: u64) -> (kept: Vec<
    OpFromPool,
>)
    ensures
        kept@ == ops_meeting_fee(ops@, *quoted, overhead_percent),
{
    let ghost all = ops@;
    let mut stack = reversed(ops);
    let mut kept: Vec<OpFromPool> = Vec::new();
    let ghost i: int = 0;
    assert(all.take(0) =~= Seq::<OpFromPool>::empty());
    while stack.len() > 0
        invariant
            0 <= i <= all.len(),
            stack@ == all.skip(i).reverse(),
            kept@ == ops_meeting_fee(all.take(i), *quoted, overhead_percent),
        decreases stack@.len(),
    {
        match stack.pop() {
            Some(op) => {
                proof {
                    assert(op == all[i]);
                    assert(all.take(i + 1).drop_last() =~= all.take(i));
                    assert(all.take(i + 1).last() == all[i]);
                    assert(stack@ =~= all.skip(i + 1).reverse());
                    i = i + 1;
                }
                if meets_priority_fee(&op.op, quoted, overhead_percent) {
                    kept.push(op);
                }
            },
            None => {},
        }
    }
    assert(all.take(i) =~= all);
    kept
}

/// An operation after its simulation: with what the simulation said where
/// it may go into a bundle, without where the pool is to reject it.
pub struct ScreenedOp {
    pub op: UserOperation,
    pub simulation: Option<SimulationSuccess>,
}

/// What becomes of an operation after its simulation. A simulation that
/// could not be run leaves the operation out, and in the pool. An operation
/// that breaks a rule, whose signature failed, or that is not valid from
/// `now` until the buffer has passed, is to be rejected. Any other may go
/// into a bundle.
pub open spec fn screened(op: UserOperation, result: SimulationResult, now: u64) -> Option<
    ScreenedOp,
> {
    match result {
        SimulationResult::Failed => None,
        SimulationResult::Violations => Some(ScreenedOp { op, simulation: None }),
        SimulationResult::Success(success) => if !success.signature_failed
            && success.valid_time_range.spec_contains(now, TIME_RANGE_BUFFER_SECS) {
            Some(ScreenedOp { op, simulation: Some(success) })
        } else {
            Some(ScreenedOp { op, simulation: None })
        },
    }
}

/// Decides what becomes of an operation, given what the simulator said of it
/// and the time in seconds since the epoch.
pub fn simulate_validation(op: UserOperation, result: SimulationResult, now: u64) -> (r: Option<
    ScreenedOp,
>)
    ensures
        r == screened(op, result, now),
{
    match result {
        SimulationResult::Failed => None,
        SimulationResult::Violations => Some(ScreenedOp { op, simulation: None }),
        SimulationResult::Success(success) => {
            if !success.signature_failed && success.valid_time_range.contains(
                now,
                TIME_RANGE_BUFFER_SECS,
            ) {
                Some(ScreenedOp { op, simulation: Some(success) })
            } else {
                Some(ScreenedOp { op, simulation: None })
            }
        },
    }
}

/// The operations after their simulations, in order, without those whose
/// simulation could not be run.
pub open spec fn screened_all(ops: Seq<OpFromPool>, results: Seq<SimulationResult>, now: u64) -> Seq<
    ScreenedOp,
>
    decreases ops.len(),
{
    if ops.len() == 0 {
        Seq::empty()
    } else {
        match screened(ops.last().op, results[ops.len() - 1], now) {
            Some(item) => screened_all(ops.drop_last(), results, now).push(item),
            None => screened_all(ops.drop_last(), results, now),
        }
    }
}

/// Pairs each operation with what the simulator said of it.
pub fn screen_all(ops: Vec<OpFromPool>, results: Vec<SimulationResult>, now: u64) -> (items: Vec<
    ScreenedOp,
>)
    requires
        ops@.len() == results@.len(),
    ensures
        items@ == screened_all(ops@, results@, now),
{
    let ghost all_ops = ops@;
    let ghost all_results = results@;
    let mut op_stack = reversed(ops);
    let mut result_stack = reversed(results);
    let mut items: Vec<ScreenedOp> = Vec::new();
    let ghost i: int = 0;
    assert(all_ops.take(0) =~= Seq::<OpFromPool>::empty());
    while op_stack.len() > 0 && result_stack.len() > 0
        invariant
            0 <= i <= all_ops.len(),
            all_ops.len() == all_results.len(),
            op_stack@ == all_ops.skip(i).reverse(),
            result_stack@ == all_results.skip(i).reverse(),
            items@ == screened_all(all_ops.take(i), all_results, now),
        decreases op_stack@.len(),
    {
        let op = op_stack.pop();
        let result = result_stack.pop();
        match (op, result) {
            (Some(op), Some(result)) => {
                proof {
                    assert(op == all_ops[i]);
                    assert(result == all_results[i]);
                    assert(all_ops.take(i + 1).drop_last() =~= all_ops.take(i));
                    assert(all_ops.take(i + 1).last() == all_ops[i]);
                    assert(op_stack@ =~= all_ops.skip(i + 1).reverse());
                    assert(result_stack@ =~= all_results.skip(i + 1).reverse());
                    i = i + 1;
                }
                if let Some(item) = simulate_validation(op.op, result, now) {
                    items.push(item);
                }
            },
            _ => {},
        }
    }
    assert(all_ops.take(i) =~= all_ops);
    items
}

/// What has been put together from the operations looked at so far.
pub struct Assembly {
    pub groups: Seq<GroupView>,
    pub rejected_ops: Seq<UserOperation>,
    /// What is left of each deposit, in the order the deposits were asked for.
    pub balances: Seq<nat>,
    /// The paymasters whose deposits did not reach, once for each operation
    /// that found it so.
    pub flagged: Seq<Address>,
}

/// True when one of the operations has this sender.
pub open spec fn is_sender(items: Seq<ScreenedOp>, address: Address) -> bool {
    exists|i: int| 0 <= i < items.len() && (#[trigger] items[i]).op.sender == address
}

/// True when the validation of the operation touched the sender of another
/// operation among `items`.
pub open spec fn accesses_other_sender(
    items: Seq<ScreenedOp>,
    op: UserOperation,
    simulation: SimulationSuccess,
) -> bool {
    exists|j: int|
        0 <= j < simulation.accessed_addresses@.len() && (
        #[trigger] simulation.accessed_addresses@[j]) != op.sender && is_sender(
            items,
            simulation.accessed_addresses@[j],
        )
}

/// The last place at which the paymaster stands in the list, or -1.
pub open spec fn last_index_of(paymasters: Seq<Address>, paymaster: Address) -> int
    decreases paymasters.len(),
{
    if paymasters.len() == 0 {
        -1
    } else if paymasters.last() == paymaster {
        paymasters.len() - 1
    } else {
        last_index_of(paymasters.drop_last(), paymaster)
    }
}

/// What becomes of the assembly when the next operation is looked at. An
/// operation that is to be rejected joins the rejected ones. One that
/// touched another operation's sender is left out. One with a paymaster
/// draws its highest cost from the paymaster's deposit; where the deposit
/// does not reach, the paymaster is flagged and the operation left out, and
/// where no deposit is known the operation is left out. Any other joins the
/// group of its aggregator.
pub open spec fn assemble_step(
    state: Assembly,
    all: Seq<ScreenedOp>,
    paymasters: Seq<Address>,
    item: ScreenedOp,
) -> Assembly {
    match item.simulation {
        None => Assembly { rejected_ops: state.rejected_ops.push(item.op), ..state },
        Some(simulation) => if accesses_other_sender(all, item.op, simulation) {
            state
        } else {
            let joined = with_op(
                state.groups,
                simulation.spec_aggregator_address(),
                OpWithSimulation { op: item.op, simulation },
            );
            match item.op@.paymaster() {
                None => Assembly { groups: joined, ..state },
                Some(paymaster) => {
                    let at = last_index_of(paymasters, paymaster);
                    if at < 0 || at >= state.balances.len() {
                        state
                    } else if state.balances[at] < item.op@.max_gas_cost() {
                        Assembly { flagged: state.flagged.push(paymaster), ..state }
                    } else {
                        Assembly {
                            groups: joined,
                            balances: state.balances.update(
                                at,
                                (state.balances[at] - item.op@.max_gas_cost()) as nat,
                            ),
                            ..state
                        }
                    }
                },
            }
        },
    }
}

/// The assembly after the first `n` operations were looked at.
pub open spec fn assembly_after(
    all: Seq<ScreenedOp>,
    paymasters: Seq<Address>,
    deposits: Seq<U256>,
    n: int,
) -> Assembly
    decreases n,
{
    if n <= 0 {
        Assembly {
            groups: Seq::empty(),
            rejected_ops: Seq::empty(),
            balances: deposits.map_values(|d: U256| d.value()),
            flagged: Seq::empty(),
        }
    } else {
        assemble_step(assembly_after(all, paymasters, deposits, n - 1), all, paymasters, all[n - 1])
    }
}

/// The proposal after the first `n` of the paymasters were rejected.
pub open spec fn after_rejecting_paymasters(context: ContextView, flagged: Seq<Address>, n: int) -> ContextView
    decreases n,
{
    if n <= 0 {
        context
    } else {
        after_reject_entity(
            after_rejecting_paymasters(context, flagged, n - 1),
            Entity { kind: EntityType::Paymaster, address: flagged[n - 1] },
        ).0
    }
}

/// The proposal put together from the operations: all of them looked at in
/// order, and the flagged paymasters rejected with their operations.
pub open spec fn assembled(all: Seq<ScreenedOp>, paymasters: Seq<Address>, deposits: Seq<U256>) -> ContextView {
    let assembly = assembly_after(all, paymasters, deposits, all.len() as int);
    after_rejecting_paymasters(
        ContextView {
            groups: assembly.groups,
            rejected_ops: assembly.rejected_ops,
            rejected_entities: Seq::empty(),
        },
        assembly.flagged,
        assembly.flagged.len() as int,
    )
}

fn contains_address(addresses: &Vec<Address>, address: &Address) -> (r: bool)
    ensures
        r == exists|i: int| 0 <= i < addresses@.len() && #[trigger] addresses@[i] == *address,
{
    let mut i: usize = 0;
    while i < addresses.len()
        invariant
            i <= addresses@.len(),
            forall|k: int| 0 <= k < i ==> #[trigger] addresses@[k] != *address,
        decreases addresses@.len() - i,
    {
        if addresses[i] == *address {
            return true;
        }
        i += 1;
    }
    false
}

fn find_last(paymasters: &Vec<Address>, paymaster: &Address) -> (at: Option<usize>)
    ensures
        match at {
            Some(i) => i == last_index_of(paymasters@, *paymaster),
            None => last_index_of(paymasters@, *paymaster) == -1,
        },
        last_index_of(paymasters@, *paymaster) < paymasters@.len(),
{
    let mut i: usize = paymasters.len();
    assert(paymasters@.take(i as int) =~= paymasters@);
    while i > 0
        invariant
            i <= paymasters@.len(),
            last_index_of(paymasters@, *paymaster) == last_index_of(
                paymasters@.take(i as int),
                *paymaster,
            ),
        decreases i,
    {
        i -= 1;
        proof {
            assert(paymasters@.take(i + 1).drop_last() =~= paymasters@.take(i as int));
            assert(paymasters@.take(i + 1).last() == paymasters@[i as int]);
        }
        if paymasters[i] == *paymaster {
            return Some(i);
        }
    }
    None
}

fn touches_other_sender(senders: &Vec<Address>, op: &UserOperation, simulation: &SimulationSuccess) -> (r:
    bool)
    ensures
        r == exists|j: int|
            0 <= j < simulation.accessed_addresses@.len() && (
            #[trigger] simulation.accessed_addresses@[j]) != op.sender && exists|i: int|
                0 <= i < senders@.len() && #[trigger] senders@[i]
                    == simulation.accessed_addresses@[j],
{
    let mut j: usize = 0;
    while j < simulation.accessed_addresses.len()
        invariant
            j <= simulation.accessed_addresses@.len(),
            forall|k: int|
                0 <= k < j ==> !((#[trigger] simulation.accessed_addresses@[k]) != op.sender
                    && exists|i: int|
                    0 <= i < senders@.len() && #[trigger] senders@[i]
                        == simulation.accessed_addresses@[k]),
        decreases simulation.accessed_addresses@.len() - j,
    {
        let address = simulation.accessed_addresses[j];
        if address != op.sender && contains_address(senders, &address) {
            return true;
        }
        j += 1;
    }
    false
}

/// Puts a proposal together from the operations that were simulated, in
/// order. `deposits` holds the deposit of each of `paymasters`.
pub fn assemble_context(items: Vec<ScreenedOp>, paymasters: &Vec<Address>, deposits: Vec<U256>) -> (context:
    ProposalContext)
    ensures
        context@ == assembled(items@, paymasters@, deposits@),
        groups_wf(context@.groups),
{
    let ghost all = items@;
    let ghost start = deposits@;
    let mut senders: Vec<Address> = Vec::new();
    let mut k: usize = 0;
    while k < items.len()
        invariant
            k <= items@.len(),
            senders@.len() == k,
            forall|i: int| 0 <= i < k ==> #[trigger] senders@[i] == items@[i].op.sender,
        decreases items@.len() - k,
    {
        senders.push(items[k].op.sender);
        k += 1;
    }
    let mut balances = deposits;
    let mut context = ProposalContext::new();
    let mut flagged: Vec<Address> = Vec::new();
    let mut stack = reversed(items);
    let ghost n: int = 0;
    proof {
        assert(context@.groups =~= Seq::<GroupView>::empty());
        assert(context@.rejected_ops =~= Seq::<UserOperation>::empty());
        assert(context@.rejected_entities =~= Seq::<Entity>::empty());
        assert(balances@.map_values(|d: U256| d.value()) =~= assembly_after(
            all,
            paymasters@,
            start,
            0,
        ).balances);
    }
    while stack.len() > 0
        invariant
            0 <= n <= all.len(),
            stack@ == all.skip(n).reverse(),
            senders@.len() == all.len(),
            forall|i: int| 0 <= i < all.len() ==> #[trigger] senders@[i] == all[i].op.sender,
            groups_wf(context@.groups),
            context@.groups == assembly_after(all, paymasters@, start, n).groups,
            context@.rejected_ops == assembly_after(all, paymasters@, start, n).rejected_ops,
            context@.rejected_entities.len() == 0,
            flagged@ == assembly_after(all, paymasters@, start, n).flagged,
            balances@.len() == assembly_after(all, paymasters@, start, n).balances.len(),
            forall|i: int|
                0 <= i < balances@.len() ==> (#[trigger] balances@[i]).value() == assembly_after(
                    all,
                    paymasters@,
                    start,
                    n,
                ).balances[i],
        decreases stack@.len(),
    {
        let ghost state = assembly_after(all, paymasters@, start, n);
        let item = match stack.pop() {
            Some(item) => item,
            None => vstd::pervasive::unreached(),
        };
        proof {
            assert(item == all[n]);
            assert(stack@ =~= all.skip(n + 1).reverse());
            assert(assembly_after(all, paymasters@, start, n + 1) == assemble_step(
                state,
                all,
                paymasters@,
                item,
            ));
            n = n + 1;
        }
        let ScreenedOp { op, simulation } = item;
        let simulation = match simulation {
            Some(simulation) => simulation,
            None => {
                context.push_rejected_op(op);
                continue ;
            },
        };
        let touches = touches_other_sender(&senders, &op, &simulation);
        proof {
            assert(touches == accesses_other_sender(all, op, simulation)) by {
                if touches {
                    let j = choose|j: int|
                        0 <= j < simulation.accessed_addresses@.len() && (
                        #[trigger] simulation.accessed_addresses@[j]) != op.sender && exists|i: int|
                            0 <= i < senders@.len() && #[trigger] senders@[i]
                                == simulation.accessed_addresses@[j];
                    let i = choose|i: int|
                        0 <= i < senders@.len() && #[trigger] senders@[i]
                            == simulation.accessed_addresses@[j];
                    assert(all[i].op.sender == simulation.accessed_addresses@[j]);
                }
                if accesses_other_sender(all, op, simulation) {
                    let j = choose|j: int|
                        0 <= j < simulation.accessed_addresses@.len() && (
                        #[trigger] simulation.accessed_addresses@[j]) != op.sender && is_sender(
                            all,
                            simulation.accessed_addresses@[j],
                        );
                    let i = choose|i: int|
                        0 <= i < all.len() && (#[trigger] all[i]).op.sender
                            == simulation.accessed_addresses@[j];
                    assert(senders@[i] == simulation.accessed_addresses@[j]);
                }
            }
        }
        if touches {
            continue ;
        }
        if let Some(paymaster) = op.paymaster() {
            let at = match find_last(paymasters, &paymaster) {
                Some(at) => at,
                None => {
                    continue ;
                },
            };
            if at >= balances.len() {
                continue ;
            }
            let left = match op.max_gas_cost() {
                Some(max_cost) => balances[at].checked_sub(&max_cost),
                None => {
                    proof {
                        balances@[at as int].lemma_value(balances@[at as int]);
                    }
                    None
                },
            };
            match left {
                Some(left) => {
                    let ghost before = balances@;
                    balances.set(at, left);
                    proof {
                        assert forall|i: int| 0 <= i < balances@.len() implies (
                        #[trigger] balances@[i]).value() == assemble_step(
                            state,
                            all,
                            paymasters@,
                            item,
                        ).balances[i] by {
                            if i != at {
                                assert(balances@[i] == before[i]);
                            }
                        }
                    }
                },
                None => {
                    flagged.push(paymaster);
                    continue ;
                },
            }
        }
        let aggregator = simulation.aggregator_address();
        context.push_op(aggregator, OpWithSimulation { op, simulation });
    }
    let ghost assembly = assembly_after(all, paymasters@, start, all.len() as int);
    let ghost unrejected = context@;
    let mut r: usize = 0;
    proof {
        assert(unrejected == (ContextView {
            groups: assembly.groups,
            rejected_ops: assembly.rejected_ops,
            rejected_entities: Seq::empty(),
        })) by {
            assert(unrejected.rejected_entities =~= Seq::<Entity>::empty());
        }
    }
    while r < flagged.len()
        invariant
            r <= flagged@.len(),
            groups_wf(context@.groups),
            context@ == after_rejecting_paymasters(unrejected, flagged@, r as int),
        decreases flagged@.len() - r,
    {
        let _ = context.reject_entity(Entity::paymaster(flagged[r]));
        r += 1;
    }
    context
}

/// What the entry point blames for a failed operation.
#[derive(Clone, Copy, Debug, PartialEq, Eq)]
pub enum FailureCause {
    Factory,
    Paymaster,
    Operation,
}

/// What the entry point blames, by the code that its message begins with:
/// `AA13`, `AA14` and `AA15` blame the factory, `AA30`, `AA31`, `AA33` and
/// `AA34` the paymaster, and anything else the operation itself.
pub open spec fn failure_cause(message: Seq<u8>) -> FailureCause {
    if message.len() >= 4 && message[0] == 0x41 && message[1] == 0x41 && message[2] == 0x31 && (
    message[3] == 0x33 || message[3] == 0x34 || message[3] == 0x35) {
        FailureCause::Factory
    } else if message.len() >= 4 && message[0] == 0x41 && message[1] == 0x41 && message[2] == 0x33
        && (message[3] == 0x30 || message[3] == 0x31 || message[3] == 0x33 || message[3] == 0x34) {
        FailureCause::Paymaster
    } else {
        FailureCause::Operation
    }
}

/// Reads the cause of a failure from the entry point's message.
pub fn classify_failure(message: &str) -> (cause: FailureCause)
    ensures
        cause == failure_cause(message.spec_bytes()),
{
    let bytes = message.as_bytes();
    if bytes.len() < 4 || bytes[0] != 0x41 || bytes[1] != 0x41 {
        return FailureCause::Operation;
    }
    if bytes[2] == 0x31 && (bytes[3] == 0x33 || bytes[3] == 0x34 || bytes[3] == 0x35) {
        FailureCause::Factory
    } else if bytes[2] == 0x33 && (bytes[3] == 0x30 || bytes[3] == 0x31 || bytes[3] == 0x33
        || bytes[3] == 0x34) {
        FailureCause::Paymaster
    } else {
        FailureCause::Operation
    }
}

/// The aggregator whose signature no longer holds, as a list.
pub open spec fn changed_list(changed: Option<Address>) -> Seq<Address> {
    match changed {
        Some(aggregator) => seq![aggregator],
        None => Seq::empty(),
    }
}

/// The proposal after the entry point blamed the operation at `index`, and
/// the aggregators whose signatures no longer hold. A blamed factory or
/// paymaster is rejected with the operations that use it; otherwise the
/// operation is. Where a factory or paymaster is blamed and the operation
/// is not in the bundle or names none, the answer is not consistent.
pub open spec fn after_failed_op(context: ContextView, index: usize, message: Seq<u8>) -> Result<
    (ContextView, Seq<Address>),
    ProposerError,
> {
    let ops = flat_ops(context.groups);
    match failure_cause(message) {
        FailureCause::Factory => if index >= ops.len() {
            Err(ProposerError::Inconsistent)
        } else {
            match ops[index as int].op@.factory() {
                Some(factory) => Ok(
                    after_reject_entity(
                        context,
                        Entity { kind: EntityType::Factory, address: factory },
                    ),
                ),
                None => Err(ProposerError::Inconsistent),
            }
        },
        FailureCause::Paymaster => if index >= ops.len() {
            Err(ProposerError::Inconsistent)
        } else {
            match ops[index as int].op@.paymaster() {
                Some(paymaster) => Ok(
                    after_reject_entity(
                        context,
                        Entity { kind: EntityType::Paymaster, address: paymaster },
                    ),
                ),
                None => Err(ProposerError::Inconsistent),
            }
        },
        FailureCause::Operation => Ok(
            (
                after_reject_index(context, index as int).0,
                changed_list(after_reject_index(context, index as int).1),
            ),
        ),
    }
}

/// Takes out of the proposal what the entry point blamed for the failure of
/// the operation at `index`. Returns the aggregators whose signatures no
/// longer hold. Where it fails the proposal is as it was.
pub fn process_failed_op(context: &mut ProposalContext, index: usize, message: &str) -> (r: Result<
    Vec<Address>,
    ProposerError,
>)
    requires
        groups_wf(old(context)@.groups),
    ensures
        groups_wf(final(context)@.groups),
        match after_failed_op(old(context)@, index, message.spec_bytes()) {
            Ok((after, changed)) => r is Ok && r->Ok_0@ == changed && final(context)@ == after,
            Err(e) => r == Err::<Vec<Address>, _>(e) && final(context)@ == old(context)@,
        },
{
    match classify_failure(message) {
        FailureCause::Factory => {
            let factory = match context.get_op_at(index) {
                Some(op) => op.factory(),
                None => None,
            };
            match factory {
                Some(factory) => Ok(context.reject_entity(Entity::factory(factory))),
                None => Err(ProposerError::Inconsistent),
            }
        },
        FailureCause::Paymaster => {
            let paymaster = match context.get_op_at(index) {
                Some(op) => op.paymaster(),
                None => None,
            };
            match paymaster {
                Some(paymaster) => Ok(context.reject_entity(Entity::paymaster(paymaster))),
                None => Err(ProposerError::Inconsistent),
            }
        },
        FailureCause::Operation => {
            let mut changed: Vec<Address> = Vec::new();
            if let Some(aggregator) = context.reject_index(index) {
                changed.push(aggregator);
                assert(changed@ =~= seq![aggregator]);
            }
            Ok(changed)
        },
    }
}

/// The proposal after the entry point answered the request for a gas
/// estimate, the estimate if it gave one, and the aggregators whose
/// signatures no longer hold.
pub open spec fn after_estimate(context: ContextView, out: HandleOpsOut) -> Result<
    (ContextView, Option<U256>, Seq<Address>),
    ProposerError,
> {
    match out {
        HandleOpsOut::SuccessWithGas(gas) => Ok((context, Some(gas), Seq::empty())),
        HandleOpsOut::FailedOp(index, message) => match after_failed_op(
            context,
            index,
            vstd::utf8::encode_utf8(message@),
        ) {
            Ok((after, changed)) => Ok((after, None, changed)),
            Err(e) => Err(e),
        },
        HandleOpsOut::SignatureValidationFailed(aggregator) => Ok(
            (
                after_reject_entity(
                    context,
                    Entity { kind: EntityType::Aggregator, address: aggregator },
                ).0,
                None,
                Seq::empty(),
            ),
        ),
    }
}

/// Takes the entry point's answer to the request for a gas estimate. With an
/// estimate the proposal stands. Without one, what the entry point blamed is
/// taken out of the proposal, and the aggregators whose signatures no longer
/// hold are returned.
pub fn estimate_gas_rejecting_failed_ops(context: &mut ProposalContext, out: HandleOpsOut) -> (r:
    Result<(Option<U256>, Vec<Address>), ProposerError>)
    requires
        groups_wf(old(context)@.groups),
    ensures
        groups_wf(final(context)@.groups),
        match after_estimate(old(context)@, out) {
            Ok((after, gas, changed)) => r is Ok && r->Ok_0.0 == gas && r->Ok_0.1@ == changed
                && final(context)@ == after,
            Err(e) => r == Err::<(Option<U256>, Vec<Address>), _>(e) && final(context)@ == old(
                context,
            )@,
        },
{
    match out {
        HandleOpsOut::SuccessWithGas(gas) => Ok((Some(gas), Vec::new())),
        HandleOpsOut::FailedOp(index, message) => {
            match process_failed_op(context, index, message.as_str()) {
                Ok(changed) => Ok((None, changed)),
                Err(e) => Err(e),
            }
        },
        HandleOpsOut::SignatureValidationFailed(aggregator) => {
            let _ = context.reject_entity(Entity::aggregator(aggregator));
            Ok((None, Vec::new()))
        },
    }
}

/// What a round of the proposer still waits for.
#[derive(Clone, Copy, Debug, PartialEq, Eq)]
pub enum ProposerPhase {
    Idle,
    /// The operations of the pool, the priority fee and the latest block.
    Fetching,
    /// The simulations of the candidates and the deposits of their paymasters.
    Simulating,
    /// The signatures of the aggregators asked.
    Aggregating,
    /// The gas estimate for the proposal.
    Estimating,
}

/// What was fetched to begin a bundle.
#[derive(Clone, Debug, PartialEq, Eq)]
pub struct PoolFetch {
    /// The operations of the pool, best first.
    pub ops: Vec<OpFromPool>,
    /// The provider's quote for the priority fee, where it was asked for.
    pub max_priority_fee: Option<U256>,
    /// The hash of the latest block.
    pub block_hash: H256,
}

/// What the caller is to do next.
#[derive(Debug, PartialEq, Eq)]
pub enum ProposerAction {
    /// Fetch up to `max_ops` operations from the pool and the hash of the
    /// latest block, and the provider's priority fee if asked for.
    Fetch { max_ops: u64, with_priority_fee: bool },
    /// Simulate each operation at the block, with its expected code hash,
    /// and fetch the deposit of each paymaster at the block.
    Simulate { ops: Vec<OpFromPool>, block_hash: H256, paymasters: Vec<Address> },
    /// Ask each aggregator for its signature over the operations.
    AggregateSignatures { requests: Vec<SignatureRequest> },
    /// Ask the entry point what gas the bundle needs.
    EstimateGas { ops_per_aggregator: Vec<UserOpsPerAggregator>, beneficiary: Address },
    /// The round is over, with this result.
    Finished(Result<Bundle, ProposerError>),
}

/// The proposer as a mathematical value.
pub struct ProposerModel {
    pub settings: Settings,
    pub phase: ProposerPhase,
    pub max_priority_fee_per_gas: U256,
    /// The operations that bid enough, waiting for their simulations.
    pub candidates: Seq<OpFromPool>,
    /// The paymasters whose deposits were asked for.
    pub paymasters: Seq<Address>,
    /// The deposit that was fetched for each of them.
    pub deposits: Seq<U256>,
    /// The aggregators whose signatures were asked for.
    pub requested: Seq<Address>,
    pub context: ContextView,
}

/// The paymasters that the operations name, in order, one for each
/// operation that names one.
pub open spec fn paymasters_of(ops: Seq<OpFromPool>) -> Seq<Address>
    decreases ops.len(),
{
    if ops.len() == 0 {
        Seq::empty()
    } else {
        match ops.last().op@.paymaster() {
            Some(paymaster) => paymasters_of(ops.drop_last()).push(paymaster),
            None => paymasters_of(ops.drop_last()),
        }
    }
}

/// The priority fee that operations are held to: the provider's quote where
/// the settings ask for one and there is one, and zero otherwise.
pub open spec fn quoted_fee(settings: Settings, quote: Option<U256>) -> nat {
    if settings.use_dynamic_max_priority_fee && quote is Some {
        quote->0.value()
    } else {
        0
    }
}

/// The proposal after the aggregators answered, each result applied in the
/// order the aggregators were asked.
pub open spec fn after_aggregations(
    context: ContextView,
    requested: Seq<Address>,
    results: Seq<AggregationResult>,
    n: int,
) -> ContextView
    decreases n,
{
    if n <= 0 {
        context
    } else {
        after_aggregation(
            after_aggregations(context, requested, results, n - 1),
            requested[n - 1],
            results[n - 1],
        )
    }
}

/// True when `bundle` holds the proposal as it goes to the entry point, with
/// this gas estimate and this priority fee, and what was rejected.
pub open spec fn is_bundle_of(bundle: Bundle, context: ContextView, gas: U256, fee: U256) -> bool {
    &&& ops_per_aggregator_views(bundle.ops_per_aggregator@) == groups_for_entry_point(
        context.groups,
    )
    &&& bundle.gas_estimate == gas
    &&& bundle.max_priority_fee_per_gas == fee
    &&& bundle.expected_storage_slots@.len() == 0
    &&& bundle.rejected_ops@ == context.rejected_ops
    &&& bundle.rejected_entities@ == context.rejected_entities
}

/// The proposer at rest, with nothing kept from a round.
pub open spec fn at_rest(settings: Settings) -> ProposerModel {
    ProposerModel {
        settings,
        phase: ProposerPhase::Idle,
        max_priority_fee_per_gas: U256 { limbs: [0u64, 0u64, 0u64, 0u64] },
        candidates: Seq::empty(),
        paymasters: Seq::empty(),
        deposits: Seq::empty(),
        requested: Seq::empty(),
        context: ContextView {
            groups: Seq::empty(),
            rejected_ops: Seq::empty(),
            rejected_entities: Seq::empty(),
        },
    }
}

/// True when the proposer, with the proposal standing as `context`, goes on
/// as it must: with no group left it hands out a bundle that holds only the
/// rejections and comes to rest; otherwise it asks for a gas estimate of
/// the proposal.
pub open spec fn estimates_or_finishes(
    before: ProposerModel,
    context: ContextView,
    after: ProposerModel,
    action: ProposerAction,
) -> bool {
    if context.groups.len() == 0 {
        &&& after == at_rest(before.settings)
        &&& action matches ProposerAction::Finished(Ok(bundle))
        &&& is_bundle_of(
            bundle,
            context,
            U256 { limbs: [0u64, 0u64, 0u64, 0u64] },
            U256 { limbs: [0u64, 0u64, 0u64, 0u64] },
        )
    } else {
        &&& after == (ProposerModel {
            phase: ProposerPhase::Estimating,
            requested: Seq::empty(),
            context,
            ..before
        })
        &&& action matches ProposerAction::EstimateGas { ops_per_aggregator, beneficiary }
        &&& beneficiary == before.settings.beneficiary
        &&& ops_per_aggregator_views(ops_per_aggregator@) == groups_for_entry_point(context.groups)
    }
}

/// True when the proposer, with the proposal standing as `context` and the
/// signatures of `changed` no longer holding, goes on as it must: it asks
/// for the signature of each of them that still has a group, and where none
/// has it goes on to the gas estimate.
pub open spec fn signs_or_estimates(
    before: ProposerModel,
    context: ContextView,
    changed: Seq<Address>,
    after: ProposerModel,
    action: ProposerAction,
) -> bool {
    let asked = changed.filter(
        |a: Address| group_index(context.groups, Some(a)) < context.groups.len(),
    );
    if asked.len() == 0 {
        estimates_or_finishes(before, context, after, action)
    } else {
        &&& after == (ProposerModel {
            phase: ProposerPhase::Aggregating,
            requested: asked,
            context,
            ..before
        })
        &&& action matches ProposerAction::AggregateSignatures { requests }
        &&& requests_match(context.groups, changed, requests@)
    }
}

/// Makes bundles, one round at a time. It never talks to the pool, the
/// simulator, the provider or the entry point itself: each call hands back
/// what the caller is to do, and the caller reports the answer with the
/// call that is named after it.
pub struct BundleProposerImpl {
    settings: Settings,
    phase: ProposerPhase,
    max_priority_fee_per_gas: U256,
    candidates: Vec<OpFromPool>,
    paymasters: Vec<Address>,
    deposits: Ghost<Seq<U256>>,
    requested: Vec<Address>,
    context: ProposalContext,
}

impl View for BundleProposerImpl {
    type V = ProposerModel;

    closed spec fn view(&self) -> ProposerModel {
        ProposerModel {
            settings: self.settings,
            phase: self.phase,
            max_priority_fee_per_gas: self.max_priority_fee_per_gas,
            candidates: self.candidates@,
            paymasters: self.paymasters@,
            deposits: self.deposits@,
            requested: self.requested@,
            context: self.context@,
        }
    }
}

impl BundleProposerImpl {
    /// The proposal holds no two groups of one aggregator and no empty
    /// group; none of its operations touched the sender of another; none of
    /// its paymasters is charged beyond its deposit; and it is empty until
    /// the simulations are in.
    pub open spec fn wf(&self) -> bool {
        &&& groups_wf(self@.context.groups)
        &&& no_cross_access(flat_ops(self@.context.groups))
        &&& within_deposits(flat_ops(self@.context.groups), self@.paymasters, self@.deposits)
        &&& self@.phase is Idle || self@.phase is Fetching || self@.phase is Simulating
            ==> self@.context.groups.len() == 0 && self@.deposits.len() == 0
    }

    pub fn new(settings: Settings) -> (proposer: BundleProposerImpl)
        ensures
            proposer@ == at_rest(settings),
            proposer.wf(),
    {
        let proposer = BundleProposerImpl {
            settings,
            phase: ProposerPhase::Idle,
            max_priority_fee_per_gas: U256::zero(),
            candidates: Vec::new(),
            paymasters: Vec::new(),
            deposits: Ghost(Seq::empty()),
            requested: Vec::new(),
            context: ProposalContext::new(),
        };
        proof {
            lemma_rest(proposer@, settings);
            lemma_empty_proposal(proposer@.context.groups, proposer@.paymasters, proposer@.deposits);
        }
        proposer
    }

    /// Drops what is kept of the round.
    fn rest(&mut self)
        ensures
            final(self)@ == at_rest(old(self)@.settings),
            final(self).wf(),
    {
        self.phase = ProposerPhase::Idle;
        self.max_priority_fee_per_gas = U256::zero();
        self.candidates = Vec::new();
        self.paymasters = Vec::new();
        self.deposits = Ghost(Seq::empty());
        self.requested = Vec::new();
        self.context = ProposalContext::new();
        proof {
            lemma_rest(self@, self.settings);
            lemma_empty_proposal(self@.context.groups, self@.paymasters, self@.deposits);
        }
    }

    fn fail(&mut self, error: ProposerError) -> (action: ProposerAction)
        ensures
            final(self)@ == at_rest(old(self)@.settings),
            final(self).wf(),
            action == ProposerAction::Finished(Err(error)),
    {
        self.rest();
        ProposerAction::Finished(Err(error))
    }

    /// Begins a round: what was kept of an earlier round is dropped, and the
    /// pool is asked for its operations.
    pub fn make_bundle(&mut self) -> (action: ProposerAction)
        ensures
            final(self)@ == (ProposerModel {
                phase: ProposerPhase::Fetching,
                ..at_rest(old(self)@.settings)
            }),
            final(self).wf(),
            action == (ProposerAction::Fetch {
                max_ops: old(self)@.settings.max_bundle_size,
                with_priority_fee: old(self)@.settings.use_dynamic_max_priority_fee,
            }),
    {
        self.rest();
        self.phase = ProposerPhase::Fetching;
        proof {
            lemma_empty_proposal(self@.context.groups, self@.paymasters, self@.deposits);
        }
        ProposerAction::Fetch {
            max_ops: self.settings.max_bundle_size,
            with_priority_fee: self.settings.use_dynamic_max_priority_fee,
        }
    }

    /// Takes what was fetched. The operations that bid at least the required
    /// priority fee become the candidates; their simulations are asked for,
    /// and the deposits of the paymasters that the fetched operations name.
    /// Where the fetch failed, or none was waited for, the round ends.
    pub fn on_fetched(&mut self, fetched: Result<PoolFetch, ProposerError>) -> (action:
        ProposerAction)
        requires
            old(self).wf(),
        ensures
            final(self).wf(),
            !(old(self)@.phase is Fetching) ==> final(self)@ == at_rest(old(self)@.settings)
                && action == ProposerAction::Finished(Err(ProposerError::Inconsistent)),
            old(self)@.phase is Fetching ==> match fetched {
                Err(e) => final(self)@ == at_rest(old(self)@.settings) && action
                    == ProposerAction::Finished(Err(e)),
                Ok(fetch) => {
                    &&& final(self)@.phase is Simulating
                    &&& final(self)@.settings == old(self)@.settings
                    &&& final(self)@.context == old(self)@.context
                    &&& final(self)@.deposits == old(self)@.deposits
                    &&& final(self)@.requested == old(self)@.requested
                    &&& final(self)@.max_priority_fee_per_gas.value() == quoted_fee(
                        old(self)@.settings,
                        fetch.max_priority_fee,
                    )
                    &&& final(self)@.candidates == ops_meeting_fee(
                        fetch.ops@,
                        final(self)@.max_priority_fee_per_gas,
                        old(self)@.settings.max_priority_fee_overhead_percent,
                    )
                    &&& final(self)@.paymasters == paymasters_of(fetch.ops@)
                    &&& action matches ProposerAction::Simulate { ops, block_hash, paymasters }
                    &&& block_hash == fetch.block_hash
                    &&& paymasters@ == final(self)@.paymasters
                    &&& ops@.len() == final(self)@.candidates.len()
                    &&& forall|i: int|
                        0 <= i < ops@.len() ==> (#[trigger] ops@[i]).op@
                            == final(self)@.candidates[i].op@ && ops@[i].expected_code_hash
                            == final(self)@.candidates[i].expected_code_hash
                },
            },
    {
        match self.phase {
            ProposerPhase::Fetching => {},
            _ => {
                return self.fail(ProposerError::Inconsistent);
            },
        }
        let fetch = match fetched {
            Ok(fetch) => fetch,
            Err(e) => {
                return self.fail(e);
            },
        };
        let PoolFetch { ops, max_priority_fee, block_hash } = fetch;
        let quoted = if self.settings.use_dynamic_max_priority_fee {
            match max_priority_fee {
                Some(fee) => fee,
                None => U256::zero(),
            }
        } else {
            U256::zero()
        };
        let mut paymasters: Vec<Address> = Vec::new();
        let mut i: usize = 0;
        assert(ops@.take(0) =~= Seq::<OpFromPool>::empty());
        while i < ops.len()
            invariant
                i <= ops@.len(),
                paymasters@ == paymasters_of(ops@.take(i as int)),
            decreases ops@.len() - i,
        {
            proof {
                assert(ops@.take(i + 1).drop_last() =~= ops@.take(i as int));
                assert(ops@.take(i + 1).last() == ops@[i as int]);
            }
            if let Some(paymaster) = ops[i].op.paymaster() {
                paymasters.push(paymaster);
            }
            i += 1;
        }
        assert(ops@.take(i as int) =~= ops@);
        let candidates = filter_by_fee(
            ops,
            &quoted,
            self.settings.max_priority_fee_overhead_percent,
        );
        let mut to_simulate: Vec<OpFromPool> = Vec::new();
        let mut j: usize = 0;
        while j < candidates.len()
            invariant
                j <= candidates@.len(),
                to_simulate@.len() == j,
                forall|k: int|
                    0 <= k < j ==> (#[trigger] to_simulate@[k]).op@ == candidates@[k].op@
                        && to_simulate@[k].expected_code_hash == candidates@[k].expected_code_hash,
            decreases candidates@.len() - j,
        {
            to_simulate.push(
                OpFromPool {
                    op: candidates[j].op.duplicate(),
                    expected_code_hash: candidates[j].expected_code_hash,
                },
            );
            j += 1;
        }
        let asked = copy_addresses(&paymasters);
        self.max_priority_fee_per_gas = quoted;
        self.candidates = candidates;
        self.paymasters = paymasters;
        self.phase = ProposerPhase::Simulating;
        proof {
            lemma_empty_proposal(self@.context.groups, self@.paymasters, self@.deposits);
        }
        ProposerAction::Simulate { ops: to_simulate, block_hash, paymasters: asked }
    }

    /// Takes the simulations of the candidates, one for each in order, and
    /// the deposits of the paymasters asked about, with the time in seconds
    /// since the epoch. The proposal is put together from them. Where the
    /// deposits could not be fetched the round fails; where the answers are
    /// not as many as was asked for, or none was waited for, it fails too.
    pub fn on_simulated(
        &mut self,
        now: u64,
        results: Vec<SimulationResult>,
        deposits: Option<Vec<U256>>,
    ) -> (action: ProposerAction)
        requires
            old(self).wf(),
        ensures
            final(self).wf(),
            !(old(self)@.phase is Simulating) || (deposits is Some && (results@.len() != old(
                self,
            )@.candidates.len() || deposits->0@.len() != old(self)@.paymasters.len()))
                ==> final(self)@ == at_rest(old(self)@.settings) && action
                == ProposerAction::Finished(Err(ProposerError::Inconsistent)),
            old(self)@.phase is Simulating && deposits is None ==> final(self)@ == at_rest(
                old(self)@.settings,
            ) && action == ProposerAction::Finished(Err(ProposerError::ProviderUnavailable)),
            old(self)@.phase is Simulating && deposits is Some && results@.len() == old(
                self,
            )@.candidates.len() && deposits->0@.len() == old(self)@.paymasters.len()
                ==> signs_or_estimates(
                ProposerModel { candidates: Seq::empty(), deposits: deposits->0@, ..old(self)@ },
                assembled(
                    screened_all(old(self)@.candidates, results@, now),
                    old(self)@.paymasters,
                    deposits->0@,
                ),
                aggregators_of(
                    assembled(
                        screened_all(old(self)@.candidates, results@, now),
                        old(self)@.paymasters,
                        deposits->0@,
                    ).groups,
                ),
                final(self)@,
                action,
            ),
    {
        match self.phase {
            ProposerPhase::Simulating => {},
            _ => {
                return self.fail(ProposerError::Inconsistent);
            },
        }
        let deposits = match deposits {
            Some(deposits) => deposits,
            None => {
                return self.fail(ProposerError::ProviderUnavailable);
            },
        };
        if results.len() != self.candidates.len() || deposits.len() != self.paymasters.len() {
            return self.fail(ProposerError::Inconsistent);
        }
        let mut candidates: Vec<OpFromPool> = Vec::new();
        std::mem::swap(&mut self.candidates, &mut candidates);
        let items = screen_all(candidates, results, now);
        proof {
            law_assembled(items@, self.paymasters@, deposits@);
        }
        self.deposits = Ghost(deposits@);
        self.context = assemble_context(items, &self.paymasters, deposits);
        self.phase = ProposerPhase::Estimating;
        let aggregators = self.context.aggregators();
        self.next_round(aggregators)
    }

    /// Takes the answers of the aggregators, one for each asked in order.
    /// Then the gas estimate is asked for, or the round ends where no group
    /// is left.
    pub fn on_aggregated(&mut self, results: Vec<AggregationResult>) -> (action: ProposerAction)
        requires
            old(self).wf(),
        ensures
            final(self).wf(),
            !(old(self)@.phase is Aggregating) || results@.len() != old(self)@.requested.len()
                ==> final(self)@ == at_rest(old(self)@.settings) && action
                == ProposerAction::Finished(Err(ProposerError::Inconsistent)),
            old(self)@.phase is Aggregating && results@.len() == old(self)@.requested.len()
                ==> estimates_or_finishes(
                old(self)@,
                after_aggregations(
                    old(self)@.context,
                    old(self)@.requested,
                    results@,
                    results@.len() as int,
                ),
                final(self)@,
                action,
            ),
    {
        match self.phase {
            ProposerPhase::Aggregating => {},
            _ => {
                return self.fail(ProposerError::Inconsistent);
            },
        }
        if results.len() != self.requested.len() {
            return self.fail(ProposerError::Inconsistent);
        }
        let ghost before = self@;
        let ghost all = results@;
        let mut stack = reversed(results);
        let mut i: usize = 0;
        while i < self.requested.len()
            invariant
                i <= all.len(),
                all.len() == before.requested.len(),
                stack@ == all.skip(i as int).reverse(),
                self.wf(),
                self@ == (ProposerModel {
                    context: after_aggregations(before.context, before.requested, all, i as int),
                    ..before
                }),
            decreases all.len() - i,
        {
            let result = match stack.pop() {
                Some(result) => result,
                None => vstd::pervasive::unreached(),
            };
            proof {
                assert(result == all[i as int]);
                assert(stack@ =~= all.skip(i + 1).reverse());
                lemma_aggregation_takes(self.context@, self.requested@[i as int], result);
                law_taking_out_keeps(
                    flat_ops(
                        after_aggregation(self.context@, self.requested@[i as int], result).groups,
                    ),
                    flat_ops(self.context@.groups),
                    self.paymasters@,
                    self.deposits@,
                );
            }
            self.context.apply_aggregation_signature_result(self.requested[i], result);
            i += 1;
        }
        self.estimate_or_finish()
    }

    /// Takes the entry point's answer to the request for a gas estimate, or
    /// nothing where it could not be reached. With an estimate the bundle is
    /// handed out. Without one, what the entry point blamed is taken out of
    /// the proposal and the round goes on.
    pub fn on_estimated(&mut self, out: Option<HandleOpsOut>) -> (action: ProposerAction)
        requires
            old(self).wf(),
        ensures
            final(self).wf(),
            !(old(self)@.phase is Estimating) ==> final(self)@ == at_rest(old(self)@.settings)
                && action == ProposerAction::Finished(Err(ProposerError::Inconsistent)),
            old(self)@.phase is Estimating ==> match out {
                None => final(self)@ == at_rest(old(self)@.settings) && action
                    == ProposerAction::Finished(Err(ProposerError::ProviderUnavailable)),
                Some(out) => match after_estimate(old(self)@.context, out) {
                    Err(e) => final(self)@ == at_rest(old(self)@.settings) && action
                        == ProposerAction::Finished(Err(e)),
                    Ok((context, Some(gas), _)) => {
                        &&& final(self)@ == at_rest(old(self)@.settings)
                        &&& action matches ProposerAction::Finished(Ok(bundle))
                        &&& is_bundle_of(
                            bundle,
                            context,
                            gas,
                            old(self)@.max_priority_fee_per_gas,
                        )
                        &&& no_cross_access(flat_ops(context.groups))
                        &&& within_deposits(
                            flat_ops(context.groups),
                            old(self)@.paymasters,
                            old(self)@.deposits,
                        )
                    },
                    Ok((context, None, changed)) => signs_or_estimates(
                        old(self)@,
                        context,
                        changed,
                        final(self)@,
                        action,
                    ),
                },
            },
    {
        match self.phase {
            ProposerPhase::Estimating => {},
            _ => {
                return self.fail(ProposerError::Inconsistent);
            },
        }
        let out = match out {
            Some(out) => out,
            None => {
                return self.fail(ProposerError::ProviderUnavailable);
            },
        };
        proof {
            if after_estimate(self.context@, out) is Ok {
                lemma_estimate_takes(self.context@, out);
                law_taking_out_keeps(
                    flat_ops(after_estimate(self.context@, out)->Ok_0.0.groups),
                    flat_ops(self.context@.groups),
                    self.paymasters@,
                    self.deposits@,
                );
            }
        }
        match estimate_gas_rejecting_failed_ops(&mut self.context, out) {
            Err(e) => self.fail(e),
            Ok((Some(gas_estimate), _)) => {
                let ops_per_aggregator = self.context.to_ops_per_aggregator();
                let (rejected_ops, rejected_entities) = self.context.take_rejections();
                let bundle = Bundle {
                    ops_per_aggregator,
                    gas_estimate,
                    max_priority_fee_per_gas: self.max_priority_fee_per_gas,
                    expected_storage_slots: Vec::new(),
                    rejected_ops,
                    rejected_entities,
                };
                self.rest();
                ProposerAction::Finished(Ok(bundle))
            },
            Ok((None, changed)) => self.next_round(changed),
        }
    }

    /// Goes on after the proposal changed: the signatures that no longer
    /// hold are asked for, or the gas estimate where there is none to ask for.
    fn next_round(&mut self, changed: Vec<Address>) -> (action: ProposerAction)
        requires
            old(self).wf(),
            old(self)@.phase is Estimating || old(self)@.phase is Aggregating,
        ensures
            final(self).wf(),
            signs_or_estimates(
                old(self)@,
                old(self)@.context,
                changed@,
                final(self)@,
                action,
            ),
    {
        let requests = self.context.signature_requests(&changed);
        if requests.len() == 0 {
            proof {
                assert(requests@.map_values(|r: SignatureRequest| r.aggregator).len() == 0);
            }
            return self.estimate_or_finish();
        }
        let mut requested: Vec<Address> = Vec::new();
        let mut i: usize = 0;
        while i < requests.len()
            invariant
                i <= requests@.len(),
                requested@ == requests@.map_values(|r: SignatureRequest| r.aggregator).take(
                    i as int,
                ),
            decreases requests@.len() - i,
        {
            requested.push(requests[i].aggregator);
            i += 1;
            assert(requested@ =~= requests@.map_values(|r: SignatureRequest| r.aggregator).take(
                i as int,
            ));
        }
        proof {
            assert(requests@.map_values(|r: SignatureRequest| r.aggregator).take(i as int)
                =~= requests@.map_values(|r: SignatureRequest| r.aggregator));
        }
        self.requested = requested;
        self.phase = ProposerPhase::Aggregating;
        ProposerAction::AggregateSignatures { requests }
    }

    /// Asks for the gas estimate of the proposal, or ends the round with the
    /// rejections alone where no group is left.
    fn estimate_or_finish(&mut self) -> (action: ProposerAction)
        requires
            old(self).wf(),
            old(self)@.phase is Estimating || old(self)@.phase is Aggregating,
        ensures
            final(self).wf(),
            estimates_or_finishes(old(self)@, old(self)@.context, final(self)@, action),
    {
        if self.context.is_empty() {
            let (rejected_ops, rejected_entities) = self.context.take_rejections();
            let bundle = Bundle {
                ops_per_aggregator: Vec::new(),
                gas_estimate: U256::zero(),
                max_priority_fee_per_gas: U256::zero(),
                expected_storage_slots: Vec::new(),
                rejected_ops,
                rejected_entities,
            };
            proof {
                assert(ops_per_aggregator_views(bundle.ops_per_aggregator@)
                    =~= groups_for_entry_point(old(self)@.context.groups));
                let zero = U256 { limbs: [0u64, 0u64, 0u64, 0u64] };
                zero.lemma_value(bundle.gas_estimate);
                zero.lemma_value(bundle.max_priority_fee_per_gas);
            }
            self.rest();
            ProposerAction::Finished(Ok(bundle))
        } else {
            let ops_per_aggregator = self.context.to_ops_per_aggregator();
            self.requested = Vec::new();
            self.phase = ProposerPhase::Estimating;
            assert(self@.requested =~= Seq::<Address>::empty());
            ProposerAction::EstimateGas { ops_per_aggregator, beneficiary: self.settings.beneficiary }
        }
    }
}

/// A proposal without groups has no operation that touches another's
/// sender and charges no paymaster.
proof fn lemma_empty_proposal(groups: Seq<GroupView>, paymasters: Seq<Address>, deposits: Seq<U256>)
    requires
        groups.len() == 0,
    ensures
        no_cross_access(flat_ops(groups)),
        within_deposits(flat_ops(groups), paymasters, deposits),
{
    assert(flat_ops(groups) =~= Seq::<OpWithSimulation>::empty());
}

/// A proposer whose parts are all empty is at rest.
proof fn lemma_rest(model: ProposerModel, settings: Settings)
    requires
        model.settings == settings,
        model.phase is Idle,
        model.max_priority_fee_per_gas.value() == 0,
        model.candidates.len() == 0,
        model.paymasters.len() == 0,
        model.deposits.len() == 0,
        model.requested.len() == 0,
        model.context.groups.len() == 0,
        model.context.rejected_ops.len() == 0,
        model.context.rejected_entities.len() == 0,
    ensures
        model == at_rest(settings),
{
    let zero = U256 { limbs: [0u64, 0u64, 0u64, 0u64] };
    zero.lemma_value(model.max_priority_fee_per_gas);
    assert(model.candidates =~= Seq::<OpFromPool>::empty());
    assert(model.paymasters =~= Seq::<Address>::empty());
    assert(model.deposits =~= Seq::<U256>::empty());
    assert(model.requested =~= Seq::<Address>::empty());
    assert(model.context.groups =~= Seq::<GroupView>::empty());
    assert(model.context.rejected_ops =~= Seq::<UserOperation>::empty());
    assert(model.context.rejected_entities =~= Seq::<Entity>::empty());
}

fn copy_addresses(addresses: &Vec<Address>) -> (copy: Vec<Address>)
    ensures
        copy@ == addresses@,
{
    let mut copy: Vec<Address> = Vec::new();
    let mut i: usize = 0;
    while i < addresses.len()
        invariant
            i <= addresses@.len(),
            copy@ == addresses@.take(i as int),
        decreases addresses@.len() - i,
    {
        copy.push(addresses[i]);
        i += 1;
        assert(copy@ =~= addresses@.take(i as int));
    }
    assert(addresses@.take(i as int) =~= addresses@);
    copy
}

} // verus!
