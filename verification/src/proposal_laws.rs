//! What holds of every proposal: no operation in it touches the sender of
//! another, and no paymaster is charged beyond its deposit. Both are
//! established when the proposal is put together and kept by every
//! rejection, since a rejection only takes operations out.

use crate::bundle_proposer::{
    accesses_other_sender, after_aggregations, after_estimate, after_failed_op,
    after_rejecting_paymasters,
    assemble_step, assembled, assembly_after, failure_cause, is_sender, last_index_of, Assembly,
    FailureCause, HandleOpsOut, ScreenedOp,
};
use crate::primitives::Address;
use crate::proposal::{
    after_aggregation, after_reject_entity, after_reject_index, flat_ops, group_index,
    groups_without_entity, lemma_group_index, lemma_locate, locate, ops_without_entity,
    uses_entity, with_op, without_group, AggregationResult, ContextView, GroupView,
};
use crate::simulation::OpWithSimulation;
use crate::uint::U256;
use crate::user_operation::{Entity, EntityType};
use vstd::prelude::*;

verus! {

/// No operation touched the sender of another operation that has another sender.
pub open spec fn no_cross_access(ops: Seq<OpWithSimulation>) -> bool {
    forall|i: int, j: int|
        0 <= i < ops.len() && 0 <= j < ops.len() && (#[trigger] ops[i]).op.sender != (
        #[trigger] ops[j]).op.sender ==> !ops[i].simulation.accesses(ops[j].op.sender)
}

/// What the operations may cost the paymaster at most.
pub open spec fn spent(ops: Seq<OpWithSimulation>, paymaster: Address) -> nat
    decreases ops.len(),
{
    if ops.len() == 0 {
        0
    } else if ops.last().op@.paymaster() == Some(paymaster) {
        spent(ops.drop_last(), paymaster) + ops.last().op@.max_gas_cost()
    } else {
        spent(ops.drop_last(), paymaster)
    }
}

/// The deposit that was fetched for the paymaster, or zero where none was.
pub open spec fn deposit_of(paymasters: Seq<Address>, deposits: Seq<U256>, paymaster: Address) -> nat {
    let at = last_index_of(paymasters, paymaster);
    if 0 <= at < deposits.len() {
        deposits[at].value()
    } else {
        0
    }
}

/// No paymaster may be charged more by the operations than its deposit.
pub open spec fn within_deposits(
    ops: Seq<OpWithSimulation>,
    paymasters: Seq<Address>,
    deposits: Seq<U256>,
) -> bool {
    forall|paymaster: Address| #[trigger]
        spent(ops, paymaster) <= deposit_of(paymasters, deposits, paymaster)
}

/// `small` is what is left of `large` after some operations were taken out.
pub open spec fn taken_from(small: Seq<OpWithSimulation>, large: Seq<OpWithSimulation>) -> bool
    decreases large.len(),
{
    if small.len() == 0 {
        true
    } else if large.len() == 0 {
        false
    } else if small.last() == large.last() && taken_from(small.drop_last(), large.drop_last()) {
        true
    } else {
        taken_from(small, large.drop_last())
    }
}

/// What is left after operations were taken out holds only operations that
/// were there, and may cost no paymaster more.
pub proof fn lemma_taken_from(small: Seq<OpWithSimulation>, large: Seq<OpWithSimulation>)
    requires
        taken_from(small, large),
    ensures
        small.len() <= large.len(),
        forall|i: int|
            0 <= i < small.len() ==> exists|j: int| 0 <= j < large.len() && large[j] == #[trigger] small[i],
        forall|paymaster: Address| #[trigger] spent(small, paymaster) <= spent(large, paymaster),
    decreases large.len(),
{
    if small.len() > 0 {
        if small.last() == large.last() && taken_from(small.drop_last(), large.drop_last()) {
            lemma_taken_from(small.drop_last(), large.drop_last());
            assert forall|i: int| 0 <= i < small.len() implies exists|j: int|
                0 <= j < large.len() && large[j] == #[trigger] small[i] by {
                if i < small.len() - 1 {
                    let j = choose|j: int|
                        0 <= j < large.drop_last().len() && large.drop_last()[j]
                            == small.drop_last()[i];
                    assert(large[j] == small[i]);
                } else {
                    assert(large[large.len() - 1] == small[i]);
                }
            }
            assert forall|paymaster: Address| #[trigger]
                spent(small, paymaster) <= spent(large, paymaster) by {
                assert(spent(small.drop_last(), paymaster) <= spent(large.drop_last(), paymaster));
            }
        } else {
            lemma_taken_from(small, large.drop_last());
            assert forall|i: int| 0 <= i < small.len() implies exists|j: int|
                0 <= j < large.len() && large[j] == #[trigger] small[i] by {
                let j = choose|j: int|
                    0 <= j < large.drop_last().len() && large.drop_last()[j] == small[i];
                assert(large[j] == small[i]);
            }
            assert forall|paymaster: Address| #[trigger]
                spent(small, paymaster) <= spent(large, paymaster) by {
                assert(spent(small, paymaster) <= spent(large.drop_last(), paymaster));
            }
        }
    }
}

/// Taking nothing out leaves everything.
pub proof fn lemma_taken_from_self(ops: Seq<OpWithSimulation>)
    ensures
        taken_from(ops, ops),
    decreases ops.len(),
{
    if ops.len() > 0 {
        lemma_taken_from_self(ops.drop_last());
    }
}

/// Taking out of each of two runs takes out of the runs joined.
pub proof fn lemma_taken_from_concat(
    a: Seq<OpWithSimulation>,
    b: Seq<OpWithSimulation>,
    c: Seq<OpWithSimulation>,
    d: Seq<OpWithSimulation>,
)
    requires
        taken_from(a, c),
        taken_from(b, d),
    ensures
        taken_from(a + b, c + d),
    decreases d.len(),
{
    if b.len() == 0 {
        assert(a + b =~= a);
        lemma_taken_from_longer(a, c, d);
    } else {
        if b.last() == d.last() && taken_from(b.drop_last(), d.drop_last()) {
            lemma_taken_from_concat(a, b.drop_last(), c, d.drop_last());
            assert((a + b).drop_last() =~= a + b.drop_last());
            assert((c + d).drop_last() =~= c + d.drop_last());
            assert((a + b).last() == (c + d).last());
        } else {
            lemma_taken_from_concat(a, b, c, d.drop_last());
            assert((c + d).drop_last() =~= c + d.drop_last());
        }
    }
}

/// What is taken from a run is taken from the run with more behind it.
pub proof fn lemma_taken_from_longer(
    a: Seq<OpWithSimulation>,
    c: Seq<OpWithSimulation>,
    d: Seq<OpWithSimulation>,
)
    requires
        taken_from(a, c),
    ensures
        taken_from(a, c + d),
    decreases d.len(),
{
    if d.len() == 0 {
        assert(c + d =~= c);
    } else {
        lemma_taken_from_longer(a, c, d.drop_last());
        assert((c + d).drop_last() =~= c + d.drop_last());
        if a.len() > 0 {
            if !(a.last() == (c + d).last() && taken_from(a.drop_last(), (c + d).drop_last())) {
                assert(taken_from(a, (c + d).drop_last()));
            }
        }
    }
}

/// Taking out is transitive.
pub proof fn lemma_taken_from_trans(
    a: Seq<OpWithSimulation>,
    b: Seq<OpWithSimulation>,
    c: Seq<OpWithSimulation>,
)
    requires
        taken_from(a, b),
        taken_from(b, c),
    ensures
        taken_from(a, c),
    decreases c.len(), b.len(),
{
    if a.len() > 0 {
        lemma_taken_from(a, b);
        assert(b.len() > 0);
        if b.last() == c.last() && taken_from(b.drop_last(), c.drop_last()) {
            if a.last() == b.last() && taken_from(a.drop_last(), b.drop_last()) {
                lemma_taken_from_trans(a.drop_last(), b.drop_last(), c.drop_last());
            } else {
                lemma_taken_from_trans(a, b.drop_last(), c.drop_last());
            }
        } else {
            lemma_taken_from_trans(a, b, c.drop_last());
        }
    }
}

/// One operation taken out.
pub proof fn lemma_taken_from_remove(ops: Seq<OpWithSimulation>, at: int)
    requires
        0 <= at < ops.len(),
    ensures
        taken_from(ops.remove(at), ops),
    decreases ops.len(),
{
    if at == ops.len() - 1 {
        assert(ops.remove(at) =~= ops.drop_last());
        lemma_taken_from_self(ops.drop_last());
        if ops.drop_last().len() > 0 {
            if !(ops.drop_last().last() == ops.last() && taken_from(
                ops.drop_last().drop_last(),
                ops.drop_last(),
            )) {
                assert(taken_from(ops.drop_last(), ops.drop_last()));
            }
        }
    } else {
        lemma_taken_from_remove(ops.drop_last(), at);
        assert(ops.remove(at).drop_last() =~= ops.drop_last().remove(at));
        assert(ops.remove(at).last() == ops.last());
    }
}

/// The operations that use an entity taken out.
pub proof fn lemma_taken_from_without_entity(
    ops: Seq<OpWithSimulation>,
    kind: EntityType,
    address: Address,
)
    ensures
        taken_from(ops_without_entity(ops, kind, address), ops),
    decreases ops.len(),
{
    if ops.len() > 0 {
        lemma_taken_from_without_entity(ops.skip(1), kind, address);
        let rest = ops_without_entity(ops.skip(1), kind, address);
        assert(ops =~= seq![ops[0]] + ops.skip(1));
        if uses_entity(ops[0].op, kind, address) {
            lemma_taken_from(Seq::<OpWithSimulation>::empty(), seq![ops[0]]);
            lemma_taken_from_concat(Seq::<OpWithSimulation>::empty(), rest, seq![ops[0]], ops.skip(1));
            assert(Seq::<OpWithSimulation>::empty() + rest =~= rest);
        } else {
            lemma_taken_from_self(seq![ops[0]]);
            lemma_taken_from_concat(seq![ops[0]], rest, seq![ops[0]], ops.skip(1));
        }
    }
}

/// The operations of the groups are those of the groups before place `k`,
/// those of group `k`, and those of the groups behind it.
pub proof fn lemma_flat_split(groups: Seq<GroupView>, k: int)
    requires
        0 <= k < groups.len(),
    ensures
        flat_ops(groups) == flat_ops(groups.take(k)) + groups[k].ops + flat_ops(groups.skip(k + 1)),
    decreases groups.len(),
{
    if k == groups.len() - 1 {
        assert(groups.take(k) =~= groups.drop_last());
        assert(groups.skip(k + 1) =~= Seq::<GroupView>::empty());
        assert(flat_ops(groups) =~= flat_ops(groups.take(k)) + groups[k].ops + flat_ops(
            groups.skip(k + 1),
        ));
    } else {
        lemma_flat_split(groups.drop_last(), k);
        assert(groups.drop_last().take(k) =~= groups.take(k));
        assert(groups.drop_last().skip(k + 1) =~= groups.skip(k + 1).drop_last());
        assert(groups.skip(k + 1).last() == groups.last());
        assert(flat_ops(groups) =~= flat_ops(groups.take(k)) + groups[k].ops + flat_ops(
            groups.skip(k + 1),
        ));
    }
}

/// The operations of two runs of groups, one after the other.
pub proof fn lemma_flat_concat(a: Seq<GroupView>, b: Seq<GroupView>)
    ensures
        flat_ops(a + b) == flat_ops(a) + flat_ops(b),
    decreases b.len(),
{
    if b.len() == 0 {
        assert(a + b =~= a);
        assert(flat_ops(a + b) =~= flat_ops(a) + flat_ops(b));
    } else {
        lemma_flat_concat(a, b.drop_last());
        assert((a + b).drop_last() =~= a + b.drop_last());
        assert(flat_ops(a + b) =~= flat_ops(a) + flat_ops(b));
    }
}

/// Groups with other operations in one place have the operations of the
/// groups in front, the new ones, and those of the groups behind.
pub proof fn lemma_flat_update(groups: Seq<GroupView>, k: int, group: GroupView)
    requires
        0 <= k < groups.len(),
    ensures
        flat_ops(groups.update(k, group)) == flat_ops(groups.take(k)) + group.ops + flat_ops(
            groups.skip(k + 1),
        ),
{
    let updated = groups.update(k, group);
    lemma_flat_split(updated, k);
    assert(updated.take(k) =~= groups.take(k));
    assert(updated.skip(k + 1) =~= groups.skip(k + 1));
}

/// Groups without the one in a place have the operations of the groups in
/// front and those of the groups behind.
pub proof fn lemma_flat_remove(groups: Seq<GroupView>, k: int)
    requires
        0 <= k < groups.len(),
    ensures
        flat_ops(groups.remove(k)) == flat_ops(groups.take(k)) + flat_ops(groups.skip(k + 1)),
{
    assert(groups.remove(k) =~= groups.take(k) + groups.skip(k + 1));
    lemma_flat_concat(groups.take(k), groups.skip(k + 1));
}

/// Putting other operations in the place of a group's, taken from that
/// group's, takes operations out of the proposal.
pub proof fn lemma_update_takes(groups: Seq<GroupView>, k: int, group: GroupView)
    requires
        0 <= k < groups.len(),
        taken_from(group.ops, groups[k].ops),
    ensures
        taken_from(flat_ops(groups.update(k, group)), flat_ops(groups)),
{
    lemma_flat_update(groups, k, group);
    lemma_flat_split(groups, k);
    let front = flat_ops(groups.take(k));
    let back = flat_ops(groups.skip(k + 1));
    lemma_taken_from_self(front);
    lemma_taken_from_self(back);
    lemma_taken_from_concat(front, group.ops, front, groups[k].ops);
    lemma_taken_from_concat(front + group.ops, back, front + groups[k].ops, back);
}

/// Removing a group takes operations out of the proposal.
pub proof fn lemma_remove_takes(groups: Seq<GroupView>, k: int)
    requires
        0 <= k < groups.len(),
    ensures
        taken_from(flat_ops(groups.remove(k)), flat_ops(groups)),
{
    lemma_flat_remove(groups, k);
    lemma_flat_split(groups, k);
    let front = flat_ops(groups.take(k));
    let back = flat_ops(groups.skip(k + 1));
    lemma_taken_from_self(front);
    lemma_taken_from_self(back);
    lemma_taken_from_longer(front, front, groups[k].ops);
    lemma_taken_from_concat(front, back, front + groups[k].ops, back);
}

/// Removing the group of an aggregator takes operations out of the proposal.
pub proof fn lemma_without_group_takes(groups: Seq<GroupView>, aggregator: Option<Address>)
    ensures
        taken_from(flat_ops(without_group(groups, aggregator)), flat_ops(groups)),
{
    lemma_group_index(groups, aggregator);
    if group_index(groups, aggregator) < groups.len() {
        lemma_remove_takes(groups, group_index(groups, aggregator));
    } else {
        lemma_taken_from_self(flat_ops(groups));
    }
}

/// Removing the operations that use an entity takes operations out of the proposal.
pub proof fn lemma_without_entity_takes(groups: Seq<GroupView>, kind: EntityType, address: Address)
    ensures
        taken_from(flat_ops(groups_without_entity(groups, kind, address)), flat_ops(groups)),
    decreases groups.len(),
{
    if groups.len() > 0 {
        lemma_without_entity_takes(groups.drop_last(), kind, address);
        lemma_taken_from_without_entity(groups.last().ops, kind, address);
        let before = groups_without_entity(groups.drop_last(), kind, address);
        let rest = ops_without_entity(groups.last().ops, kind, address);
        lemma_taken_from_concat(
            flat_ops(before),
            rest,
            flat_ops(groups.drop_last()),
            groups.last().ops,
        );
        if rest.len() == 0 {
            assert(flat_ops(before) + rest =~= flat_ops(before));
        } else {
            assert(before.push(GroupView { ops: rest, ..groups.last() }).drop_last() =~= before);
        }
    }
}

/// Rejecting an entity takes operations out of the proposal.
pub proof fn lemma_reject_entity_takes(context: ContextView, entity: Entity)
    ensures
        taken_from(
            flat_ops(after_reject_entity(context, entity).0.groups),
            flat_ops(context.groups),
        ),
{
    match entity.kind {
        EntityType::Aggregator => {
            lemma_without_group_takes(context.groups, Some(entity.address));
        },
        EntityType::Paymaster | EntityType::Factory => {
            lemma_without_entity_takes(context.groups, entity.kind, entity.address);
        },
        EntityType::Account => {
            lemma_taken_from_self(flat_ops(context.groups));
        },
    }
}

/// Rejecting the operation at an index takes operations out of the proposal.
pub proof fn lemma_reject_index_takes(context: ContextView, i: int)
    requires
        0 <= i,
    ensures
        taken_from(flat_ops(after_reject_index(context, i).0.groups), flat_ops(context.groups)),
{
    lemma_locate(context.groups, i);
    let (g, offset) = locate(context.groups, i);
    if g >= context.groups.len() {
        lemma_taken_from_self(flat_ops(context.groups));
    } else {
        let group = context.groups[g];
        let rest = group.ops.remove(offset);
        lemma_taken_from_remove(group.ops, offset);
        if rest.len() == 0 {
            lemma_remove_takes(context.groups, g);
        } else {
            lemma_update_takes(context.groups, g, GroupView { ops: rest, ..group });
        }
    }
}

/// An aggregator's answer takes operations out of the proposal, or none.
pub proof fn lemma_aggregation_takes(
    context: ContextView,
    aggregator: Address,
    result: AggregationResult,
)
    ensures
        taken_from(
            flat_ops(after_aggregation(context, aggregator, result).groups),
            flat_ops(context.groups),
        ),
{
    let k = group_index(context.groups, Some(aggregator));
    lemma_group_index(context.groups, Some(aggregator));
    match result {
        AggregationResult::Signature(signature) => {
            if k < context.groups.len() {
                lemma_taken_from_self(context.groups[k].ops);
                lemma_update_takes(
                    context.groups,
                    k,
                    GroupView { signature: signature@, ..context.groups[k] },
                );
            } else {
                lemma_taken_from_self(flat_ops(context.groups));
            }
        },
        AggregationResult::Refused => {
            lemma_reject_entity_takes(
                context,
                Entity { kind: EntityType::Aggregator, address: aggregator },
            );
        },
        AggregationResult::Failed => {
            lemma_without_group_takes(context.groups, Some(aggregator));
        },
    }
}

/// The answers of the aggregators take operations out of the proposal, or none.
pub proof fn lemma_aggregations_take(
    context: ContextView,
    requested: Seq<Address>,
    results: Seq<AggregationResult>,
    n: int,
)
    ensures
        taken_from(
            flat_ops(after_aggregations(context, requested, results, n).groups),
            flat_ops(context.groups),
        ),
    decreases n,
{
    if n <= 0 {
        lemma_taken_from_self(flat_ops(context.groups));
    } else {
        lemma_aggregations_take(context, requested, results, n - 1);
        let before = after_aggregations(context, requested, results, n - 1);
        lemma_aggregation_takes(before, requested[n - 1], results[n - 1]);
        lemma_taken_from_trans(
            flat_ops(after_aggregations(context, requested, results, n).groups),
            flat_ops(before.groups),
            flat_ops(context.groups),
        );
    }
}

/// The entry point's answer to the request for a gas estimate takes
/// operations out of the proposal, or none.
pub proof fn lemma_estimate_takes(context: ContextView, out: HandleOpsOut)
    requires
        after_estimate(context, out) is Ok,
    ensures
        taken_from(
            flat_ops(after_estimate(context, out)->Ok_0.0.groups),
            flat_ops(context.groups),
        ),
{
    match out {
        HandleOpsOut::SuccessWithGas(_) => {
            lemma_taken_from_self(flat_ops(context.groups));
        },
        HandleOpsOut::FailedOp(index, message) => {
            let ops = flat_ops(context.groups);
            match failure_cause(vstd::utf8::encode_utf8(message@)) {
                FailureCause::Factory => {
                    lemma_reject_entity_takes(
                        context,
                        Entity {
                            kind: EntityType::Factory,
                            address: ops[index as int].op@.factory()->0,
                        },
                    );
                },
                FailureCause::Paymaster => {
                    lemma_reject_entity_takes(
                        context,
                        Entity {
                            kind: EntityType::Paymaster,
                            address: ops[index as int].op@.paymaster()->0,
                        },
                    );
                },
                FailureCause::Operation => {
                    lemma_reject_index_takes(context, index as int);
                },
            }
        },
        HandleOpsOut::SignatureValidationFailed(aggregator) => {
            lemma_reject_entity_takes(
                context,
                Entity { kind: EntityType::Aggregator, address: aggregator },
            );
        },
    }
}

/// Where operations are taken out, no operation comes to touch another's
/// sender, and no paymaster comes to be charged beyond its deposit.
pub proof fn law_taking_out_keeps(
    small: Seq<OpWithSimulation>,
    large: Seq<OpWithSimulation>,
    paymasters: Seq<Address>,
    deposits: Seq<U256>,
)
    requires
        taken_from(small, large),
    ensures
        no_cross_access(large) ==> no_cross_access(small),
        within_deposits(large, paymasters, deposits) ==> within_deposits(
            small,
            paymasters,
            deposits,
        ),
{
    lemma_taken_from(small, large);
    if no_cross_access(large) {
        assert forall|i: int, j: int|
            0 <= i < small.len() && 0 <= j < small.len() && (#[trigger] small[i]).op.sender != (
            #[trigger] small[j]).op.sender implies !small[i].simulation.accesses(
            small[j].op.sender,
        ) by {
            let a = choose|a: int| 0 <= a < large.len() && large[a] == small[i];
            let b = choose|b: int| 0 <= b < large.len() && large[b] == small[j];
            assert(large[a].op.sender != large[b].op.sender);
        }
    }
    if within_deposits(large, paymasters, deposits) {
        assert forall|paymaster: Address| #[trigger]
            spent(small, paymaster) <= deposit_of(paymasters, deposits, paymaster) by {
            assert(spent(small, paymaster) <= spent(large, paymaster));
            assert(spent(large, paymaster) <= deposit_of(paymasters, deposits, paymaster));
        }
    }
}

/// What two runs of operations may cost a paymaster is the sum of what each may.
pub proof fn lemma_spent_concat(a: Seq<OpWithSimulation>, b: Seq<OpWithSimulation>, paymaster: Address)
    ensures
        spent(a + b, paymaster) == spent(a, paymaster) + spent(b, paymaster),
    decreases b.len(),
{
    if b.len() == 0 {
        assert(a + b =~= a);
    } else {
        lemma_spent_concat(a, b.drop_last(), paymaster);
        assert((a + b).drop_last() =~= a + b.drop_last());
        assert((a + b).last() == b.last());
    }
}

/// What one more operation adds to what a paymaster may be charged.
pub open spec fn charge(op: OpWithSimulation, paymaster: Address) -> nat {
    if op.op@.paymaster() == Some(paymaster) {
        op.op@.max_gas_cost()
    } else {
        0
    }
}

/// An operation put in somewhere adds its charge and nothing else.
pub proof fn lemma_spent_insert(
    ops: Seq<OpWithSimulation>,
    at: int,
    op: OpWithSimulation,
    paymaster: Address,
)
    requires
        0 <= at <= ops.len(),
    ensures
        spent(ops.insert(at, op), paymaster) == spent(ops, paymaster) + charge(op, paymaster),
{
    assert(ops.insert(at, op) =~= ops.take(at) + seq![op] + ops.skip(at));
    assert(ops =~= ops.take(at) + ops.skip(at));
    lemma_spent_concat(ops.take(at), ops.skip(at), paymaster);
    lemma_spent_concat(ops.take(at), seq![op], paymaster);
    lemma_spent_concat(ops.take(at) + seq![op], ops.skip(at), paymaster);
    let one = seq![op];
    assert(one.len() == 1);
    assert(one.last() == op);
    assert(one.drop_last() =~= Seq::<OpWithSimulation>::empty());
    assert(spent(one.drop_last(), paymaster) == 0);
    assert(spent(one, paymaster) == charge(op, paymaster));
}

/// Where in the run of all operations an operation added to the group of
/// `aggregator` comes to stand.
pub open spec fn place_of_new_op(groups: Seq<GroupView>, aggregator: Option<Address>) -> int {
    let k = group_index(groups, aggregator);
    if k < groups.len() {
        (flat_ops(groups.take(k)).len() + groups[k].ops.len()) as int
    } else {
        flat_ops(groups).len() as int
    }
}

/// Adding an operation to its group puts it in somewhere among all the operations.
pub proof fn lemma_with_op_inserts(groups: Seq<GroupView>, aggregator: Option<Address>, op: OpWithSimulation)
    ensures
        0 <= place_of_new_op(groups, aggregator) <= flat_ops(groups).len(),
        flat_ops(with_op(groups, aggregator, op)) == flat_ops(groups).insert(
            place_of_new_op(groups, aggregator),
            op,
        ),
{
    let k = group_index(groups, aggregator);
    lemma_group_index(groups, aggregator);
    let at = place_of_new_op(groups, aggregator);
    if k < groups.len() {
        lemma_flat_split(groups, k);
        lemma_flat_update(groups, k, GroupView { ops: groups[k].ops.push(op), ..groups[k] });
        let front = flat_ops(groups.take(k));
        let back = flat_ops(groups.skip(k + 1));
        assert(front + groups[k].ops.push(op) + back =~= (front + groups[k].ops + back).insert(
            at,
            op,
        ));
    } else {
        let group = GroupView { aggregator, ops: seq![op], signature: Seq::empty() };
        assert(groups.push(group).drop_last() =~= groups);
        assert(flat_ops(groups) + seq![op] =~= flat_ops(groups).insert(at, op));
    }
}

/// The place among the deposits that the paymaster's deposit stands at
/// holds that paymaster.
pub proof fn lemma_last_index_of(paymasters: Seq<Address>, paymaster: Address)
    ensures
        -1 <= last_index_of(paymasters, paymaster) < paymasters.len(),
        last_index_of(paymasters, paymaster) >= 0 ==> paymasters[last_index_of(
            paymasters,
            paymaster,
        )] == paymaster,
    decreases paymasters.len(),
{
    if paymasters.len() > 0 && paymasters.last() != paymaster {
        lemma_last_index_of(paymasters.drop_last(), paymaster);
    }
}

/// The sender of each operation is among the senders looked at, and the
/// operation touched the sender of no other.
pub open spec fn passed_access_check(ops: Seq<OpWithSimulation>, all: Seq<ScreenedOp>) -> bool {
    forall|i: int|
        0 <= i < ops.len() ==> is_sender(all, (#[trigger] ops[i]).op.sender)
            && !accesses_other_sender(all, ops[i].op, ops[i].simulation)
}

/// What each deposit was drawn on is what the operations may cost its
/// paymaster, and a paymaster without deposit is charged nothing.
pub open spec fn balances_account(
    assembly: Assembly,
    paymasters: Seq<Address>,
    deposits: Seq<U256>,
) -> bool {
    &&& assembly.balances.len() == deposits.len()
    &&& forall|paymaster: Address| #[trigger]
        spent(flat_ops(assembly.groups), paymaster) + (if 0 <= last_index_of(
            paymasters,
            paymaster,
        ) < deposits.len() {
            assembly.balances[last_index_of(paymasters, paymaster)]
        } else {
            0
        }) == deposit_of(paymasters, deposits, paymaster)
}

/// An operation that joins a group keeps the assembly in order, where it
/// passed the check for touching other senders and its highest cost was
/// drawn from its paymaster's deposit.
proof fn lemma_step_joined(
    all: Seq<ScreenedOp>,
    paymasters: Seq<Address>,
    deposits: Seq<U256>,
    before: Assembly,
    after: Assembly,
    op: OpWithSimulation,
    aggregator: Option<Address>,
)
    requires
        passed_access_check(flat_ops(before.groups), all),
        balances_account(before, paymasters, deposits),
        after.groups == with_op(before.groups, aggregator, op),
        is_sender(all, op.op.sender),
        !accesses_other_sender(all, op.op, op.simulation),
        match op.op@.paymaster() {
            None => after.balances == before.balances,
            Some(paymaster) => {
                let at = last_index_of(paymasters, paymaster);
                &&& 0 <= at < before.balances.len()
                &&& before.balances[at] >= op.op@.max_gas_cost()
                &&& after.balances == before.balances.update(
                    at,
                    (before.balances[at] - op.op@.max_gas_cost()) as nat,
                )
            },
        },
    ensures
        passed_access_check(flat_ops(after.groups), all),
        balances_account(after, paymasters, deposits),
{
    lemma_with_op_inserts(before.groups, aggregator, op);
    let at = place_of_new_op(before.groups, aggregator);
    let old_ops = flat_ops(before.groups);
    let new_ops = flat_ops(after.groups);
    assert forall|i: int| 0 <= i < new_ops.len() implies is_sender(
        all,
        (#[trigger] new_ops[i]).op.sender,
    ) && !accesses_other_sender(all, new_ops[i].op, new_ops[i].simulation) by {
        if i < at {
            assert(new_ops[i] == old_ops[i]);
        } else if i == at {
            assert(new_ops[i] == op);
        } else {
            assert(new_ops[i] == old_ops[i - 1]);
        }
    }
    assert forall|paymaster: Address| #[trigger]
        spent(new_ops, paymaster) + (if 0 <= last_index_of(paymasters, paymaster) < deposits.len() {
            after.balances[last_index_of(paymasters, paymaster)]
        } else {
            0
        }) == deposit_of(paymasters, deposits, paymaster) by {
        lemma_spent_insert(old_ops, at, op, paymaster);
        lemma_last_index_of(paymasters, paymaster);
        assert(spent(old_ops, paymaster) + (if 0 <= last_index_of(paymasters, paymaster)
            < deposits.len() {
            before.balances[last_index_of(paymasters, paymaster)]
        } else {
            0
        }) == deposit_of(paymasters, deposits, paymaster));
        match op.op@.paymaster() {
            Some(own) => {
                lemma_last_index_of(paymasters, own);
            },
            None => {},
        }
    }
}

/// An operation that joins no group and draws on no deposit keeps the
/// assembly in order.
proof fn lemma_step_left_out(
    all: Seq<ScreenedOp>,
    paymasters: Seq<Address>,
    deposits: Seq<U256>,
    before: Assembly,
    after: Assembly,
)
    requires
        passed_access_check(flat_ops(before.groups), all),
        balances_account(before, paymasters, deposits),
        after.groups == before.groups,
        after.balances == before.balances,
    ensures
        passed_access_check(flat_ops(after.groups), all),
        balances_account(after, paymasters, deposits),
{
    assert forall|paymaster: Address| #[trigger]
        spent(flat_ops(after.groups), paymaster) + (if 0 <= last_index_of(paymasters, paymaster)
            < deposits.len() {
            after.balances[last_index_of(paymasters, paymaster)]
        } else {
            0
        }) == deposit_of(paymasters, deposits, paymaster) by {
        assert(spent(flat_ops(before.groups), paymaster) + (if 0 <= last_index_of(
            paymasters,
            paymaster,
        ) < deposits.len() {
            before.balances[last_index_of(paymasters, paymaster)]
        } else {
            0
        }) == deposit_of(paymasters, deposits, paymaster));
    }
}

/// After any number of operations were looked at, those that joined a group
/// passed the check for touching other senders, and the deposits account
/// for what they may cost.
pub proof fn lemma_assembly(
    all: Seq<ScreenedOp>,
    paymasters: Seq<Address>,
    deposits: Seq<U256>,
    n: int,
)
    requires
        0 <= n <= all.len(),
    ensures
        passed_access_check(flat_ops(assembly_after(all, paymasters, deposits, n).groups), all),
        balances_account(assembly_after(all, paymasters, deposits, n), paymasters, deposits),
    decreases n,
{
    let after = assembly_after(all, paymasters, deposits, n);
    if n == 0 {
        assert(flat_ops(after.groups) =~= Seq::<OpWithSimulation>::empty());
        assert forall|paymaster: Address| #[trigger]
            spent(flat_ops(after.groups), paymaster) + (if 0 <= last_index_of(
                paymasters,
                paymaster,
            ) < deposits.len() {
                after.balances[last_index_of(paymasters, paymaster)]
            } else {
                0
            }) == deposit_of(paymasters, deposits, paymaster) by {}
    } else {
        lemma_assembly(all, paymasters, deposits, n - 1);
        let before = assembly_after(all, paymasters, deposits, n - 1);
        let item = all[n - 1];
        assert(after == assemble_step(before, all, paymasters, item));
        match item.simulation {
            None => {
                lemma_step_left_out(all, paymasters, deposits, before, after);
            },
            Some(simulation) => {
                let op = OpWithSimulation { op: item.op, simulation };
                let aggregator = simulation.spec_aggregator_address();
                if accesses_other_sender(all, item.op, simulation) {
                    lemma_step_left_out(all, paymasters, deposits, before, after);
                } else {
                    match item.op@.paymaster() {
                        None => {
                            lemma_step_joined(
                                all,
                                paymasters,
                                deposits,
                                before,
                                after,
                                op,
                                aggregator,
                            );
                        },
                        Some(paymaster) => {
                            let at = last_index_of(paymasters, paymaster);
                            if at < 0 || at >= before.balances.len() {
                                lemma_step_left_out(all, paymasters, deposits, before, after);
                            } else if before.balances[at] < item.op@.max_gas_cost() {
                                lemma_step_left_out(all, paymasters, deposits, before, after);
                            } else {
                                lemma_step_joined(
                                    all,
                                    paymasters,
                                    deposits,
                                    before,
                                    after,
                                    op,
                                    aggregator,
                                );
                            }
                        },
                    }
                }
            },
        }
    }
}

/// Rejecting paymasters takes operations out of the proposal.
pub proof fn lemma_rejecting_paymasters_takes(context: ContextView, flagged: Seq<Address>, n: int)
    ensures
        taken_from(
            flat_ops(after_rejecting_paymasters(context, flagged, n).groups),
            flat_ops(context.groups),
        ),
    decreases n,
{
    if n <= 0 {
        lemma_taken_from_self(flat_ops(context.groups));
    } else {
        lemma_rejecting_paymasters_takes(context, flagged, n - 1);
        let before = after_rejecting_paymasters(context, flagged, n - 1);
        lemma_reject_entity_takes(
            before,
            Entity { kind: EntityType::Paymaster, address: flagged[n - 1] },
        );
        lemma_taken_from_trans(
            flat_ops(after_rejecting_paymasters(context, flagged, n).groups),
            flat_ops(before.groups),
            flat_ops(context.groups),
        );
    }
}

/// In a proposal put together from simulated operations, no operation
/// touched the sender of another operation with another sender, and what
/// the operations may cost a paymaster is within the deposit fetched for
/// it.
pub proof fn law_assembled(all: Seq<ScreenedOp>, paymasters: Seq<Address>, deposits: Seq<U256>)
    ensures
        no_cross_access(flat_ops(assembled(all, paymasters, deposits).groups)),
        within_deposits(
            flat_ops(assembled(all, paymasters, deposits).groups),
            paymasters,
            deposits,
        ),
{
    let assembly = assembly_after(all, paymasters, deposits, all.len() as int);
    lemma_assembly(all, paymasters, deposits, all.len() as int);
    let ops = flat_ops(assembly.groups);
    assert(no_cross_access(ops)) by {
        assert forall|i: int, j: int|
            0 <= i < ops.len() && 0 <= j < ops.len() && (#[trigger] ops[i]).op.sender != (
            #[trigger] ops[j]).op.sender implies !ops[i].simulation.accesses(ops[j].op.sender) by {
            if ops[i].simulation.accesses(ops[j].op.sender) {
                let at = choose|at: int|
                    0 <= at < ops[i].simulation.accessed_addresses@.len()
                        && #[trigger] ops[i].simulation.accessed_addresses@[at]
                        == ops[j].op.sender;
                assert(is_sender(all, ops[i].simulation.accessed_addresses@[at]));
                assert(accesses_other_sender(all, ops[i].op, ops[i].simulation));
            }
        }
    }
    assert(within_deposits(ops, paymasters, deposits)) by {
        assert forall|paymaster: Address| #[trigger]
            spent(ops, paymaster) <= deposit_of(paymasters, deposits, paymaster) by {
            assert(spent(ops, paymaster) + (if 0 <= last_index_of(paymasters, paymaster)
                < deposits.len() {
                assembly.balances[last_index_of(paymasters, paymaster)]
            } else {
                0
            }) == deposit_of(paymasters, deposits, paymaster));
        }
    }
    let unrejected = ContextView {
        groups: assembly.groups,
        rejected_ops: assembly.rejected_ops,
        rejected_entities: Seq::empty(),
    };
    lemma_rejecting_paymasters_takes(unrejected, assembly.flagged, assembly.flagged.len() as int);
    law_taking_out_keeps(
        flat_ops(assembled(all, paymasters, deposits).groups),
        ops,
        paymasters,
        deposits,
    );
}

/// Taking out the operations that use an entity makes a run of operations
/// shorter where one of them uses it.
pub proof fn lemma_ops_without_entity_shorter(
    ops: Seq<OpWithSimulation>,
    kind: EntityType,
    address: Address,
    i: int,
)
    requires
        0 <= i < ops.len(),
        uses_entity(ops[i].op, kind, address),
    ensures
        ops_without_entity(ops, kind, address).len() < ops.len(),
    decreases ops.len(),
{
    lemma_taken_from_without_entity(ops.skip(1), kind, address);
    lemma_taken_from(ops_without_entity(ops.skip(1), kind, address), ops.skip(1));
    if i > 0 {
        assert(ops.skip(1)[i - 1] == ops[i]);
        lemma_ops_without_entity_shorter(ops.skip(1), kind, address, i - 1);
    }
}

/// Taking out the operations that use an entity makes the proposal smaller
/// where one of its operations uses it.
pub proof fn lemma_without_entity_smaller(
    groups: Seq<GroupView>,
    kind: EntityType,
    address: Address,
    i: int,
)
    requires
        0 <= i < flat_ops(groups).len(),
        uses_entity(flat_ops(groups)[i].op, kind, address),
    ensures
        flat_ops(groups_without_entity(groups, kind, address)).len() < flat_ops(groups).len(),
    decreases groups.len(),
{
    let front = groups.drop_last();
    let kept_front = groups_without_entity(front, kind, address);
    let rest = ops_without_entity(groups.last().ops, kind, address);
    lemma_without_entity_takes(front, kind, address);
    lemma_taken_from(flat_ops(kept_front), flat_ops(front));
    lemma_taken_from_without_entity(groups.last().ops, kind, address);
    lemma_taken_from(rest, groups.last().ops);
    if rest.len() > 0 {
        assert(kept_front.push(GroupView { ops: rest, ..groups.last() }).drop_last() =~= kept_front);
    }
    if i < flat_ops(front).len() {
        lemma_without_entity_smaller(front, kind, address, i);
    } else {
        lemma_ops_without_entity_shorter(
            groups.last().ops,
            kind,
            address,
            i - flat_ops(front).len(),
        );
    }
}

/// Where the entry point blames an operation that is in the bundle, what it
/// blames is taken out and the bundle has fewer operations than before: a
/// round of gas estimates ends after no more rounds than the bundle had
/// operations, as long as each blame names an operation of the bundle.
pub proof fn law_blame_takes_an_operation_out(context: ContextView, index: usize, message: Seq<u8>)
    requires
        index < flat_ops(context.groups).len(),
        after_failed_op(context, index, message) is Ok,
    ensures
        flat_ops(after_failed_op(context, index, message)->Ok_0.0.groups).len() < flat_ops(
            context.groups,
        ).len(),
{
    let ops = flat_ops(context.groups);
    match failure_cause(message) {
        FailureCause::Factory => {
            lemma_without_entity_smaller(
                context.groups,
                EntityType::Factory,
                ops[index as int].op@.factory()->0,
                index as int,
            );
        },
        FailureCause::Paymaster => {
            lemma_without_entity_smaller(
                context.groups,
                EntityType::Paymaster,
                ops[index as int].op@.paymaster()->0,
                index as int,
            );
        },
        FailureCause::Operation => {
            lemma_locate(context.groups, index as int);
            let (g, offset) = locate(context.groups, index as int);
            let group = context.groups[g];
            let rest = group.ops.remove(offset);
            lemma_flat_split(context.groups, g);
            if rest.len() == 0 {
                lemma_flat_remove(context.groups, g);
            } else {
                lemma_flat_update(context.groups, g, GroupView { ops: rest, ..group });
            }
        },
    }
}

} // verus!
