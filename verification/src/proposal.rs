//! The state of a proposed bundle while it is put together: the operations
//! grouped by aggregator, in the order the groups first came up, and what
//! was rejected on the way.

use crate::groups::{
    groups_get, groups_insert, groups_keys, groups_len, groups_new, groups_of, groups_remove,
    groups_replace, position_of, AggregatorGroup,
};
use crate::primitives::{zero_address, Address};
use crate::simulation::OpWithSimulation;
use crate::user_operation::{copy_bytes, Entity, EntityType, UserOperation, UserOperationView};
use linked_hash_map::LinkedHashMap;
use vstd::prelude::*;

verus! {

/// The operations that go to the entry point under one aggregator.
#[derive(Clone, Debug, Default, PartialEq, Eq)]
pub struct UserOpsPerAggregator {
    pub user_ops: Vec<UserOperation>,
    /// The aggregator, or the zero address for none.
    pub aggregator: Address,
    pub signature: Vec<u8>,
}

/// A group of the proposal as a mathematical value.
pub struct GroupView {
    pub aggregator: Option<Address>,
    pub ops: Seq<OpWithSimulation>,
    pub signature: Seq<u8>,
}

/// A proposal as a mathematical value.
pub struct ContextView {
    /// The groups, in the order their aggregators first came up.
    pub groups: Seq<GroupView>,
    pub rejected_ops: Seq<UserOperation>,
    pub rejected_entities: Seq<Entity>,
}

/// The entries of the map of groups, each as a mathematical value.
pub open spec fn group_views(entries: Seq<(Option<Address>, AggregatorGroup)>) -> Seq<GroupView> {
    entries.map_values(
        |e: (Option<Address>, AggregatorGroup)|
            GroupView {
                aggregator: e.0,
                ops: e.1.ops_with_simulations@,
                signature: e.1.signature@,
            },
    )
}

/// The operations of all the groups, in the order they go to the entry point.
pub open spec fn flat_ops(groups: Seq<GroupView>) -> Seq<OpWithSimulation>
    decreases groups.len(),
{
    if groups.len() == 0 {
        Seq::empty()
    } else {
        flat_ops(groups.drop_last()) + groups.last().ops
    }
}

/// No two groups have the same aggregator.
pub open spec fn distinct_aggregators(groups: Seq<GroupView>) -> bool {
    forall|i: int, j: int|
        0 <= i < groups.len() && 0 <= j < groups.len() && i != j ==> (#[trigger] groups[i]).aggregator
            != (#[trigger] groups[j]).aggregator
}

/// No two groups have the same aggregator, and no group is empty.
pub open spec fn groups_wf(groups: Seq<GroupView>) -> bool {
    &&& distinct_aggregators(groups)
    &&& forall|i: int| 0 <= i < groups.len() ==> (#[trigger] groups[i]).ops.len() > 0
}

/// The place of the group with this aggregator, or the number of groups
/// where there is none.
pub open spec fn group_index(groups: Seq<GroupView>, aggregator: Option<Address>) -> int
    decreases groups.len(),
{
    if groups.len() == 0 {
        0
    } else if groups[0].aggregator == aggregator {
        0
    } else {
        1 + group_index(groups.skip(1), aggregator)
    }
}

/// `group_index` finds the first group with the aggregator, and says so by
/// an index below the number of groups.
pub proof fn lemma_group_index(groups: Seq<GroupView>, aggregator: Option<Address>)
    ensures
        0 <= group_index(groups, aggregator) <= groups.len(),
        group_index(groups, aggregator) < groups.len() ==> groups[group_index(
            groups,
            aggregator,
        )].aggregator == aggregator,
        forall|i: int|
            0 <= i < group_index(groups, aggregator) ==> (#[trigger] groups[i]).aggregator
                != aggregator,
    decreases groups.len(),
{
    if groups.len() > 0 && groups[0].aggregator != aggregator {
        lemma_group_index(groups.skip(1), aggregator);
        assert forall|i: int| 0 <= i < group_index(groups, aggregator) implies (
        #[trigger] groups[i]).aggregator != aggregator by {
            if i > 0 {
                assert(groups.skip(1)[i - 1] == groups[i]);
            }
        }
    }
}

/// The place of a key among the entries is the place of the group with
/// that aggregator among the groups.
pub proof fn lemma_position_is_group_index(
    entries: Seq<(Option<Address>, AggregatorGroup)>,
    key: Option<Address>,
)
    ensures
        position_of(entries, key) == group_index(group_views(entries), key),
    decreases entries.len(),
{
    if entries.len() > 0 && entries[0].0 != key {
        assert(group_views(entries).skip(1) =~= group_views(entries.skip(1)));
        lemma_position_is_group_index(entries.skip(1), key);
    }
}

/// Among groups with distinct aggregators, a group is found at its own place.
pub proof fn lemma_group_index_of_own(groups: Seq<GroupView>, k: int)
    requires
        distinct_aggregators(groups),
        0 <= k < groups.len(),
    ensures
        group_index(groups, groups[k].aggregator) == k,
{
    lemma_group_index(groups, groups[k].aggregator);
}

/// The operations in front of group `k` are as many as `flat_ops` of the
/// groups before it, and the operations of group `k` follow them.
pub proof fn lemma_flat_ops_index(groups: Seq<GroupView>, k: int, offset: int)
    requires
        0 <= k < groups.len(),
        0 <= offset < groups[k].ops.len(),
    ensures
        flat_ops(groups.take(k)).len() + offset < flat_ops(groups).len(),
        flat_ops(groups)[flat_ops(groups.take(k)).len() + offset] == groups[k].ops[offset],
    decreases groups.len(),
{
    if k == groups.len() - 1 {
        assert(groups.take(k) =~= groups.drop_last());
    } else {
        assert(groups.drop_last().take(k) =~= groups.take(k));
        lemma_flat_ops_index(groups.drop_last(), k, offset);
    }
}

/// The operations of the first `k + 1` groups are those of the first `k`
/// followed by those of group `k`.
pub proof fn lemma_flat_ops_take(groups: Seq<GroupView>, k: int)
    requires
        0 <= k < groups.len(),
    ensures
        flat_ops(groups.take(k + 1)) == flat_ops(groups.take(k)) + groups[k].ops,
{
    assert(groups.take(k + 1).drop_last() =~= groups.take(k));
}

/// The groups without the one that has this aggregator.
pub open spec fn without_group(groups: Seq<GroupView>, aggregator: Option<Address>) -> Seq<
    GroupView,
> {
    if group_index(groups, aggregator) < groups.len() {
        groups.remove(group_index(groups, aggregator))
    } else {
        groups
    }
}

/// The groups with `op` added to the group of `aggregator`; a group that is
/// not there yet comes last, without a signature.
pub open spec fn with_op(groups: Seq<GroupView>, aggregator: Option<Address>, op: OpWithSimulation) -> Seq<
    GroupView,
> {
    let k = group_index(groups, aggregator);
    if k < groups.len() {
        groups.update(k, GroupView { ops: groups[k].ops.push(op), ..groups[k] })
    } else {
        groups.push(GroupView { aggregator, ops: seq![op], signature: Seq::empty() })
    }
}

/// Where the operation with the flat index `i` stands: the place of its
/// group and its place in the group. Where there is no such operation the
/// group's place is the number of groups.
pub open spec fn locate(groups: Seq<GroupView>, i: int) -> (int, int)
    decreases groups.len(),
{
    if groups.len() == 0 {
        (0, i)
    } else if i < groups[0].ops.len() {
        (0, i)
    } else {
        let (g, offset) = locate(groups.skip(1), i - groups[0].ops.len());
        (g + 1, offset)
    }
}

/// `locate` finds the operation that `flat_ops` has at the index, and finds
/// none exactly where the index is past the last operation.
pub proof fn lemma_locate(groups: Seq<GroupView>, i: int)
    requires
        0 <= i,
    ensures
        0 <= locate(groups, i).0 <= groups.len(),
        locate(groups, i).0 < groups.len() <==> i < flat_ops(groups).len(),
        locate(groups, i).0 < groups.len() ==> 0 <= locate(groups, i).1 < groups[locate(
            groups,
            i,
        ).0].ops.len() && flat_ops(groups)[i] == groups[locate(groups, i).0].ops[locate(
            groups,
            i,
        ).1],
    decreases groups.len(),
{
    if groups.len() > 0 {
        lemma_flat_ops_front(groups);
        if i >= groups[0].ops.len() {
            lemma_locate(groups.skip(1), i - groups[0].ops.len());
            let (g, offset) = locate(groups.skip(1), i - groups[0].ops.len());
            if g < groups.skip(1).len() {
                assert(groups.skip(1)[g] == groups[g + 1]);
            }
        }
    }
}

/// The operations of the groups are those of the first group followed by
/// those of the others.
pub proof fn lemma_flat_ops_front(groups: Seq<GroupView>)
    requires
        groups.len() > 0,
    ensures
        flat_ops(groups) == groups[0].ops + flat_ops(groups.skip(1)),
    decreases groups.len(),
{
    if groups.len() == 1 {
        assert(groups.drop_last() =~= Seq::<GroupView>::empty());
        assert(groups.skip(1) =~= Seq::<GroupView>::empty());
        assert(flat_ops(groups) =~= groups[0].ops + flat_ops(groups.skip(1)));
    } else {
        lemma_flat_ops_front(groups.drop_last());
        assert(groups.drop_last().skip(1) =~= groups.skip(1).drop_last());
        assert(groups.drop_last()[0] == groups[0]);
        assert(groups.skip(1).last() == groups.last());
        assert(flat_ops(groups) =~= groups[0].ops + flat_ops(groups.skip(1)));
    }
}

/// The proposal after the operation with the flat index `i` was rejected,
/// and the aggregator whose signature no longer holds. The operation joins
/// the rejected ones; a group left without operations goes. An index past
/// the last operation changes nothing.
pub open spec fn after_reject_index(context: ContextView, i: int) -> (ContextView, Option<Address>) {
    let (g, offset) = locate(context.groups, i);
    if g >= context.groups.len() {
        (context, None)
    } else {
        let group = context.groups[g];
        let rejected_ops = context.rejected_ops.push(group.ops[offset].op);
        let rest = group.ops.remove(offset);
        if rest.len() == 0 {
            (ContextView { groups: context.groups.remove(g), rejected_ops, ..context }, None)
        } else {
            (
                ContextView {
                    groups: context.groups.update(g, GroupView { ops: rest, ..group }),
                    rejected_ops,
                    ..context
                },
                group.aggregator,
            )
        }
    }
}

/// True when the operation takes part with this entity as its paymaster or
/// its factory.
pub open spec fn uses_entity(op: UserOperation, kind: EntityType, address: Address) -> bool {
    match kind {
        EntityType::Paymaster => op@.paymaster() == Some(address),
        EntityType::Factory => op@.factory() == Some(address),
        _ => false,
    }
}

/// The operations that do not use the entity, in order.
pub open spec fn ops_without_entity(ops: Seq<OpWithSimulation>, kind: EntityType, address: Address) -> Seq<
    OpWithSimulation,
>
    decreases ops.len(),
{
    if ops.len() == 0 {
        Seq::empty()
    } else if uses_entity(ops[0].op, kind, address) {
        ops_without_entity(ops.skip(1), kind, address)
    } else {
        seq![ops[0]] + ops_without_entity(ops.skip(1), kind, address)
    }
}

/// The groups without the operations that use the entity; a group left
/// without operations goes.
pub open spec fn groups_without_entity(groups: Seq<GroupView>, kind: EntityType, address: Address) -> Seq<
    GroupView,
>
    decreases groups.len(),
{
    if groups.len() == 0 {
        Seq::empty()
    } else {
        let before = groups_without_entity(groups.drop_last(), kind, address);
        let rest = ops_without_entity(groups.last().ops, kind, address);
        if rest.len() == 0 {
            before
        } else {
            before.push(GroupView { ops: rest, ..groups.last() })
        }
    }
}

/// The aggregators of the groups that lost an operation that uses the
/// entity and still hold one, in group order.
pub open spec fn aggregators_changed_by(groups: Seq<GroupView>, kind: EntityType, address: Address) -> Seq<
    Address,
>
    decreases groups.len(),
{
    if groups.len() == 0 {
        Seq::empty()
    } else {
        let before = aggregators_changed_by(groups.drop_last(), kind, address);
        let rest = ops_without_entity(groups.last().ops, kind, address);
        if rest.len() != 0 && rest.len() != groups.last().ops.len() && groups.last().aggregator is Some {
            before.push(groups.last().aggregator->0)
        } else {
            before
        }
    }
}

/// The proposal after the entity was rejected, and the aggregators whose
/// signatures no longer hold. The entity joins the rejected ones. An
/// aggregator loses its group; a paymaster or a factory loses the operations
/// that use it.
pub open spec fn after_reject_entity(context: ContextView, entity: Entity) -> (ContextView, Seq<Address>) {
    let rejected_entities = context.rejected_entities.push(entity);
    match entity.kind {
        EntityType::Aggregator => (
            ContextView {
                groups: without_group(context.groups, Some(entity.address)),
                rejected_entities,
                ..context
            },
            Seq::empty(),
        ),
        EntityType::Paymaster | EntityType::Factory => (
            ContextView {
                groups: groups_without_entity(context.groups, entity.kind, entity.address),
                rejected_entities,
                ..context
            },
            aggregators_changed_by(context.groups, entity.kind, entity.address),
        ),
        EntityType::Account => (ContextView { rejected_entities, ..context }, Seq::empty()),
    }
}

/// What `ops_without_entity` keeps is no longer than what it is given, and
/// the same where it is as long.
pub proof fn lemma_ops_without_entity(ops: Seq<OpWithSimulation>, kind: EntityType, address: Address)
    ensures
        ops_without_entity(ops, kind, address).len() <= ops.len(),
        ops_without_entity(ops, kind, address).len() == ops.len() ==> ops_without_entity(
            ops,
            kind,
            address,
        ) == ops,
    decreases ops.len(),
{
    if ops.len() > 0 {
        lemma_ops_without_entity(ops.skip(1), kind, address);
        if !uses_entity(ops[0].op, kind, address) && ops_without_entity(ops, kind, address).len()
            == ops.len() {
            assert(ops =~= seq![ops[0]] + ops.skip(1));
        }
    }
}

/// How an aggregator answered the request for a signature over its group.
#[derive(Clone, Debug, PartialEq, Eq)]
pub enum AggregationResult {
    /// The signature over the operations of the group.
    Signature(Vec<u8>),
    /// The aggregator gives no signature for these operations.
    Refused,
    /// The request could not be made.
    Failed,
}

/// The proposal after an aggregator answered. A signature goes to the
/// aggregator's group. An aggregator that gives none is rejected with its
/// group. Where the request could not be made the group goes, and the
/// aggregator is not held to account.
pub open spec fn after_aggregation(
    context: ContextView,
    aggregator: Address,
    result: AggregationResult,
) -> ContextView {
    let k = group_index(context.groups, Some(aggregator));
    match result {
        AggregationResult::Signature(signature) => if k < context.groups.len() {
            ContextView {
                groups: context.groups.update(
                    k,
                    GroupView { signature: signature@, ..context.groups[k] },
                ),
                ..context
            }
        } else {
            context
        },
        AggregationResult::Refused => after_reject_entity(
            context,
            Entity { kind: EntityType::Aggregator, address: aggregator },
        ).0,
        AggregationResult::Failed => ContextView {
            groups: without_group(context.groups, Some(aggregator)),
            ..context
        },
    }
}

/// The operations of one aggregator as they go to the entry point, as a
/// mathematical value.
pub struct UserOpsPerAggregatorView {
    pub user_ops: Seq<UserOperationView>,
    pub aggregator: Address,
    pub signature: Seq<u8>,
}

impl View for UserOpsPerAggregator {
    type V = UserOpsPerAggregatorView;

    open spec fn view(&self) -> UserOpsPerAggregatorView {
        UserOpsPerAggregatorView {
            user_ops: self.user_ops@.map_values(|op: UserOperation| op@),
            aggregator: self.aggregator,
            signature: self.signature@,
        }
    }
}

/// A group as it goes to the entry point: each operation carries the
/// signature its simulation gave for it, and the zero address stands for no
/// aggregator.
pub open spec fn group_for_entry_point(group: GroupView) -> UserOpsPerAggregatorView {
    UserOpsPerAggregatorView {
        user_ops: group.ops.map_values(|op: OpWithSimulation| op.replaced_sig()),
        aggregator: match group.aggregator {
            Some(aggregator) => aggregator,
            None => zero_address(),
        },
        signature: group.signature,
    }
}

/// The groups as they go to the entry point, in group order.
pub open spec fn groups_for_entry_point(groups: Seq<GroupView>) -> Seq<UserOpsPerAggregatorView> {
    groups.map_values(|group: GroupView| group_for_entry_point(group))
}

/// The bundle's groups, each as a mathematical value.
pub open spec fn ops_per_aggregator_views(out: Seq<UserOpsPerAggregator>) -> Seq<
    UserOpsPerAggregatorView,
> {
    out.map_values(|group: UserOpsPerAggregator| group@)
}

/// A request for an aggregator's signature over its operations.
#[derive(Clone, Debug, PartialEq, Eq)]
pub struct SignatureRequest {
    pub aggregator: Address,
    pub ops: Vec<UserOperation>,
}

/// True when `requests` ask, in the order of `aggregators`, for the
/// signature of each aggregator that has a group, over the operations of
/// that group as the pool gave them.
pub open spec fn requests_match(
    groups: Seq<GroupView>,
    aggregators: Seq<Address>,
    requests: Seq<SignatureRequest>,
) -> bool {
    &&& requests.map_values(|r: SignatureRequest| r.aggregator) == aggregators.filter(
        |a: Address| group_index(groups, Some(a)) < groups.len(),
    )
    &&& forall|i: int|
        0 <= i < requests.len() ==> (#[trigger] requests[i]).ops@.map_values(
            |op: UserOperation| op@,
        ) == groups[group_index(groups, Some(requests[i].aggregator))].ops.map_values(
            |op: OpWithSimulation| op.op@,
        )
}

/// The aggregators of the groups that have one, in group order.
pub open spec fn aggregators_of(groups: Seq<GroupView>) -> Seq<Address>
    decreases groups.len(),
{
    if groups.len() == 0 {
        Seq::empty()
    } else {
        match groups.last().aggregator {
            Some(aggregator) => aggregators_of(groups.drop_last()).push(aggregator),
            None => aggregators_of(groups.drop_last()),
        }
    }
}

/// The proposal as it goes through its rounds: much the same data as what is
/// handed to the entry point in the end, with what the rounds need besides.
#[derive(Debug)]
pub struct ProposalContext {
    groups_by_aggregator: LinkedHashMap<Option<Address>, AggregatorGroup>,
    rejected_ops: Vec<UserOperation>,
    rejected_entities: Vec<Entity>,
}

impl View for ProposalContext {
    type V = ContextView;

    closed spec fn view(&self) -> ContextView {
        ContextView {
            groups: group_views(groups_of(self.groups_by_aggregator)),
            rejected_ops: self.rejected_ops@,
            rejected_entities: self.rejected_entities@,
        }
    }
}

impl ProposalContext {
    /// A proposal without groups and without rejections.
    pub fn new() -> (context: ProposalContext)
        ensures
            context@.groups.len() == 0,
            context@.rejected_ops.len() == 0,
            context@.rejected_entities.len() == 0,
            groups_wf(context@.groups),
    {
        ProposalContext {
            groups_by_aggregator: groups_new(),
            rejected_ops: Vec::new(),
            rejected_entities: Vec::new(),
        }
    }

    /// Whether no group is left.
    pub fn is_empty(&self) -> (r: bool)
        ensures
            r == (self@.groups.len() == 0),
    {
        groups_len(&self.groups_by_aggregator) == 0
    }

    /// The operations that were rejected, in the order they were.
    pub fn rejected_ops(&self) -> (ops: &Vec<UserOperation>)
        ensures
            ops@ == self@.rejected_ops,
    {
        &self.rejected_ops
    }

    /// The entities that were rejected, in the order they were.
    pub fn rejected_entities(&self) -> (entities: &Vec<Entity>)
        ensures
            entities@ == self@.rejected_entities,
    {
        &self.rejected_entities
    }

    /// The aggregators of the groups, in group order.
    fn keys(&self) -> (keys: Vec<Option<Address>>)
        ensures
            keys@.len() == self@.groups.len(),
            forall|k: int| 0 <= k < keys@.len() ==> #[trigger] keys@[k] == self@.groups[k].aggregator,
    {
        groups_keys(&self.groups_by_aggregator)
    }

    /// The group at place `k`, given its aggregator.
    fn group_at(&self, key: &Option<Address>, Ghost(k): Ghost<int>) -> (group: &AggregatorGroup)
        requires
            distinct_aggregators(self@.groups),
            0 <= k < self@.groups.len(),
            self@.groups[k].aggregator == *key,
        ensures
            group.ops_with_simulations@ == self@.groups[k].ops,
            group.signature@ == self@.groups[k].signature,
    {
        proof {
            lemma_position_is_group_index(groups_of(self.groups_by_aggregator), *key);
            lemma_group_index_of_own(self@.groups, k);
        }
        match groups_get(&self.groups_by_aggregator, key) {
            Some(group) => group,
            None => vstd::pervasive::unreached(),
        }
    }
    /// Takes the group at place `k` out for a change, leaving an empty group
    /// in its place.
    fn take_group(&mut self, key: &Option<Address>, Ghost(k): Ghost<int>) -> (group:
        AggregatorGroup)
        requires
            distinct_aggregators(old(self)@.groups),
            0 <= k < old(self)@.groups.len(),
            old(self)@.groups[k].aggregator == *key,
        ensures
            group.ops_with_simulations@ == old(self)@.groups[k].ops,
            group.signature@ == old(self)@.groups[k].signature,
            final(self)@ == (ContextView {
                groups: old(self)@.groups.update(
                    k,
                    GroupView { aggregator: *key, ops: Seq::empty(), signature: Seq::empty() },
                ),
                ..old(self)@
            }),
    {
        proof {
            lemma_position_is_group_index(groups_of(self.groups_by_aggregator), *key);
            lemma_group_index_of_own(self@.groups, k);
        }
        let ghost entries = groups_of(self.groups_by_aggregator);
        let placeholder = AggregatorGroup {
            ops_with_simulations: Vec::new(),
            signature: Vec::new(),
        };
        let group = groups_replace(&mut self.groups_by_aggregator, key, placeholder);
        proof {
            assert(group_views(entries.update(k, (*key, placeholder))) =~= group_views(
                entries,
            ).update(
                k,
                GroupView { aggregator: *key, ops: Seq::empty(), signature: Seq::empty() },
            ));
        }
        group
    }

    /// Puts `group` in place `k`.
    fn put_group(&mut self, key: &Option<Address>, group: AggregatorGroup, Ghost(k): Ghost<int>)
        requires
            distinct_aggregators(old(self)@.groups),
            0 <= k < old(self)@.groups.len(),
            old(self)@.groups[k].aggregator == *key,
        ensures
            final(self)@ == (ContextView {
                groups: old(self)@.groups.update(
                    k,
                    GroupView {
                        aggregator: *key,
                        ops: group.ops_with_simulations@,
                        signature: group.signature@,
                    },
                ),
                ..old(self)@
            }),
    {
        proof {
            lemma_position_is_group_index(groups_of(self.groups_by_aggregator), *key);
            lemma_group_index_of_own(self@.groups, k);
        }
        let ghost entries = groups_of(self.groups_by_aggregator);
        let _ = groups_replace(&mut self.groups_by_aggregator, key, group);
        proof {
            assert(group_views(entries.update(k, (*key, group))) =~= group_views(entries).update(
                k,
                GroupView {
                    aggregator: *key,
                    ops: group.ops_with_simulations@,
                    signature: group.signature@,
                },
            ));
        }
    }

    /// Takes the group with this aggregator out of the proposal, if there is one.
    fn remove_group(&mut self, key: &Option<Address>)
        ensures
            final(self)@ == (ContextView {
                groups: without_group(old(self)@.groups, *key),
                ..old(self)@
            }),
    {
        proof {
            lemma_position_is_group_index(groups_of(self.groups_by_aggregator), *key);
            lemma_group_index(self@.groups, *key);
        }
        let ghost entries = groups_of(self.groups_by_aggregator);
        let _ = groups_remove(&mut self.groups_by_aggregator, key);
        proof {
            let at = position_of(entries, *key);
            if at < entries.len() {
                assert(group_views(entries.remove(at)) =~= group_views(entries).remove(at));
            }
        }
    }

    /// Adds an operation to the group of its aggregator; a group that is not
    /// there yet comes last.
    pub fn push_op(&mut self, aggregator: Option<Address>, op: OpWithSimulation)
        requires
            groups_wf(old(self)@.groups),
        ensures
            final(self)@ == (ContextView {
                groups: with_op(old(self)@.groups, aggregator, op),
                ..old(self)@
            }),
            groups_wf(final(self)@.groups),
    {
        proof {
            lemma_position_is_group_index(groups_of(self.groups_by_aggregator), aggregator);
            lemma_group_index(self@.groups, aggregator);
        }
        let ghost groups = self@.groups;
        let ghost k = group_index(groups, aggregator);
        let present = groups_get(&self.groups_by_aggregator, &aggregator).is_some();
        if present {
            let mut group = self.take_group(&aggregator, Ghost(k));
            group.ops_with_simulations.push(op);
            proof {
                let taken = groups.update(
                    k,
                    GroupView { aggregator, ops: Seq::empty(), signature: Seq::empty() },
                );
                assert(distinct_aggregators(taken));
                assert(taken.update(
                    k,
                    GroupView {
                        aggregator,
                        ops: group.ops_with_simulations@,
                        signature: group.signature@,
                    },
                ) =~= with_op(groups, aggregator, op));
            }
            self.put_group(&aggregator, group, Ghost(k));
        } else {
            let mut ops_with_simulations: Vec<OpWithSimulation> = Vec::new();
            ops_with_simulations.push(op);
            let group = AggregatorGroup { ops_with_simulations, signature: Vec::new() };
            let ghost entries = groups_of(self.groups_by_aggregator);
            let _ = groups_insert(&mut self.groups_by_aggregator, aggregator, group);
            proof {
                assert(group.ops_with_simulations@ =~= seq![op]);
                assert(group_views(entries.push((aggregator, group))) =~= group_views(
                    entries,
                ).push(
                    GroupView {
                        aggregator,
                        ops: group.ops_with_simulations@,
                        signature: group.signature@,
                    },
                ));
            }
        }
    }
    /// The operation that stands at `index` when the groups are laid end to
    /// end, as the entry point counts them.
    pub fn get_op_at(&self, index: usize) -> (r: Option<&UserOperation>)
        requires
            groups_wf(self@.groups),
        ensures
            r is Some <==> index < flat_ops(self@.groups).len(),
            r is Some ==> *r->0 == flat_ops(self@.groups)[index as int].op,
    {
        let keys = self.keys();
        let mut remaining_i = index;
        let mut k: usize = 0;
        let ghost groups = self@.groups;
        assert(groups.take(0) =~= Seq::<GroupView>::empty());
        while k < keys.len()
            invariant
                k <= keys@.len(),
                keys@.len() == groups.len(),
                groups == self@.groups,
                groups_wf(groups),
                forall|j: int| 0 <= j < keys@.len() ==> #[trigger] keys@[j] == groups[j].aggregator,
                index == flat_ops(groups.take(k as int)).len() + remaining_i,
            decreases keys@.len() - k,
        {
            let group = self.group_at(&keys[k], Ghost(k as int));
            proof {
                lemma_flat_ops_take(groups, k as int);
            }
            if remaining_i < group.ops_with_simulations.len() {
                proof {
                    lemma_flat_ops_index(groups, k as int, remaining_i as int);
                }
                return Some(&group.ops_with_simulations[remaining_i].op);
            }
            remaining_i -= group.ops_with_simulations.len();
            k += 1;
        }
        assert(groups.take(k as int) =~= groups);
        None
    }

    /// Rejects the operation that stands at `i` when the groups are laid end
    /// to end. Returns the aggregator of its group where that group still
    /// holds operations, so that its signature can be made anew.
    pub fn reject_index(&mut self, i: usize) -> (changed: Option<Address>)
        requires
            groups_wf(old(self)@.groups),
        ensures
            (final(self)@, changed) == after_reject_index(old(self)@, i as int),
            groups_wf(final(self)@.groups),
    {
        let keys = self.keys();
        let mut remaining_i = i;
        let mut k: usize = 0;
        let ghost before = self@;
        let ghost groups = self@.groups;
        proof {
            assert(groups.skip(0) =~= groups);
        }
        while k < keys.len()
            invariant
                k <= keys@.len(),
                keys@.len() == groups.len(),
                self@ == before,
                before == old(self)@,
                groups == before.groups,
                groups_wf(groups),
                forall|j: int| 0 <= j < keys@.len() ==> #[trigger] keys@[j] == groups[j].aggregator,
                locate(groups, i as int) == (
                    k + locate(groups.skip(k as int), remaining_i as int).0,
                    locate(groups.skip(k as int), remaining_i as int).1,
                ),
            decreases keys@.len() - k,
        {
            let key = keys[k];
            let len = self.group_at(&key, Ghost(k as int)).ops_with_simulations.len();
            proof {
                assert(groups.skip(k as int)[0] == groups[k as int]);
                assert(groups.skip(k as int).skip(1) =~= groups.skip(k + 1));
            }
            if remaining_i < len {
                assert(locate(groups, i as int) == (k as int, remaining_i as int));
                let ghost group_ops = groups[k as int].ops;
                let mut group = self.take_group(&key, Ghost(k as int));
                let rejected = group.ops_with_simulations.remove(remaining_i);
                assert(rejected == group_ops[remaining_i as int]);
                assert(group.ops_with_simulations@ == group_ops.remove(remaining_i as int));
                self.rejected_ops.push(rejected.op);
                assert(self@.rejected_ops == before.rejected_ops.push(
                    group_ops[remaining_i as int].op,
                ));
                let ghost taken = groups.update(
                    k as int,
                    GroupView { aggregator: key, ops: Seq::empty(), signature: Seq::empty() },
                );
                assert(distinct_aggregators(taken));
                if group.ops_with_simulations.len() == 0 {
                    proof {
                        lemma_group_index_of_own(taken, k as int);
                        assert(taken.remove(k as int) =~= groups.remove(k as int));
                    }
                    self.remove_group(&key);
                    proof {
                        assert(self@.groups =~= groups.remove(k as int));
                        assert(self@.rejected_entities == before.rejected_entities);
                        assert(self@ == after_reject_index(before, i as int).0);
                    }
                    return None;
                } else {
                    proof {
                        assert(taken.update(
                            k as int,
                            GroupView {
                                aggregator: key,
                                ops: group.ops_with_simulations@,
                                signature: group.signature@,
                            },
                        ) =~= groups.update(
                            k as int,
                            GroupView { ops: groups[k as int].ops.remove(remaining_i as int), ..groups[k as int] },
                        ));
                    }
                    self.put_group(&key, group, Ghost(k as int));
                    proof {
                        assert(self@.groups =~= groups.update(
                            k as int,
                            GroupView {
                                ops: group_ops.remove(remaining_i as int),
                                ..groups[k as int]
                            },
                        ));
                        assert(self@ == after_reject_index(before, i as int).0);
                    }
                    return key;
                }
            }
            remaining_i -= len;
            k += 1;
        }
        proof {
            assert(groups.skip(k as int) =~= Seq::<GroupView>::empty());
        }
        None
    }

    /// Takes the operations that use the entity out of every group; a group
    /// left without operations goes. Returns the aggregators of the groups
    /// that lost an operation and still hold one.
    fn filter_reject(&mut self, kind: EntityType, address: Address) -> (changed: Vec<Address>)
        requires
            groups_wf(old(self)@.groups),
        ensures
            final(self)@ == (ContextView {
                groups: groups_without_entity(old(self)@.groups, kind, address),
                ..old(self)@
            }),
            changed@ == aggregators_changed_by(old(self)@.groups, kind, address),
            groups_wf(final(self)@.groups),
    {
        let keys = self.keys();
        let mut changed_aggregators: Vec<Address> = Vec::new();
        let mut k: usize = 0;
        let ghost before = self@;
        let ghost groups = self@.groups;
        proof {
            assert(groups.take(0) =~= Seq::<GroupView>::empty());
            assert(groups.skip(0) =~= groups);
            assert(groups_without_entity(groups.take(0), kind, address) + groups.skip(0) =~= groups);
        }
        while k < keys.len()
            invariant
                k <= keys@.len(),
                keys@.len() == groups.len(),
                before == old(self)@,
                groups == before.groups,
                groups_wf(groups),
                forall|j: int| 0 <= j < keys@.len() ==> #[trigger] keys@[j] == groups[j].aggregator,
                self@ == (ContextView {
                    groups: groups_without_entity(groups.take(k as int), kind, address)
                        + groups.skip(k as int),
                    ..before
                }),
                changed_aggregators@ == aggregators_changed_by(groups.take(k as int), kind, address),
                groups_wf(groups_without_entity(groups.take(k as int), kind, address)),
                forall|a: int|
                    0 <= a < groups_without_entity(groups.take(k as int), kind, address).len()
                        ==> exists|b: int|
                        0 <= b < k && groups[b].aggregator == (#[trigger] groups_without_entity(
                            groups.take(k as int),
                            kind,
                            address,
                        )[a]).aggregator,
            decreases keys@.len() - k,
        {
            let key = keys[k];
            let ghost done = groups_without_entity(groups.take(k as int), kind, address);
            let ghost current = done + groups.skip(k as int);
            let ghost at = done.len() as int;
            proof {
                assert(current[at] == groups[k as int]);
                assert(distinct_aggregators(current)) by {
                    assert forall|i: int, j: int|
                        0 <= i < current.len() && 0 <= j < current.len() && i != j implies (
                    #[trigger] current[i]).aggregator != (#[trigger] current[j]).aggregator by {
                        if i < at && j >= at {
                            let b = choose|b: int|
                                0 <= b < k && groups[b].aggregator == done[i].aggregator;
                            assert(current[j] == groups[j - at + k]);
                        } else if j < at && i >= at {
                            let b = choose|b: int|
                                0 <= b < k && groups[b].aggregator == done[j].aggregator;
                            assert(current[i] == groups[i - at + k]);
                        } else if i >= at && j >= at {
                            assert(current[i] == groups[i - at + k]);
                            assert(current[j] == groups[j - at + k]);
                        }
                    }
                }
                assert(groups.take(k + 1).drop_last() =~= groups.take(k as int));
                assert(groups.take(k + 1).last() == groups[k as int]);
                lemma_ops_without_entity(groups[k as int].ops, kind, address);
            }
            let mut group = self.take_group(&key, Ghost(at));
            let had = group.ops_with_simulations.len();
            retain_ops_without_entity(&mut group.ops_with_simulations, kind, address);
            let ghost taken = current.update(
                at,
                GroupView { aggregator: key, ops: Seq::empty(), signature: Seq::empty() },
            );
            assert(distinct_aggregators(taken));
            let ghost next = groups_without_entity(groups.take(k + 1), kind, address);
            if group.ops_with_simulations.len() == 0 {
                proof {
                    lemma_group_index_of_own(taken, at);
                    assert(taken.remove(at) =~= next + groups.skip(k + 1));
                }
                self.remove_group(&key);
            } else {
                if group.ops_with_simulations.len() != had {
                    if let Some(aggregator) = key {
                        changed_aggregators.push(aggregator);
                    }
                }
                proof {
                    assert(taken.update(
                        at,
                        GroupView {
                            aggregator: key,
                            ops: group.ops_with_simulations@,
                            signature: group.signature@,
                        },
                    ) =~= next + groups.skip(k + 1));
                }
                self.put_group(&key, group, Ghost(at));
            }
            proof {
                assert forall|a: int| 0 <= a < next.len() implies exists|b: int|
                    0 <= b < k + 1 && groups[b].aggregator == (#[trigger] next[a]).aggregator by {
                    if a < done.len() {
                        let b = choose|b: int|
                            0 <= b < k && groups[b].aggregator == done[a].aggregator;
                        assert(next[a] == done[a]);
                        assert(0 <= b < k + 1 && groups[b].aggregator == next[a].aggregator);
                    } else {
                        assert(groups[k as int].aggregator == next[a].aggregator);
                    }
                }
                assert(distinct_aggregators(next)) by {
                    assert forall|i: int, j: int|
                        0 <= i < next.len() && 0 <= j < next.len() && i != j implies (
                    #[trigger] next[i]).aggregator != (#[trigger] next[j]).aggregator by {
                        if i < done.len() && j < done.len() {
                            assert(next[i] == done[i] && next[j] == done[j]);
                        } else if i < done.len() {
                            let b = choose|b: int|
                                0 <= b < k && groups[b].aggregator == done[i].aggregator;
                            assert(next[i] == done[i]);
                        } else if j < done.len() {
                            let b = choose|b: int|
                                0 <= b < k && groups[b].aggregator == done[j].aggregator;
                            assert(next[j] == done[j]);
                        }
                    }
                }
            }
            k += 1;
        }
        proof {
            assert(groups.take(k as int) =~= groups);
            assert(groups.skip(k as int) =~= Seq::<GroupView>::empty());
            assert(groups_without_entity(groups, kind, address) + groups.skip(k as int)
                =~= groups_without_entity(groups, kind, address));
        }
        changed_aggregators
    }

    /// Rejects an entity. An aggregator loses its group; a paymaster or a
    /// factory loses the operations that use it. Returns the aggregators of
    /// the groups whose signatures no longer hold.
    pub fn reject_entity(&mut self, entity: Entity) -> (changed: Vec<Address>)
        requires
            groups_wf(old(self)@.groups),
        ensures
            final(self)@ == after_reject_entity(old(self)@, entity).0,
            changed@ == after_reject_entity(old(self)@, entity).1,
            groups_wf(final(self)@.groups),
    {
        let ghost groups = self@.groups;
        let changed = match entity.kind {
            EntityType::Aggregator => {
                proof {
                    lemma_group_index(groups, Some(entity.address));
                }
                self.remove_group(&Some(entity.address));
                Vec::new()
            },
            EntityType::Paymaster => self.filter_reject(EntityType::Paymaster, entity.address),
            EntityType::Factory => self.filter_reject(EntityType::Factory, entity.address),
            EntityType::Account => Vec::new(),
        };
        self.rejected_entities.push(entity);
        changed
    }
    /// Takes an aggregator's answer to the request for a signature.
    pub fn apply_aggregation_signature_result(
        &mut self,
        aggregator: Address,
        result: AggregationResult,
    )
        requires
            groups_wf(old(self)@.groups),
        ensures
            final(self)@ == after_aggregation(old(self)@, aggregator, result),
            groups_wf(final(self)@.groups),
    {
        let key = Some(aggregator);
        let ghost groups = self@.groups;
        let ghost k = group_index(groups, key);
        proof {
            lemma_position_is_group_index(groups_of(self.groups_by_aggregator), key);
            lemma_group_index(groups, key);
        }
        match result {
            AggregationResult::Signature(signature) => {
                if groups_get(&self.groups_by_aggregator, &key).is_some() {
                    let mut group = self.take_group(&key, Ghost(k));
                    group.signature = signature;
                    proof {
                        let taken = groups.update(
                            k,
                            GroupView { aggregator: key, ops: Seq::empty(), signature: Seq::empty() },
                        );
                        assert(distinct_aggregators(taken));
                        assert(taken.update(
                            k,
                            GroupView {
                                aggregator: key,
                                ops: group.ops_with_simulations@,
                                signature: group.signature@,
                            },
                        ) =~= groups.update(k, GroupView { signature: signature@, ..groups[k] }));
                    }
                    self.put_group(&key, group, Ghost(k));
                }
            },
            AggregationResult::Refused => {
                let _ = self.reject_entity(Entity::aggregator(aggregator));
            },
            AggregationResult::Failed => {
                self.remove_group(&key);
            },
        }
    }

    /// The requests for the signatures of these aggregators, one for each
    /// that has a group.
    pub fn signature_requests(&self, aggregators: &Vec<Address>) -> (requests: Vec<
        SignatureRequest,
    >)
        requires
            groups_wf(self@.groups),
        ensures
            requests_match(self@.groups, aggregators@, requests@),
    {
        let mut requests: Vec<SignatureRequest> = Vec::new();
        let mut i: usize = 0;
        let ghost groups = self@.groups;
        let ghost present = |a: Address| group_index(groups, Some(a)) < groups.len();
        proof {
            assert(aggregators@.take(0) =~= Seq::<Address>::empty());
            assert(aggregators@.take(0).filter(present) =~= Seq::<Address>::empty()) by {
                reveal(Seq::filter);
            }
        }
        while i < aggregators.len()
            invariant
                i <= aggregators@.len(),
                groups == self@.groups,
                groups_wf(groups),
                present == (|a: Address| group_index(groups, Some(a)) < groups.len()),
                requests@.map_values(|r: SignatureRequest| r.aggregator) == aggregators@.take(
                    i as int,
                ).filter(present),
                forall|j: int|
                    0 <= j < requests@.len() ==> (#[trigger] requests@[j]).ops@.map_values(
                        |op: UserOperation| op@,
                    ) == groups[group_index(groups, Some(requests@[j].aggregator))].ops.map_values(
                        |op: OpWithSimulation| op.op@,
                    ),
            decreases aggregators@.len() - i,
        {
            let aggregator = aggregators[i];
            let key = Some(aggregator);
            let ghost k = group_index(groups, key);
            let ghost asked = requests@;
            proof {
                lemma_position_is_group_index(groups_of(self.groups_by_aggregator), key);
                lemma_group_index(groups, key);
                assert(aggregators@.take(i + 1).drop_last() =~= aggregators@.take(i as int));
                assert(aggregators@.take(i + 1).last() == aggregator);
                reveal(Seq::filter);
            }
            if groups_get(&self.groups_by_aggregator, &key).is_some() {
                let group = self.group_at(&key, Ghost(k));
                let mut ops: Vec<UserOperation> = Vec::new();
                let mut j: usize = 0;
                while j < group.ops_with_simulations.len()
                    invariant
                        j <= group.ops_with_simulations@.len(),
                        ops@.len() == j,
                        forall|n: int|
                            0 <= n < j ==> (#[trigger] ops@[n])@
                                == group.ops_with_simulations@[n].op@,
                    decreases group.ops_with_simulations@.len() - j,
                {
                    ops.push(group.ops_with_simulations[j].op.duplicate());
                    j += 1;
                }
                assert(ops@.map_values(|op: UserOperation| op@)
                    =~= group.ops_with_simulations@.map_values(|op: OpWithSimulation| op.op@));
                let request = SignatureRequest { aggregator, ops };
                requests.push(request);
                proof {
                    assert(requests@.map_values(|r: SignatureRequest| r.aggregator)
                        =~= asked.map_values(|r: SignatureRequest| r.aggregator).push(aggregator));
                    assert forall|n: int| 0 <= n < requests@.len() implies (
                    #[trigger] requests@[n]).ops@.map_values(|op: UserOperation| op@)
                        == groups[group_index(
                        groups,
                        Some(requests@[n].aggregator),
                    )].ops.map_values(|op: OpWithSimulation| op.op@) by {
                        if n < asked.len() {
                            assert(requests@[n] == asked[n]);
                        }
                    }
                }
            }
            i += 1;
        }
        assert(aggregators@.take(i as int) =~= aggregators@);
        requests
    }

    /// The aggregators that have a group, in group order.
    pub fn aggregators(&self) -> (aggregators: Vec<Address>)
        ensures
            aggregators@ == aggregators_of(self@.groups),
    {
        let keys = self.keys();
        let mut aggregators: Vec<Address> = Vec::new();
        let mut k: usize = 0;
        let ghost groups = self@.groups;
        assert(groups.take(0) =~= Seq::<GroupView>::empty());
        while k < keys.len()
            invariant
                k <= keys@.len(),
                keys@.len() == groups.len(),
                forall|j: int| 0 <= j < keys@.len() ==> #[trigger] keys@[j] == groups[j].aggregator,
                aggregators@ == aggregators_of(groups.take(k as int)),
            decreases keys@.len() - k,
        {
            proof {
                assert(groups.take(k + 1).drop_last() =~= groups.take(k as int));
                assert(groups.take(k + 1).last() == groups[k as int]);
            }
            if let Some(aggregator) = keys[k] {
                aggregators.push(aggregator);
            }
            k += 1;
        }
        assert(groups.take(k as int) =~= groups);
        aggregators
    }

    /// The groups as they go to the entry point.
    pub fn to_ops_per_aggregator(&self) -> (out: Vec<UserOpsPerAggregator>)
        requires
            groups_wf(self@.groups),
        ensures
            ops_per_aggregator_views(out@) == groups_for_entry_point(self@.groups),
    {
        let keys = self.keys();
        let mut out: Vec<UserOpsPerAggregator> = Vec::new();
        let mut k: usize = 0;
        let ghost groups = self@.groups;
        while k < keys.len()
            invariant
                k <= keys@.len(),
                keys@.len() == groups.len(),
                groups == self@.groups,
                groups_wf(groups),
                forall|j: int| 0 <= j < keys@.len() ==> #[trigger] keys@[j] == groups[j].aggregator,
                out@.len() == k,
                forall|j: int| 0 <= j < k ==> (#[trigger] out@[j])@ == group_for_entry_point(groups[j]),
            decreases keys@.len() - k,
        {
            let key = keys[k];
            let group = self.group_at(&key, Ghost(k as int));
            let mut user_ops: Vec<UserOperation> = Vec::new();
            let mut j: usize = 0;
            while j < group.ops_with_simulations.len()
                invariant
                    j <= group.ops_with_simulations@.len(),
                    user_ops@.len() == j,
                    forall|n: int|
                        0 <= n < j ==> (#[trigger] user_ops@[n])@
                            == group.ops_with_simulations@[n].replaced_sig(),
                decreases group.ops_with_simulations@.len() - j,
            {
                user_ops.push(group.ops_with_simulations[j].op_with_replaced_sig());
                j += 1;
            }
            let aggregator = match key {
                Some(aggregator) => aggregator,
                None => Address::zero(),
            };
            let entry = UserOpsPerAggregator {
                user_ops,
                aggregator,
                signature: copy_bytes(&group.signature),
            };
            proof {
                assert(entry@.user_ops =~= group_for_entry_point(groups[k as int]).user_ops);
            }
            out.push(entry);
            k += 1;
        }
        assert(ops_per_aggregator_views(out@) =~= groups_for_entry_point(groups));
        out
    }
    /// Adds an operation to those that the pool is to reject.
    pub fn push_rejected_op(&mut self, op: UserOperation)
        ensures
            final(self)@ == (ContextView {
                rejected_ops: old(self)@.rejected_ops.push(op),
                ..old(self)@
            }),
    {
        self.rejected_ops.push(op);
    }
    /// Hands out the rejected operations and entities, leaving none behind.
    pub fn take_rejections(&mut self) -> (rejections: (Vec<UserOperation>, Vec<Entity>))
        ensures
            rejections.0@ == old(self)@.rejected_ops,
            rejections.1@ == old(self)@.rejected_entities,
            final(self)@ == (ContextView {
                rejected_ops: Seq::empty(),
                rejected_entities: Seq::empty(),
                ..old(self)@
            }),
    {
        let mut rejected_ops: Vec<UserOperation> = Vec::new();
        let mut rejected_entities: Vec<Entity> = Vec::new();
        std::mem::swap(&mut self.rejected_ops, &mut rejected_ops);
        std::mem::swap(&mut self.rejected_entities, &mut rejected_entities);
        (rejected_ops, rejected_entities)
    }
}

/// Takes the operations that use the entity out of `ops`; the others keep
/// their order.
fn retain_ops_without_entity(ops: &mut Vec<OpWithSimulation>, kind: EntityType, address: Address)
    ensures
        final(ops)@ == ops_without_entity(old(ops)@, kind, address),
{
    let ghost before = ops@;
    let mut j: usize = ops.len();
    proof {
        assert(before.skip(j as int) =~= Seq::<OpWithSimulation>::empty());
        assert(before.take(j as int) =~= before);
    }
    while j > 0
        invariant
            j <= before.len(),
            ops@ == before.take(j as int) + ops_without_entity(before.skip(j as int), kind, address),
        decreases j,
    {
        j -= 1;
        let uses = match kind {
            EntityType::Paymaster => ops[j].op.paymaster() == Some(address),
            EntityType::Factory => ops[j].op.factory() == Some(address),
            _ => false,
        };
        proof {
            assert(before.skip(j as int)[0] == before[j as int]);
            assert(before.skip(j as int).skip(1) =~= before.skip(j + 1));
            assert(uses == uses_entity(before[j as int].op, kind, address));
        }
        if uses {
            let _ = ops.remove(j);
            assert(ops@ =~= before.take(j as int) + ops_without_entity(
                before.skip(j as int),
                kind,
                address,
            ));
        } else {
            assert(ops@ =~= before.take(j as int) + ops_without_entity(
                before.skip(j as int),
                kind,
                address,
            ));
        }
    }
    assert(before.take(0) =~= Seq::<OpWithSimulation>::empty());
    assert(before.skip(0) =~= before);
}

} // verus!
