//! The RPC runtime: correlating replies to outbound requests, and the
//! sink-side construction of outbound messages.
//!
//! Sink handles register a waiter for a request identifier by queueing a
//! command; the runtime drains every pending command before it looks at
//! the next inbound message, so a reply that raced ahead of its
//! registration still reaches its waiter.  Waiters are named by plain
//! tokens here; the carrier and the task scheduling live outside the
//! library.

use vstd::prelude::*;
use crate::json::{JsonValue, SpecJson, view_json_entries, duplicate_entries};
use crate::mcp::{
    JSONRPCBatchResponse, JSONRPCError, JSONRPCMessage, JSONRPCNotification, JSONRPCRequest,
    JSONRPCResponse, JsonrpcBatchResponseItem, RequestId, SpecBatchResponseItem, SpecError,
    SpecId, SpecMessage, SpecNotification, SpecRequest, SpecResponse, spec_item_reply_id,
    view_resp_items,
};
use crate::mcp_codec::lemma_view_resp_items;

verus! {

/// A command a sink handle queues for the runtime: wait for the reply
/// to `request_id` and deliver it to `waiter`.
#[derive(Debug, PartialEq)]
pub enum Command {
    WaitResponse { request_id: RequestId, waiter: u64 },
}

/// Model of a command.
#[verifier::ext_equal]
pub ghost enum SpecCommand {
    WaitResponse { request_id: SpecId, waiter: u64 },
}

impl View for Command {
    type V = SpecCommand;

    open spec fn view(&self) -> SpecCommand {
        match self {
            Command::WaitResponse { request_id, waiter } => SpecCommand::WaitResponse {
                request_id: request_id@,
                waiter: *waiter,
            },
        }
    }
}

/// Model of a command list, element by element.
pub open spec fn view_commands(cs: Seq<Command>) -> Seq<SpecCommand>
    decreases cs,
{
    if cs.len() == 0 {
        Seq::empty()
    } else {
        seq![cs[0]@] + view_commands(cs.drop_first())
    }
}

/// One delivery: the reply for a registered waiter.
#[derive(Debug, PartialEq)]
pub struct Delivery {
    pub waiter: u64,
    pub outcome: Result<JSONRPCResponse, JSONRPCError>,
}

/// Model of a delivery.
#[verifier::ext_equal]
pub ghost struct SpecDelivery {
    pub waiter: u64,
    pub outcome: Result<SpecResponse, SpecError>,
}

impl View for Delivery {
    type V = SpecDelivery;

    open spec fn view(&self) -> SpecDelivery {
        SpecDelivery {
            waiter: self.waiter,
            outcome: match &self.outcome {
                Ok(r) => Ok(r@),
                Err(e) => Err(e@),
            },
        }
    }
}

/// Model of a delivery list, element by element.
pub open spec fn view_deliveries(ds: Seq<Delivery>) -> Seq<SpecDelivery>
    decreases ds,
{
    if ds.len() == 0 {
        Seq::empty()
    } else {
        seq![ds[0]@] + view_deliveries(ds.drop_first())
    }
}

/// The subscription table: request identifier to waiter, unique keys.
pub struct RPCRuntime {
    pub subscriptions: Vec<(RequestId, u64)>,
}

/// Model of the subscription table.
pub open spec fn view_subs(subs: Seq<(RequestId, u64)>) -> Seq<(SpecId, u64)>
    decreases subs,
{
    if subs.len() == 0 {
        Seq::empty()
    } else {
        seq![(subs[0].0@, subs[0].1)] + view_subs(subs.drop_first())
    }
}

impl View for RPCRuntime {
    type V = Seq<(SpecId, u64)>;

    open spec fn view(&self) -> Seq<(SpecId, u64)> {
        view_subs(self.subscriptions@)
    }
}

/// The waiter registered for an identifier, if any.
pub open spec fn spec_sub_lookup(subs: Seq<(SpecId, u64)>, id: SpecId) -> Option<u64>
    decreases subs,
{
    if subs.len() == 0 {
        None
    } else if subs[0].0 == id {
        Some(subs[0].1)
    } else {
        spec_sub_lookup(subs.drop_first(), id)
    }
}

/// Registration: a new waiter for an already-registered identifier
/// replaces the old one in place.
pub open spec fn spec_sub_insert(subs: Seq<(SpecId, u64)>, id: SpecId, w: u64) -> Seq<
    (SpecId, u64),
>
    decreases subs,
{
    if subs.len() == 0 {
        seq![(id, w)]
    } else if subs[0].0 == id {
        seq![(id, w)] + subs.drop_first()
    } else {
        seq![subs[0]] + spec_sub_insert(subs.drop_first(), id, w)
    }
}

/// Removal of the entry for an identifier, if present.
pub open spec fn spec_sub_remove(subs: Seq<(SpecId, u64)>, id: SpecId) -> Seq<(SpecId, u64)>
    decreases subs,
{
    if subs.len() == 0 {
        subs
    } else if subs[0].0 == id {
        subs.drop_first()
    } else {
        seq![subs[0]] + spec_sub_remove(subs.drop_first(), id)
    }
}

/// Registering a waiter makes it the one looked up for its identifier.
pub proof fn lemma_sub_insert_lookup(subs: Seq<(SpecId, u64)>, id: SpecId, w: u64)
    ensures
        spec_sub_lookup(spec_sub_insert(subs, id, w), id) == Some(w),
    decreases subs,
{
    let out = spec_sub_insert(subs, id, w);
    if subs.len() == 0 {
        assert(out[0] == (id, w));
    } else if subs[0].0 == id {
        assert(out[0] == (id, w));
    } else {
        lemma_sub_insert_lookup(subs.drop_first(), id, w);
        assert(out[0] == subs[0]);
        assert(out.drop_first() =~= spec_sub_insert(subs.drop_first(), id, w));
    }
}

/// The table after draining a command list, in order.
pub open spec fn spec_drain(subs: Seq<(SpecId, u64)>, cs: Seq<SpecCommand>) -> Seq<(SpecId, u64)>
    decreases cs,
{
    if cs.len() == 0 {
        subs
    } else {
        match cs[0] {
            SpecCommand::WaitResponse { request_id, waiter } => spec_drain(
                spec_sub_insert(subs, request_id, waiter),
                cs.drop_first(),
            ),
        }
    }
}

/// The table and deliveries after one reply — a top-level one, or one
/// element of a batched reply: the registered waiter, if any, leaves
/// the table and receives it.
pub open spec fn spec_deliver_item(subs: Seq<(SpecId, u64)>, item: SpecBatchResponseItem) -> (
    Seq<(SpecId, u64)>,
    Seq<SpecDelivery>,
) {
    match item {
        SpecBatchResponseItem::Response(r) => match spec_sub_lookup(subs, r.id) {
            Some(w) => (
                spec_sub_remove(subs, r.id),
                seq![SpecDelivery { waiter: w, outcome: Ok(r) }],
            ),
            None => (subs, Seq::empty()),
        },
        SpecBatchResponseItem::Error(e) => match spec_sub_lookup(subs, e.id) {
            Some(w) => (
                spec_sub_remove(subs, e.id),
                seq![SpecDelivery { waiter: w, outcome: Err(e) }],
            ),
            None => (subs, Seq::empty()),
        },
    }
}

/// A batched reply is correlated element by element, left to right;
/// its deliveries are the elements' deliveries, concatenated.
pub open spec fn spec_deliver_batch(
    subs: Seq<(SpecId, u64)>,
    items: Seq<SpecBatchResponseItem>,
) -> (Seq<(SpecId, u64)>, Seq<SpecDelivery>)
    decreases items,
{
    if items.len() == 0 {
        (subs, Seq::empty())
    } else {
        let head = spec_deliver_item(subs, items[0]);
        let rest = spec_deliver_batch(head.0, items.drop_first());
        (rest.0, head.1 + rest.1)
    }
}

/// The deliveries one inbound message causes, over a drained table,
/// and the table that remains.
pub open spec fn spec_deliver(subs: Seq<(SpecId, u64)>, m: SpecMessage) -> (
    Seq<(SpecId, u64)>,
    Seq<SpecDelivery>,
) {
    match m {
        SpecMessage::Response(r) => spec_deliver_item(subs, SpecBatchResponseItem::Response(r)),
        SpecMessage::Error(e) => spec_deliver_item(subs, SpecBatchResponseItem::Error(e)),
        SpecMessage::BatchResponse(items) => spec_deliver_batch(subs, items),
        _ => (subs, Seq::empty()),
    }
}

/// Draining a command list registers each named waiter: the command at
/// `k` stands registered afterwards, provided no later command named
/// the same identifier again.
pub proof fn lemma_drain_registers(subs: Seq<(SpecId, u64)>, cs: Seq<SpecCommand>, k: int)
    requires
        0 <= k < cs.len(),
        forall|j: int| k < j < cs.len() ==> (#[trigger] cs[j])->request_id != cs[k]->request_id,
    ensures
        spec_sub_lookup(spec_drain(subs, cs), cs[k]->request_id) == Some(cs[k]->waiter),
    decreases cs.len(),
{
    let subs1 = spec_sub_insert(subs, cs[0]->request_id, cs[0]->waiter);
    assert(forall|j: int| 0 <= j < cs.drop_first().len() ==> #[trigger] cs.drop_first()[j] == cs[j
        + 1]);
    if k == 0 {
        lemma_sub_insert_lookup(subs, cs[0]->request_id, cs[0]->waiter);
        lemma_drain_preserves_lookup(subs1, cs.drop_first(), cs[0]->request_id);
    } else {
        lemma_drain_registers(subs1, cs.drop_first(), k - 1);
    }
}

/// Correlation: a waiter registered by a command — even one drained in
/// the same step as the reply's arrival — receives that reply, provided
/// no later command re-registered the same identifier.
pub proof fn lemma_correlation(
    subs: Seq<(SpecId, u64)>,
    cs: Seq<SpecCommand>,
    k: int,
    r: SpecResponse,
)
    requires
        0 <= k < cs.len(),
        cs[k] matches SpecCommand::WaitResponse { request_id, waiter } && request_id == r.id,
        forall|j: int| k < j < cs.len() ==> (#[trigger] cs[j])->request_id != r.id,
    ensures
        ({
            let w = cs[k]->waiter;
            spec_deliver(spec_drain(subs, cs), SpecMessage::Response(r)).1 == seq![
                SpecDelivery { waiter: w, outcome: Ok(r) },
            ]
        }),
{
    lemma_drain_registers(subs, cs, k);
}

/// The outcome a batched reply element hands its waiter.
pub open spec fn spec_item_outcome(item: SpecBatchResponseItem) -> Result<
    SpecResponse,
    SpecError,
> {
    match item {
        SpecBatchResponseItem::Response(r) => Ok(r),
        SpecBatchResponseItem::Error(e) => Err(e),
    }
}

/// Removing one identifier leaves every other lookup unchanged.
pub proof fn lemma_sub_remove_other(subs: Seq<(SpecId, u64)>, id: SpecId, other: SpecId)
    requires
        id != other,
    ensures
        spec_sub_lookup(spec_sub_remove(subs, id), other) == spec_sub_lookup(subs, other),
    decreases subs,
{
    if subs.len() > 0 {
        if subs[0].0 == id {
        } else {
            let out = spec_sub_remove(subs, id);
            assert(out[0] == subs[0]);
            assert(out.drop_first() =~= spec_sub_remove(subs.drop_first(), id));
            lemma_sub_remove_other(subs.drop_first(), id, other);
        }
    }
}

/// One reply element leaves the lookup of every other identifier
/// unchanged.
pub proof fn lemma_deliver_item_other(
    subs: Seq<(SpecId, u64)>,
    item: SpecBatchResponseItem,
    other: SpecId,
)
    requires
        spec_item_reply_id(item) != other,
    ensures
        spec_sub_lookup(spec_deliver_item(subs, item).0, other) == spec_sub_lookup(subs, other),
{
    if spec_sub_lookup(subs, spec_item_reply_id(item)) is Some {
        lemma_sub_remove_other(subs, spec_item_reply_id(item), other);
    }
}

/// Correlation within a batched reply: the element that answers a
/// registered identifier delivers to its waiter, whatever elements
/// surround it, provided no earlier element answered the same
/// identifier.
pub proof fn lemma_batch_delivers(
    subs: Seq<(SpecId, u64)>,
    items: Seq<SpecBatchResponseItem>,
    j: int,
    w: u64,
)
    requires
        0 <= j < items.len(),
        spec_sub_lookup(subs, spec_item_reply_id(items[j])) == Some(w),
        forall|i: int|
            0 <= i < j ==> spec_item_reply_id(#[trigger] items[i]) != spec_item_reply_id(items[j]),
    ensures
        spec_deliver_batch(subs, items).1.contains(
            SpecDelivery { waiter: w, outcome: spec_item_outcome(items[j]) },
        ),
    decreases j,
{
    let head = spec_deliver_item(subs, items[0]);
    let rest = spec_deliver_batch(head.0, items.drop_first());
    let d = SpecDelivery { waiter: w, outcome: spec_item_outcome(items[j]) };
    if j == 0 {
        assert(head.1 == seq![d]);
        assert((head.1 + rest.1)[0] == d);
        assert((head.1 + rest.1).contains(d));
    } else {
        lemma_deliver_item_other(subs, items[0], spec_item_reply_id(items[j]));
        assert(forall|i: int| 0 <= i < items.drop_first().len() ==> #[trigger] items.drop_first()[
            i] == items[i + 1]);
        lemma_batch_delivers(head.0, items.drop_first(), j - 1, w);
        assert(rest.1.contains(d));
        let idx = choose|idx: int| 0 <= idx < rest.1.len() && rest.1[idx] == d;
        assert((head.1 + rest.1)[head.1.len() as int + idx] == d);
        assert((head.1 + rest.1).contains(d));
    }
}

/// Correlation through a batched reply, from registration: a waiter
/// registered by a command receives the batch element that answers its
/// identifier, provided no later command re-registered that identifier
/// and no earlier element of the batch answered it.
pub proof fn lemma_correlation_batch(
    subs: Seq<(SpecId, u64)>,
    cs: Seq<SpecCommand>,
    k: int,
    items: Seq<SpecBatchResponseItem>,
    j: int,
)
    requires
        0 <= k < cs.len(),
        0 <= j < items.len(),
        cs[k]->request_id == spec_item_reply_id(items[j]),
        forall|i: int|
            k < i < cs.len() ==> (#[trigger] cs[i])->request_id != spec_item_reply_id(items[j]),
        forall|i: int|
            0 <= i < j ==> spec_item_reply_id(#[trigger] items[i]) != spec_item_reply_id(items[j]),
    ensures
        spec_deliver(spec_drain(subs, cs), SpecMessage::BatchResponse(items)).1.contains(
            SpecDelivery { waiter: cs[k]->waiter, outcome: spec_item_outcome(items[j]) },
        ),
{
    lemma_drain_registers(subs, cs, k);
    lemma_batch_delivers(spec_drain(subs, cs), items, j, cs[k]->waiter);
}

/// A well-formed table: each identifier registered at most once.
pub open spec fn subs_unique(subs: Seq<(SpecId, u64)>) -> bool {
    forall|i: int, j: int|
        0 <= i < j < subs.len() ==> (#[trigger] subs[i]).0 != (#[trigger] subs[j]).0
}

/// A lookup misses when no entry carries the identifier.
pub proof fn lemma_lookup_absent(subs: Seq<(SpecId, u64)>, id: SpecId)
    requires
        forall|k: int| 0 <= k < subs.len() ==> (#[trigger] subs[k]).0 != id,
    ensures
        spec_sub_lookup(subs, id) is None,
    decreases subs,
{
    if subs.len() > 0 {
        assert(forall|k: int| 0 <= k < subs.drop_first().len() ==> #[trigger] subs.drop_first()[k]
            == subs[k + 1]);
        lemma_lookup_absent(subs.drop_first(), id);
    }
}

/// Removal, characterized by the first matching index.
pub proof fn lemma_sub_remove_at(subs: Seq<(SpecId, u64)>, id: SpecId, i: int)
    requires
        0 <= i <= subs.len(),
        forall|j: int| 0 <= j < i ==> (#[trigger] subs[j]).0 != id,
        i < subs.len() ==> subs[i].0 == id,
    ensures
        i < subs.len() ==> spec_sub_remove(subs, id) == subs.subrange(0, i) + subs.subrange(
            i + 1,
            subs.len() as int,
        ),
        i == subs.len() ==> spec_sub_remove(subs, id) == subs,
    decreases subs,
{
    if subs.len() == 0 {
    } else if subs[0].0 == id {
        assert(spec_sub_remove(subs, id) =~= subs.subrange(0, 0) + subs.subrange(
            1,
            subs.len() as int,
        ));
    } else {
        assert(forall|j: int| 0 <= j < subs.drop_first().len() ==> #[trigger] subs.drop_first()[j]
            == subs[j + 1]);
        lemma_sub_remove_at(subs.drop_first(), id, i - 1);
        if i < subs.len() {
            assert(spec_sub_remove(subs, id) =~= subs.subrange(0, i) + subs.subrange(
                i + 1,
                subs.len() as int,
            ));
        } else {
            assert(spec_sub_remove(subs, id) =~= subs);
        }
    }
}

/// Removal keeps a well-formed table well formed and leaves no entry
/// for the removed identifier.
pub proof fn lemma_remove_unique(subs: Seq<(SpecId, u64)>, id: SpecId)
    requires
        subs_unique(subs),
    ensures
        subs_unique(spec_sub_remove(subs, id)),
        spec_sub_lookup(spec_sub_remove(subs, id), id) is None,
{
    if exists|l: int| 0 <= l < subs.len() && (#[trigger] subs[l]).0 == id {
        let l = choose|l: int| 0 <= l < subs.len() && (#[trigger] subs[l]).0 == id;
        lemma_sub_remove_at(subs, id, l);
        let out = subs.subrange(0, l) + subs.subrange(l + 1, subs.len() as int);
        assert forall|a: int, b: int| 0 <= a < b < out.len() implies (#[trigger] out[a]).0 != (
        #[trigger] out[b]).0 by {
            let a2: int = if a < l { a } else { a + 1 };
            let b2: int = if b < l { b } else { b + 1 };
            assert(out[a] == subs[a2]);
            assert(out[b] == subs[b2]);
        }
        assert forall|k: int| 0 <= k < out.len() implies (#[trigger] out[k]).0 != id by {
            let k2: int = if k < l { k } else { k + 1 };
            assert(out[k] == subs[k2]);
        }
        lemma_lookup_absent(out, id);
    } else {
        lemma_sub_remove_at(subs, id, subs.len() as int);
        lemma_lookup_absent(subs, id);
    }
}

/// Registration keeps a well-formed table well formed.
pub proof fn lemma_insert_unique(subs: Seq<(SpecId, u64)>, id: SpecId, w: u64)
    requires
        subs_unique(subs),
    ensures
        subs_unique(spec_sub_insert(subs, id, w)),
{
    let out = spec_sub_insert(subs, id, w);
    if exists|l: int| 0 <= l < subs.len() && (#[trigger] subs[l]).0 == id {
        let l = choose|l: int| 0 <= l < subs.len() && (#[trigger] subs[l]).0 == id;
        lemma_sub_insert_at(subs, id, w, l);
        assert forall|a: int, b: int| 0 <= a < b < out.len() implies (#[trigger] out[a]).0 != (
        #[trigger] out[b]).0 by {
            assert(out[a].0 == subs[a].0);
            assert(out[b].0 == subs[b].0);
        }
    } else {
        lemma_sub_insert_at(subs, id, w, subs.len() as int);
        assert forall|a: int, b: int| 0 <= a < b < out.len() implies (#[trigger] out[a]).0 != (
        #[trigger] out[b]).0 by {
            if b < subs.len() {
            } else {
                assert(out[b].0 == id);
                assert(out[a] == subs[a]);
            }
        }
    }
}

/// Draining commands keeps the table well formed.
pub proof fn lemma_drain_unique(subs: Seq<(SpecId, u64)>, cs: Seq<SpecCommand>)
    requires
        subs_unique(subs),
    ensures
        subs_unique(spec_drain(subs, cs)),
    decreases cs,
{
    if cs.len() > 0 {
        lemma_insert_unique(subs, cs[0]->request_id, cs[0]->waiter);
        lemma_drain_unique(
            spec_sub_insert(subs, cs[0]->request_id, cs[0]->waiter),
            cs.drop_first(),
        );
    }
}

/// The identifier a delivered outcome answers.
pub open spec fn spec_outcome_id(o: Result<SpecResponse, SpecError>) -> SpecId {
    match o {
        Ok(r) => r.id,
        Err(e) => e.id,
    }
}

/// How many deliveries in a list answer one identifier.
pub open spec fn spec_count_for(ds: Seq<SpecDelivery>, id: SpecId) -> nat
    decreases ds,
{
    if ds.len() == 0 {
        0
    } else {
        (if spec_outcome_id(ds[0].outcome) == id {
            1 as nat
        } else {
            0 as nat
        }) + spec_count_for(ds.drop_first(), id)
    }
}

/// Delivery counts add over concatenation.
pub proof fn lemma_count_for_concat(a: Seq<SpecDelivery>, b: Seq<SpecDelivery>, id: SpecId)
    ensures
        spec_count_for(a + b, id) == spec_count_for(a, id) + spec_count_for(b, id),
    decreases a,
{
    if a.len() == 0 {
        assert(a + b =~= b);
    } else {
        assert((a + b)[0] == a[0]);
        assert((a + b).drop_first() =~= a.drop_first() + b);
        lemma_count_for_concat(a.drop_first(), b, id);
    }
}

/// Exclusive delivery for one reply: over a well-formed table, a reply
/// delivers exactly once when its identifier is registered and never
/// otherwise, consumes that registration, and leaves every other
/// registration in place.
pub proof fn lemma_item_exclusive(
    subs: Seq<(SpecId, u64)>,
    item: SpecBatchResponseItem,
    id: SpecId,
)
    requires
        subs_unique(subs),
    ensures
        subs_unique(spec_deliver_item(subs, item).0),
        spec_count_for(spec_deliver_item(subs, item).1, id) == (
        if spec_sub_lookup(subs, id) is Some && spec_item_reply_id(item) == id {
            1 as nat
        } else {
            0 as nat
        }),
        spec_sub_lookup(spec_deliver_item(subs, item).0, id) == (
        if spec_item_reply_id(item) == id {
            None::<u64>
        } else {
            spec_sub_lookup(subs, id)
        }),
{
    let x = spec_item_reply_id(item);
    assert(spec_outcome_id(spec_item_outcome(item)) == x);
    match spec_sub_lookup(subs, x) {
        Some(w) => {
            lemma_remove_unique(subs, x);
            if x != id {
                lemma_sub_remove_other(subs, x, id);
            }
            let d = SpecDelivery { waiter: w, outcome: spec_item_outcome(item) };
            assert(spec_deliver_item(subs, item).1 =~= seq![d]);
            assert(seq![d].drop_first() =~= Seq::<SpecDelivery>::empty());
            assert(spec_count_for(Seq::<SpecDelivery>::empty(), id) == 0);
            assert(seq![d][0] == d);
            assert(spec_count_for(seq![d], id) == (if x == id {
                1 as nat
            } else {
                0 as nat
            }));
        },
        None => {
            assert(spec_deliver_item(subs, item).1 =~= Seq::<SpecDelivery>::empty());
            assert(spec_count_for(Seq::<SpecDelivery>::empty(), id) == 0);
        },
    }
}

/// Exclusive delivery through a batched reply: over a well-formed
/// table, a registered identifier that some element answers is
/// delivered exactly once and its registration consumed; an identifier
/// no element answers keeps its registration and receives nothing; an
/// unregistered identifier is delivered to nobody.
pub proof fn lemma_batch_exclusive(
    subs: Seq<(SpecId, u64)>,
    items: Seq<SpecBatchResponseItem>,
    id: SpecId,
)
    requires
        subs_unique(subs),
    ensures
        subs_unique(spec_deliver_batch(subs, items).0),
        spec_count_for(spec_deliver_batch(subs, items).1, id) == (
        if spec_sub_lookup(subs, id) is Some && (exists|i: int|
            0 <= i < items.len() && spec_item_reply_id(#[trigger] items[i]) == id) {
            1 as nat
        } else {
            0 as nat
        }),
        spec_sub_lookup(spec_deliver_batch(subs, items).0, id) == (
        if exists|i: int| 0 <= i < items.len() && spec_item_reply_id(#[trigger] items[i]) == id {
            None::<u64>
        } else {
            spec_sub_lookup(subs, id)
        }),
    decreases items,
{
    if items.len() == 0 {
    } else {
        let head = spec_deliver_item(subs, items[0]);
        let rest = spec_deliver_batch(head.0, items.drop_first());
        let x0 = spec_item_reply_id(items[0]);
        lemma_item_exclusive(subs, items[0], id);
        lemma_batch_exclusive(head.0, items.drop_first(), id);
        lemma_count_for_concat(head.1, rest.1, id);
        assert(forall|i: int| 0 <= i < items.drop_first().len() ==> #[trigger] items.drop_first()[
            i] == items[i + 1]);
        let has = exists|i: int| 0 <= i < items.len() && spec_item_reply_id(#[trigger] items[i])
            == id;
        let has_rest = exists|i: int|
            0 <= i < items.drop_first().len() && spec_item_reply_id(
                #[trigger] items.drop_first()[i],
            ) == id;
        if has_rest {
            let i = choose|i: int|
                0 <= i < items.drop_first().len() && spec_item_reply_id(
                    #[trigger] items.drop_first()[i],
                ) == id;
            assert(spec_item_reply_id(items[i + 1]) == id);
            assert(has);
        }
        if x0 == id {
            assert(spec_item_reply_id(items[0]) == id);
            assert(has);
        }
        if has && x0 != id {
            let i = choose|i: int|
                0 <= i < items.len() && spec_item_reply_id(#[trigger] items[i]) == id;
            assert(i != 0);
            assert(items.drop_first()[i - 1] == items[i]);
            assert(has_rest);
        }
    }
}

/// Whether a message answers an identifier: a reply that carries it,
/// or a batched reply with an element that carries it.
pub open spec fn spec_answers(m: SpecMessage, id: SpecId) -> bool {
    match m {
        SpecMessage::Response(r) => r.id == id,
        SpecMessage::Error(e) => e.id == id,
        SpecMessage::BatchResponse(items) => exists|i: int|
            0 <= i < items.len() && spec_item_reply_id(#[trigger] items[i]) == id,
        _ => false,
    }
}

/// Exclusive delivery, for any inbound message: over a well-formed
/// table, each identifier is delivered exactly once when it is
/// registered and the message answers it, and never otherwise; an
/// answered registration is consumed, every other one kept.
pub proof fn lemma_deliver_exclusive(subs: Seq<(SpecId, u64)>, m: SpecMessage, id: SpecId)
    requires
        subs_unique(subs),
    ensures
        subs_unique(spec_deliver(subs, m).0),
        spec_count_for(spec_deliver(subs, m).1, id) == (
        if spec_sub_lookup(subs, id) is Some && spec_answers(m, id) {
            1 as nat
        } else {
            0 as nat
        }),
        spec_sub_lookup(spec_deliver(subs, m).0, id) == (
        if spec_answers(m, id) {
            None::<u64>
        } else {
            spec_sub_lookup(subs, id)
        }),
{
    match m {
        SpecMessage::Response(r) => {
            lemma_item_exclusive(subs, SpecBatchResponseItem::Response(r), id);
        },
        SpecMessage::Error(e) => {
            lemma_item_exclusive(subs, SpecBatchResponseItem::Error(e), id);
        },
        SpecMessage::BatchResponse(items) => {
            lemma_batch_exclusive(subs, items, id);
        },
        _ => {},
    }
}

/// Draining commands that never name `id` keeps its registration.
pub proof fn lemma_drain_preserves_lookup(
    subs: Seq<(SpecId, u64)>,
    cs: Seq<SpecCommand>,
    id: SpecId,
)
    requires
        forall|j: int| 0 <= j < cs.len() ==> (#[trigger] cs[j])->request_id != id,
    ensures
        spec_sub_lookup(spec_drain(subs, cs), id) == spec_sub_lookup(subs, id),
    decreases cs.len(),
{
    if cs.len() > 0 {
        let subs1 = spec_sub_insert(subs, cs[0]->request_id, cs[0]->waiter);
        lemma_sub_insert_other(subs, cs[0]->request_id, cs[0]->waiter, id);
        assert(forall|j: int| 0 <= j < cs.drop_first().len() ==> #[trigger] cs.drop_first()[j]
            == cs[j + 1]);
        lemma_drain_preserves_lookup(subs1, cs.drop_first(), id);
    }
}

/// Registering one identifier leaves every other lookup unchanged.
pub proof fn lemma_sub_insert_other(subs: Seq<(SpecId, u64)>, id: SpecId, w: u64, other: SpecId)
    requires
        id != other,
    ensures
        spec_sub_lookup(spec_sub_insert(subs, id, w), other) == spec_sub_lookup(subs, other),
    decreases subs,
{
    let out = spec_sub_insert(subs, id, w);
    if subs.len() == 0 {
        assert(out[0] == (id, w));
        assert(out.drop_first() =~= Seq::<(SpecId, u64)>::empty());
    } else if subs[0].0 == id {
        assert(out[0] == (id, w));
        assert(out.drop_first() =~= subs.drop_first());
        assert(spec_sub_lookup(subs, other) == spec_sub_lookup(subs.drop_first(), other));
    } else {
        assert(out[0] == subs[0]);
        assert(out.drop_first() =~= spec_sub_insert(subs.drop_first(), id, w));
        lemma_sub_insert_other(subs.drop_first(), id, w, other);
    }
}

impl RPCRuntime {
    /// A runtime with no registered waiters.
    pub fn new() -> (r: RPCRuntime)
        ensures
            r@ == Seq::<(SpecId, u64)>::empty(),
    {
        let r = RPCRuntime { subscriptions: Vec::new() };
        proof {
            assert(view_subs(r.subscriptions@) =~= Seq::<(SpecId, u64)>::empty());
        }
        r
    }

    /// Register one waiter, replacing any earlier one for the same
    /// identifier.
    #[verifier::loop_isolation(false)]
    pub fn register(&mut self, request_id: RequestId, waiter: u64)
        ensures
            final(self)@ == spec_sub_insert(old(self)@, request_id@, waiter),
    {
        proof {
            lemma_view_subs(self.subscriptions@);
        }
        let ghost rid = request_id@;
        let n = self.subscriptions.len();
        let mut i: usize = 0;
        while i < n
            invariant
                0 <= i <= n,
                self.subscriptions@ == old(self).subscriptions@,
                n == self.subscriptions@.len(),
                view_subs(self.subscriptions@).len() == n,
                forall|j: int| 0 <= j < n ==> view_subs(self.subscriptions@)[j] == (
                    (#[trigger] self.subscriptions@[j]).0@,
                    self.subscriptions@[j].1,
                ),
                forall|j: int| 0 <= j < i ==> (#[trigger] view_subs(self.subscriptions@)[j]).0
                    != rid,
            decreases n - i,
        {
            if id_eq(&self.subscriptions[i].0, &request_id) {
                let ghost pre = self.subscriptions@;
                let ghost old_view = view_subs(pre);
                self.subscriptions[i] = (request_id, waiter);
                proof {
                    lemma_view_subs(self.subscriptions@);
                    assert forall|j: int| 0 <= j < self.subscriptions@.len() implies view_subs(
                        self.subscriptions@,
                    )[j] == old_view.update(i as int, (old_view[i as int].0, waiter))[j] by {
                        if j != i {
                            assert(self.subscriptions@[j] == pre[j]);
                        } else {
                            assert(self.subscriptions@[j] == (self.subscriptions@[j].0,
                            self.subscriptions@[j].1));
                        }
                    }
                    lemma_sub_insert_at(old_view, old_view[i as int].0, waiter, i as int);
                    assert(view_subs(self.subscriptions@) =~= spec_sub_insert(
                        old_view,
                        old_view[i as int].0,
                        waiter,
                    ));
                }
                return ;
            }
            i = i + 1;
        }
        let ghost pre = self.subscriptions@;
        let ghost old_view = view_subs(pre);
        self.subscriptions.push((request_id, waiter));
        proof {
            lemma_view_subs(self.subscriptions@);
            assert forall|j: int| 0 <= j < self.subscriptions@.len() implies view_subs(
                self.subscriptions@,
            )[j] == old_view.push((rid, waiter))[j] by {
                if j < pre.len() {
                    assert(self.subscriptions@[j] == pre[j]);
                } else {
                    assert(view_subs(self.subscriptions@)[j] == (self.subscriptions@[j].0@,
                    self.subscriptions@[j].1));
                }
            }
            lemma_sub_insert_at(old_view, rid, waiter, old_view.len() as int);
            assert(view_subs(self.subscriptions@) =~= spec_sub_insert(old_view, rid, waiter));
        }
    }

    /// Drain the pending commands, then apply one inbound message:
    /// deliveries for a correlated reply — a top-level one, or each
    /// element of a batched reply in turn — the message handed onward
    /// either way.
    pub fn progress(&mut self, commands: Vec<Command>, message: &JSONRPCMessage) -> (deliveries:
        Vec<Delivery>)
        ensures
            final(self)@ == spec_deliver(
                spec_drain(old(self)@, view_commands(commands@)),
                message@,
            ).0,
            view_deliveries(deliveries@) == spec_deliver(
                spec_drain(old(self)@, view_commands(commands@)),
                message@,
            ).1,
    {
        self.drain(commands);
        let mut out: Vec<Delivery> = Vec::new();
        proof {
            assert(view_deliveries(out@) =~= Seq::<SpecDelivery>::empty());
        }
        match message {
            JSONRPCMessage::JSONRPCResponse(r) => {
                let ghost pre = self@;
                self.deliver_response(r, &mut out);
                proof {
                    assert(view_deliveries(out@) =~= spec_deliver(pre, message@).1);
                }
            },
            JSONRPCMessage::JSONRPCError(e) => {
                let ghost pre = self@;
                self.deliver_error(e, &mut out);
                proof {
                    assert(view_deliveries(out@) =~= spec_deliver(pre, message@).1);
                }
            },
            JSONRPCMessage::JSONRPCBatchResponse(b) => {
                let ghost pre = self@;
                self.deliver_batch(b, &mut out);
                proof {
                    assert(view_deliveries(out@) =~= spec_deliver(pre, message@).1);
                }
            },
            _ => {},
        }
        out
    }

    /// Deliver one top-level or batched response to its waiter, if one
    /// is registered.
    fn deliver_response(&mut self, r: &JSONRPCResponse, out: &mut Vec<Delivery>)
        ensures
            final(self)@ == spec_deliver_item(
                old(self)@,
                SpecBatchResponseItem::Response(r@),
            ).0,
            view_deliveries(final(out)@) == view_deliveries(old(out)@) + spec_deliver_item(
                old(self)@,
                SpecBatchResponseItem::Response(r@),
            ).1,
    {
        match self.take(&r.id) {
            Some(w) => {
                let d = Delivery { waiter: w, outcome: Ok(duplicate_response(r)) };
                proof {
                    lemma_view_deliveries_push(out@, d);
                    assert(view_deliveries(out@).push(d@) =~= view_deliveries(out@) + seq![d@]);
                }
                out.push(d);
            },
            None => {
                proof {
                    assert(view_deliveries(out@) =~= view_deliveries(out@) + Seq::<
                        SpecDelivery,
                    >::empty());
                }
            },
        }
    }

    /// Deliver one top-level or batched error reply to its waiter, if
    /// one is registered.
    fn deliver_error(&mut self, e: &JSONRPCError, out: &mut Vec<Delivery>)
        ensures
            final(self)@ == spec_deliver_item(old(self)@, SpecBatchResponseItem::Error(e@)).0,
            view_deliveries(final(out)@) == view_deliveries(old(out)@) + spec_deliver_item(
                old(self)@,
                SpecBatchResponseItem::Error(e@),
            ).1,
    {
        match self.take(&e.id) {
            Some(w) => {
                let d = Delivery { waiter: w, outcome: Err(duplicate_error(e)) };
                proof {
                    lemma_view_deliveries_push(out@, d);
                    assert(view_deliveries(out@).push(d@) =~= view_deliveries(out@) + seq![d@]);
                }
                out.push(d);
            },
            None => {
                proof {
                    assert(view_deliveries(out@) =~= view_deliveries(out@) + Seq::<
                        SpecDelivery,
                    >::empty());
                }
            },
        }
    }

    /// Correlate a batched reply element by element, left to right, as
    /// the peer may answer several outbound requests in one batch.
    #[verifier::loop_isolation(false)]
    fn deliver_batch(&mut self, b: &JSONRPCBatchResponse, out: &mut Vec<Delivery>)
        ensures
            final(self)@ == spec_deliver_batch(old(self)@, view_resp_items(b.0@)).0,
            view_deliveries(final(out)@) == view_deliveries(old(out)@) + spec_deliver_batch(
                old(self)@,
                view_resp_items(b.0@),
            ).1,
    {
        let ghost items = view_resp_items(b.0@);
        proof {
            lemma_view_resp_items(b.0@);
            assert(items.subrange(0, b.0@.len() as int) =~= items);
            assert(view_deliveries(out@) + Seq::<SpecDelivery>::empty() =~= view_deliveries(
                out@,
            ));
        }
        let n = b.0.len();
        let mut i: usize = 0;
        while i < n
            invariant
                0 <= i <= n,
                n == b.0@.len(),
                items == view_resp_items(b.0@),
                spec_deliver_batch(old(self)@, items).0 == spec_deliver_batch(
                    self@,
                    items.subrange(i as int, n as int),
                ).0,
                view_deliveries(old(out)@) + spec_deliver_batch(old(self)@, items).1
                    == view_deliveries(out@) + spec_deliver_batch(
                    self@,
                    items.subrange(i as int, n as int),
                ).1,
            decreases n - i,
        {
            let ghost tail = items.subrange(i as int, n as int);
            let ghost table = self@;
            let ghost delivered = view_deliveries(out@);
            proof {
                assert(tail[0] == items[i as int]);
                assert(items[i as int] == b.0@[i as int]@);
                assert(tail.drop_first() =~= items.subrange(i + 1 as int, n as int));
            }
            match &b.0[i] {
                JsonrpcBatchResponseItem::JSONRPCResponse(r) => {
                    self.deliver_response(r, out);
                },
                JsonrpcBatchResponseItem::JSONRPCError(e) => {
                    self.deliver_error(e, out);
                },
            }
            proof {
                let head = spec_deliver_item(table, tail[0]);
                let rest = spec_deliver_batch(head.0, tail.drop_first());
                assert(spec_deliver_batch(table, tail).0 == rest.0);
                assert(spec_deliver_batch(table, tail).1 == head.1 + rest.1);
                assert(delivered + (head.1 + rest.1) =~= (delivered + head.1) + rest.1);
            }
            i = i + 1;
        }
        proof {
            assert(items.subrange(n as int, n as int) =~= Seq::<SpecBatchResponseItem>::empty());
            assert(view_deliveries(out@) + Seq::<SpecDelivery>::empty() =~= view_deliveries(
                out@,
            ));
        }
    }

    /// Drain a command list into the table, in order.
    #[verifier::loop_isolation(false)]
    fn drain(&mut self, commands: Vec<Command>)
        ensures
            final(self)@ == spec_drain(old(self)@, view_commands(commands@)),
    {
        proof {
            lemma_view_commands(commands@);
            assert(view_commands(commands@).subrange(0, commands@.len() as int) =~= view_commands(
                commands@,
            ));
        }
        let n = commands.len();
        let mut i: usize = 0;
        while i < n
            invariant
                0 <= i <= n,
                spec_drain(old(self)@, view_commands(commands@)) == spec_drain(
                    self@,
                    view_commands(commands@).subrange(i as int, n as int),
                ),
            decreases n - i,
        {
            let ghost tail = view_commands(commands@).subrange(i as int, n as int);
            proof {
                assert(tail[0] == commands@[i as int]@);
                assert(tail.drop_first() =~= view_commands(commands@).subrange(
                    i + 1 as int,
                    n as int,
                ));
            }
            match &commands[i] {
                Command::WaitResponse { request_id, waiter } => {
                    self.register(request_id.duplicate(), *waiter);
                },
            }
            i = i + 1;
        }
        proof {
            assert(view_commands(commands@).subrange(n as int, n as int) =~= Seq::<
                SpecCommand,
            >::empty());
        }
    }

    /// Remove and return the waiter for an identifier.
    #[verifier::loop_isolation(false)]
    fn take(&mut self, id: &RequestId) -> (w: Option<u64>)
        ensures
            w == spec_sub_lookup(old(self)@, id@),
            match w {
                Some(_) => final(self)@ == spec_sub_remove(old(self)@, id@),
                None => final(self)@ == old(self)@,
            },
    {
        proof {
            lemma_view_subs(self.subscriptions@);
            assert(view_subs(self.subscriptions@).subrange(
                0,
                self.subscriptions@.len() as int,
            ) =~= view_subs(self.subscriptions@));
        }
        let n = self.subscriptions.len();
        let mut i: usize = 0;
        while i < n
            invariant
                0 <= i <= n,
                self.subscriptions@ == old(self).subscriptions@,
                spec_sub_lookup(old(self)@, id@) == spec_sub_lookup(
                    view_subs(self.subscriptions@).subrange(i as int, n as int),
                    id@,
                ),
                self@ == old(self)@,
                n == self.subscriptions@.len(),
                view_subs(self.subscriptions@).len() == n,
                forall|j: int| 0 <= j < n ==> view_subs(self.subscriptions@)[j] == (
                    (#[trigger] self.subscriptions@[j]).0@,
                    self.subscriptions@[j].1,
                ),
                forall|j: int| 0 <= j < i ==> (#[trigger] view_subs(self.subscriptions@)[j]).0
                    != id@,
                spec_sub_remove(old(self)@, id@) == view_subs(self.subscriptions@).subrange(
                    0,
                    i as int,
                ) + spec_sub_remove(
                    view_subs(self.subscriptions@).subrange(i as int, n as int),
                    id@,
                ),
            decreases n - i,
        {
            let ghost whole = view_subs(self.subscriptions@);
            let ghost tail = whole.subrange(i as int, n as int);
            proof {
                assert(tail[0] == whole[i as int]);
                assert(whole[i as int] == (self.subscriptions@[i as int].0@,
                self.subscriptions@[i as int].1));
                assert(tail.drop_first() =~= whole.subrange(i + 1 as int, n as int));
            }
            if id_eq(&self.subscriptions[i].0, id) {
                let w = self.subscriptions[i].1;
                let ghost pre = self.subscriptions@;
                self.subscriptions.remove(i);
                proof {
                    lemma_view_subs(self.subscriptions@);
                    lemma_view_subs(pre);
                    assert forall|j: int| 0 <= j < self.subscriptions@.len() implies view_subs(
                        self.subscriptions@,
                    )[j] == (whole.subrange(0, i as int) + whole.subrange(i + 1 as int, n as int))[
                        j] by {
                        if j < i {
                            assert(self.subscriptions@[j] == pre[j]);
                        } else {
                            assert(self.subscriptions@[j] == pre[j + 1]);
                        }
                    }
                    assert(view_subs(self.subscriptions@) =~= whole.subrange(0, i as int)
                        + whole.subrange(i + 1 as int, n as int));
                    assert(spec_sub_remove(tail, id@) =~= tail.drop_first());
                }
                return Some(w);
            }
            proof {
                assert(spec_sub_remove(tail, id@) == seq![tail[0]] + spec_sub_remove(
                    tail.drop_first(),
                    id@,
                ));
                assert(whole.subrange(0, i as int) + (seq![tail[0]] + spec_sub_remove(
                    tail.drop_first(),
                    id@,
                )) =~= whole.subrange(0, i + 1 as int) + spec_sub_remove(
                    tail.drop_first(),
                    id@,
                ));
            }
            i = i + 1;
        }
        None
    }
}

/// Equality of request identifiers.
pub fn id_eq(a: &RequestId, b: &RequestId) -> (r: bool)
    ensures
        r == (a@ == b@),
{
    match (a, b) {
        (RequestId::Str(x), RequestId::Str(y)) => {
            let r = *x == *y;
            proof {
                if x@ == y@ {
                    assert(a@ =~= b@);
                }
            }
            r
        },
        (RequestId::Int(x), RequestId::Int(y)) => x == y,
        _ => false,
    }
}

/// The subscription view commutes with indexing.
pub proof fn lemma_view_subs(subs: Seq<(RequestId, u64)>)
    ensures
        view_subs(subs).len() == subs.len(),
        forall|i: int| 0 <= i < subs.len() ==> view_subs(subs)[i] == (
            (#[trigger] subs[i]).0@,
            subs[i].1,
        ),
    decreases subs,
{
    if subs.len() > 0 {
        lemma_view_subs(subs.drop_first());
        assert forall|i: int| 0 <= i < subs.len() implies view_subs(subs)[i] == (
            (#[trigger] subs[i]).0@,
            subs[i].1,
        ) by {
            if i > 0 {
                assert(subs.drop_first()[i - 1] == subs[i]);
                assert(view_subs(subs)[i] == view_subs(subs.drop_first())[i - 1]);
            }
        }
    }
}

/// The delivery view commutes with indexing.
pub proof fn lemma_view_deliveries(ds: Seq<Delivery>)
    ensures
        view_deliveries(ds).len() == ds.len(),
        forall|i: int| 0 <= i < ds.len() ==> view_deliveries(ds)[i] == (#[trigger] ds[i])@,
    decreases ds,
{
    if ds.len() > 0 {
        lemma_view_deliveries(ds.drop_first());
        assert forall|i: int| 0 <= i < ds.len() implies view_deliveries(ds)[i] == (
        #[trigger] ds[i])@ by {
            if i > 0 {
                assert(ds.drop_first()[i - 1] == ds[i]);
                assert(view_deliveries(ds)[i] == view_deliveries(ds.drop_first())[i - 1]);
            }
        }
    }
}

/// Appending one delivery extends the delivery view.
pub proof fn lemma_view_deliveries_push(ds: Seq<Delivery>, d: Delivery)
    ensures
        view_deliveries(ds.push(d)) == view_deliveries(ds).push(d@),
{
    lemma_view_deliveries(ds.push(d));
    lemma_view_deliveries(ds);
    assert forall|i: int| 0 <= i < ds.push(d).len() implies view_deliveries(ds.push(d))[i]
        == view_deliveries(ds).push(d@)[i] by {
        if i < ds.len() {
            assert(ds.push(d)[i] == ds[i]);
        } else {
            assert(ds.push(d)[i] == d);
        }
    }
    assert(view_deliveries(ds.push(d)) =~= view_deliveries(ds).push(d@));
}

/// The command view commutes with indexing.
pub proof fn lemma_view_commands(cs: Seq<Command>)
    ensures
        view_commands(cs).len() == cs.len(),
        forall|i: int| 0 <= i < cs.len() ==> view_commands(cs)[i] == (#[trigger] cs[i])@,
    decreases cs,
{
    if cs.len() > 0 {
        lemma_view_commands(cs.drop_first());
        assert forall|i: int| 0 <= i < cs.len() implies view_commands(cs)[i] == (
        #[trigger] cs[i])@ by {
            if i > 0 {
                assert(cs.drop_first()[i - 1] == cs[i]);
                assert(view_commands(cs)[i] == view_commands(cs.drop_first())[i - 1]);
            }
        }
    }
}

/// Registration, characterized by the first matching index.
pub proof fn lemma_sub_insert_at(subs: Seq<(SpecId, u64)>, id: SpecId, w: u64, i: int)
    requires
        0 <= i <= subs.len(),
        forall|j: int| 0 <= j < i ==> (#[trigger] subs[j]).0 != id,
        i < subs.len() ==> subs[i].0 == id,
    ensures
        i < subs.len() ==> spec_sub_insert(subs, id, w) == subs.update(i, (id, w)),
        i == subs.len() ==> spec_sub_insert(subs, id, w) == subs.push((id, w)),
    decreases subs,
{
    if subs.len() == 0 {
        assert(spec_sub_insert(subs, id, w) =~= subs.push((id, w)));
    } else if subs[0].0 == id {
        assert(i == 0);
        assert(spec_sub_insert(subs, id, w) =~= subs.update(0, (id, w)));
    } else {
        assert(i >= 1);
        assert(forall|j: int| 0 <= j < subs.drop_first().len() ==> #[trigger] subs.drop_first()[j]
            == subs[j + 1]);
        lemma_sub_insert_at(subs.drop_first(), id, w, i - 1);
        if i < subs.len() {
            assert(spec_sub_insert(subs, id, w) =~= subs.update(i, (id, w)));
        } else {
            assert(spec_sub_insert(subs, id, w) =~= subs.push((id, w)));
        }
    }
}

/// A copy of a response with the same model.
pub fn duplicate_response(r: &JSONRPCResponse) -> (out: JSONRPCResponse)
    ensures
        out@ == r@,
{
    let out = JSONRPCResponse {
        id: r.id.duplicate(),
        result: duplicate_entries(&r.result),
        extra: duplicate_entries(&r.extra),
    };
    proof {
        assert(out@ =~~= r@);
    }
    out
}

/// A copy of an error reply with the same model.
pub fn duplicate_error(e: &JSONRPCError) -> (out: JSONRPCError)
    ensures
        out@ == e@,
{
    let data = match &e.error.data {
        Some(d) => Some(d.duplicate()),
        None => None,
    };
    let out = JSONRPCError {
        id: e.id.duplicate(),
        error: crate::mcp::JsonrpcErrorError {
            code: e.error.code,
            message: e.error.message.clone(),
            data,
            extra: duplicate_entries(&e.error.extra),
        },
        extra: duplicate_entries(&e.extra),
    };
    proof {
        assert(out@ =~~= e@);
    }
    out
}

/// Build a notification from a payload that must serialize to a JSON
/// object, or to null for "no parameters".
pub fn make_notification(method: &str, payload: JsonValue) -> (r: Result<
    JSONRPCNotification,
    RPCPortError,
>)
    ensures
        match r {
            Ok(n) => ({
                &&& (payload@ is Obj || payload@ is Null)
                &&& n@.method == method@
                &&& n@.params == (if payload@ is Obj {
                    Some(payload@->Obj_0)
                } else {
                    None::<Seq<(Seq<char>, SpecJson)>>
                })
                &&& n@.extra == Seq::<(Seq<char>, SpecJson)>::empty()
            }),
            Err(_) => !(payload@ is Obj || payload@ is Null),
        },
{
    match payload {
        JsonValue::Obj(p) => {
            let n = JSONRPCNotification {
                method: String::from_str(method),
                params: Some(p),
                extra: Vec::new(),
            };
            proof {
                assert(view_json_entries(Seq::<(String, JsonValue)>::empty()) == Seq::<
                    (Seq<char>, SpecJson),
                >::empty());
            }
            Ok(n)
        },
        JsonValue::Null => {
            let n = JSONRPCNotification {
                method: String::from_str(method),
                params: None,
                extra: Vec::new(),
            };
            proof {
                assert(view_json_entries(Seq::<(String, JsonValue)>::empty()) == Seq::<
                    (Seq<char>, SpecJson),
                >::empty());
            }
            Ok(n)
        },
        other => Err(RPCPortError::SerializeNotObject(other)),
    }
}

/// Build a response from a payload that must serialize to a JSON
/// object.
pub fn make_response(request_id: RequestId, payload: JsonValue) -> (r: Result<
    JSONRPCResponse,
    RPCPortError,
>)
    ensures
        match r {
            Ok(resp) => ({
                &&& payload@ is Obj
                &&& resp@.id == request_id@
                &&& resp@.result == payload@->Obj_0
                &&& resp@.extra == Seq::<(Seq<char>, SpecJson)>::empty()
            }),
            Err(_) => !(payload@ is Obj),
        },
{
    match payload {
        JsonValue::Obj(p) => {
            let resp = JSONRPCResponse { id: request_id, result: p, extra: Vec::new() };
            proof {
                assert(view_json_entries(Seq::<(String, JsonValue)>::empty()) == Seq::<
                    (Seq<char>, SpecJson),
                >::empty());
            }
            Ok(resp)
        },
        other => Err(RPCPortError::SerializeNotObject(other)),
    }
}

/// Build an outbound request from a payload that must serialize to a
/// JSON object, or to null for "no parameters".
pub fn make_request(request_id: RequestId, method: &str, payload: JsonValue) -> (r: Result<
    JSONRPCRequest,
    RPCPortError,
>)
    ensures
        match r {
            Ok(rq) => ({
                &&& (payload@ is Obj || payload@ is Null)
                &&& rq@.id == request_id@
                &&& rq@.method == method@
                &&& rq@.params == (if payload@ is Obj {
                    Some(payload@->Obj_0)
                } else {
                    None::<Seq<(Seq<char>, SpecJson)>>
                })
                &&& rq@.extra == Seq::<(Seq<char>, SpecJson)>::empty()
            }),
            Err(_) => !(payload@ is Obj || payload@ is Null),
        },
{
    match payload {
        JsonValue::Obj(p) => {
            let rq = JSONRPCRequest {
                id: request_id,
                method: String::from_str(method),
                params: Some(p),
                extra: Vec::new(),
            };
            proof {
                assert(view_json_entries(Seq::<(String, JsonValue)>::empty()) == Seq::<
                    (Seq<char>, SpecJson),
                >::empty());
            }
            Ok(rq)
        },
        JsonValue::Null => {
            let rq = JSONRPCRequest {
                id: request_id,
                method: String::from_str(method),
                params: None,
                extra: Vec::new(),
            };
            proof {
                assert(view_json_entries(Seq::<(String, JsonValue)>::empty()) == Seq::<
                    (Seq<char>, SpecJson),
                >::empty());
            }
            Ok(rq)
        },
        other => Err(RPCPortError::SerializeNotObject(other)),
    }
}


/// A typed notification, before its parameters are erased into JSON.
#[derive(Debug, Clone, PartialEq)]
pub struct TypedNotification<T> {
    pub method: String,
    pub params: T,
}

/// Failures of the sink-side message builders.
#[derive(Debug)]
pub enum RPCPortError {
    /// The payload did not serialize to a JSON object.
    SerializeNotObject(JsonValue),
}

} // verus!
