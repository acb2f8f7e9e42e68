//! What holds of the broadcast protocol whatever the events are.

use crate::gossip::{
    goes_out, outgoing, resend_denominator, resend_numerator, RESEND_TARGET,
};
use crate::message::MessageView;
use crate::protocol::{handle, ingest, ingest_all, neighbors_of, NodeView, PayloadView};
use vstd::prelude::*;

verus! {

/// Taking a value in keeps what was seen, in its order, and keeps the values
/// distinct; afterwards the value is among them, exactly once.
pub proof fn lemma_ingest(seen: Seq<usize>, value: usize)
    requires
        seen.no_duplicates(),
    ensures
        seen.is_prefix_of(ingest(seen, value)),
        ingest(seen, value).no_duplicates(),
        ingest(seen, value).to_set() == seen.to_set().insert(value),
        ingest(seen, value).to_multiset().count(value) == 1,
        ingest(ingest(seen, value), value) == ingest(seen, value),
{
    let after = ingest(seen, value);
    if !seen.contains(value) {
        seen.lemma_push_to_set_commute(value);
        assert(after[seen.len() as int] == value);
    } else {
        assert(after.to_set() =~= seen.to_set().insert(value));
    }
    assert(after.contains(value));
    after.lemma_multiset_has_no_duplicates();
    vstd::seq_lib::to_multiset_contains(after, value);
}

/// Taking a list of values in keeps what was seen, in its order, and keeps the
/// values distinct; afterwards the node holds what it held and every value of
/// the list, and nothing else.
pub proof fn lemma_ingest_all(seen: Seq<usize>, values: Seq<usize>)
    requires
        seen.no_duplicates(),
    ensures
        seen.is_prefix_of(ingest_all(seen, values)),
        ingest_all(seen, values).no_duplicates(),
        ingest_all(seen, values).to_set() == seen.to_set().union(values.to_set()),
    decreases values.len(),
{
    if values.len() == 0 {
        assert(values.to_set() =~= Set::empty());
        assert(seen.to_set().union(values.to_set()) =~= seen.to_set());
    } else {
        let front = values.drop_last();
        lemma_ingest_all(seen, front);
        lemma_ingest(ingest_all(seen, front), values.last());
        assert(values =~= front.push(values.last()));
        front.lemma_push_to_set_commute(values.last());
        assert(ingest_all(seen, values).to_set() =~= seen.to_set().union(values.to_set()));
    }
}

/// What goes out to a neighbour is made of values that the node has seen, and
/// every position that [`goes_out`] is among it. So every value that the
/// neighbour is not believed to hold goes out, however the coins fall.
pub proof fn lemma_outgoing(seen: Seq<usize>, known: Set<usize>, resend: Seq<bool>)
    ensures
        forall|v: usize| #[trigger] outgoing(seen, known, resend).contains(v) ==> seen.contains(v),
        forall|i: int|
            0 <= i < seen.len() && goes_out(seen, known, resend, i) ==> outgoing(
                seen,
                known,
                resend,
            ).contains(#[trigger] seen[i]),
        forall|v: usize|
            seen.contains(v) && !known.contains(v) ==> #[trigger] outgoing(
                seen,
                known,
                resend,
            ).contains(v),
        seen.no_duplicates() ==> outgoing(seen, known, resend).no_duplicates(),
    decreases seen.len(),
{
    let out = outgoing(seen, known, resend);
    if seen.len() > 0 {
        let front = seen.drop_last();
        let rest = outgoing(front, known, resend);
        let last = seen.len() - 1;
        lemma_outgoing(front, known, resend);
        assert forall|v: usize| #[trigger] out.contains(v) implies seen.contains(v) by {
            let k = choose|k: int| 0 <= k < out.len() && out[k] == v;
            if k < rest.len() {
                assert(rest.contains(v));
                let at = choose|at: int| 0 <= at < front.len() && front[at] == v;
                assert(seen[at] == v);
            } else {
                assert(seen[last] == v);
            }
        }
        assert forall|i: int|
            0 <= i < seen.len() && goes_out(seen, known, resend, i) implies out.contains(
            #[trigger] seen[i],
        ) by {
            if i < last {
                assert(front[i] == seen[i]);
                assert(goes_out(front, known, resend, i));
                assert(rest.contains(front[i]));
                let k = choose|k: int| 0 <= k < rest.len() && rest[k] == front[i];
                assert(out[k] == seen[i]);
            } else {
                assert(out[out.len() - 1] == seen[i]);
            }
        }
        assert forall|v: usize| seen.contains(v) && !known.contains(v) implies #[trigger] out.contains(
            v,
        ) by {
            let at = choose|at: int| 0 <= at < seen.len() && seen[at] == v;
            assert(goes_out(seen, known, resend, at));
        }
        if seen.no_duplicates() {
            assert(front.no_duplicates());
            if goes_out(seen, known, resend, last) {
                if rest.contains(seen[last]) {
                    let at = choose|at: int| 0 <= at < front.len() && front[at] == seen[last];
                    assert(seen[at] == seen[last]);
                }
                assert(out.no_duplicates());
            }
        }
    }
}

/// Whether `request` brings `value` to a node: as a broadcast of it, or as
/// gossip that holds it.
pub open spec fn carries(request: MessageView<PayloadView>, value: usize) -> bool {
    match request.body.payload {
        PayloadView::Broadcast { message } => message == value,
        PayloadView::Gossip { seen } => seen.contains(value),
        _ => false,
    }
}

/// Every envelope keeps the values that a node has seen, in their order, and
/// keeps them distinct.
pub proof fn lemma_seen_only_grows(node: NodeView, request: MessageView<PayloadView>)
    requires
        node.seen.no_duplicates(),
    ensures
        node.seen.is_prefix_of(handle(node, request).state.seen),
        handle(node, request).state.seen.no_duplicates(),
{
    match request.body.payload {
        PayloadView::Broadcast { message } => {
            lemma_ingest(node.seen, message);
        },
        PayloadView::Gossip { seen } => {
            lemma_ingest_all(node.seen, seen);
        },
        _ => {},
    }
}

/// A value that reaches a node twice, by broadcast or by gossip, is held
/// once: after the first envelope that the node accepts with it, and still
/// after the second.
pub proof fn lemma_ingestion_is_idempotent(
    node: NodeView,
    first: MessageView<PayloadView>,
    second: MessageView<PayloadView>,
    value: usize,
)
    requires
        node.seen.no_duplicates(),
        carries(first, value),
        carries(second, value),
        handle(node, first).outcome is Ok,
    ensures
        handle(node, first).state.seen.to_multiset().count(value) == 1,
        handle(handle(node, first).state, second).state.seen.to_multiset().count(value) == 1,
        second.body.payload is Broadcast ==> handle(handle(node, first).state, second).state.seen
            == handle(node, first).state.seen,
{
    let once = handle(node, first).state;
    let twice = handle(once, second).state;
    lemma_seen_only_grows(node, first);
    lemma_seen_only_grows(once, second);
    match first.body.payload {
        PayloadView::Broadcast { message } => {
            lemma_ingest(node.seen, message);
        },
        PayloadView::Gossip { seen } => {
            lemma_ingest_all(node.seen, seen);
            assert(seen.to_set().contains(value));
        },
        _ => {},
    }
    assert(once.seen.to_set().contains(value));
    assert(once.seen.contains(value));
    let at = choose|at: int| 0 <= at < once.seen.len() && once.seen[at] == value;
    assert(twice.seen[at] == value);
    assert(twice.seen.contains(value));
    once.seen.lemma_multiset_has_no_duplicates();
    twice.seen.lemma_multiset_has_no_duplicates();
    vstd::seq_lib::to_multiset_contains(once.seen, value);
    vstd::seq_lib::to_multiset_contains(twice.seen, value);
}

/// The state after a node has handled each of `requests`, in order.
pub open spec fn after_all(node: NodeView, requests: Seq<MessageView<PayloadView>>) -> NodeView
    decreases requests.len(),
{
    if requests.len() == 0 {
        node
    } else {
        handle(after_all(node, requests.drop_last()), requests.last()).state
    }
}

/// The values that an envelope brings: the one of a broadcast, those of
/// gossip, none otherwise.
pub open spec fn brought(request: MessageView<PayloadView>) -> Set<usize> {
    match request.body.payload {
        PayloadView::Broadcast { message } => Set::empty().insert(message),
        PayloadView::Gossip { seen } => seen.to_set(),
        _ => Set::empty(),
    }
}

/// The values that a list of envelopes brings.
pub open spec fn brought_by_all(requests: Seq<MessageView<PayloadView>>) -> Set<usize>
    decreases requests.len(),
{
    if requests.len() == 0 {
        Set::empty()
    } else {
        brought_by_all(requests.drop_last()).union(brought(requests.last()))
    }
}

/// Whether every one of `requests` is a broadcast or gossip.
pub open spec fn all_bring_values(requests: Seq<MessageView<PayloadView>>) -> bool {
    forall|k: int|
        0 <= k < requests.len() ==> (#[trigger] requests[k]).body.payload is Broadcast
            || requests[k].body.payload is Gossip
}

/// After any list of broadcasts and gossip, a read is answered with exactly
/// the values that the node held before and those that the list brought.
/// The node must be initialised and have a message id left for each reply.
pub proof fn lemma_read_reflects_ingested(
    node: NodeView,
    requests: Seq<MessageView<PayloadView>>,
    read: MessageView<PayloadView>,
)
    requires
        node.node_id is Some,
        node.seen.no_duplicates(),
        node.next_msg_id + requests.len() < usize::MAX,
        all_bring_values(requests),
        read.body.payload is Read,
    ensures
        ({
            let state = after_all(node, requests);
            let answered = handle(state, read);
            &&& answered.outcome is Ok
            &&& answered.outcome->Ok_0.len() == 1
            &&& answered.outcome->Ok_0[0] matches crate::message::ActionView::Send(reply)
            &&& reply.dest == read.src
            &&& reply.body.in_reply_to == read.body.msg_id
            &&& reply.body.payload matches PayloadView::ReadOk { messages }
            &&& messages == state.seen
            &&& messages.no_duplicates()
            &&& messages.to_set() == node.seen.to_set().union(brought_by_all(requests))
        }),
{
    lemma_after_all(node, requests);
}

/// What a list of broadcasts and gossip leaves of an initialised node with
/// enough message ids: the same id, distinct values, namely those held before
/// and those brought, and at most one message id used per envelope.
pub proof fn lemma_after_all(node: NodeView, requests: Seq<MessageView<PayloadView>>)
    requires
        node.node_id is Some,
        node.seen.no_duplicates(),
        node.next_msg_id + requests.len() < usize::MAX,
        all_bring_values(requests),
    ensures
        after_all(node, requests).node_id == node.node_id,
        after_all(node, requests).neighbors == node.neighbors,
        after_all(node, requests).seen.no_duplicates(),
        node.seen.is_prefix_of(after_all(node, requests).seen),
        after_all(node, requests).seen.to_set() == node.seen.to_set().union(
            brought_by_all(requests),
        ),
        node.next_msg_id <= after_all(node, requests).next_msg_id <= node.next_msg_id
            + requests.len(),
    decreases requests.len(),
{
    if requests.len() == 0 {
        assert(node.seen.to_set().union(brought_by_all(requests)) =~= node.seen.to_set());
    } else {
        let front = requests.drop_last();
        let last = requests.last();
        lemma_after_all(node, front);
        let middle = after_all(node, front);
        assert(requests[requests.len() - 1] == last);
        match last.body.payload {
            PayloadView::Broadcast { message } => {
                lemma_ingest(middle.seen, message);
            },
            PayloadView::Gossip { seen } => {
                lemma_ingest_all(middle.seen, seen);
            },
            _ => {},
        }
        assert(after_all(node, requests).seen.to_set() =~= node.seen.to_set().union(
            brought_by_all(requests),
        ));
    }
}

/// Message ids are never used twice: an envelope that is answered is
/// answered once, under the id that was next, and the next id is then one
/// higher; an envelope that is not answered leaves the next id as it was.
pub proof fn lemma_message_ids_are_fresh(node: NodeView, request: MessageView<PayloadView>)
    ensures
        ({
            let after = handle(node, request);
            let sends = match after.outcome {
                Ok(actions) => actions.filter(|a: crate::protocol::BroadcastAction| a is Send),
                Err(_) => Seq::empty(),
            };
            &&& node.next_msg_id <= after.state.next_msg_id
            &&& sends.len() <= 1
            &&& sends.len() == 1 ==> sends[0]->Send_0.body.msg_id == Some(node.next_msg_id)
                && after.state.next_msg_id == node.next_msg_id + 1
            &&& sends.len() == 0 ==> after.state.next_msg_id == node.next_msg_id
        }),
{
    let after = handle(node, request);
    let only_sends = |a: crate::protocol::BroadcastAction| a is Send;
    match after.outcome {
        Ok(actions) => {
            if actions.len() == 0 {
                assert(actions.filter(only_sends) =~= Seq::empty()) by {
                    assert(actions =~= Seq::empty());
                    reveal(Seq::filter);
                }
            } else if actions.len() == 1 {
                let reply = actions[0];
                assert(actions =~= Seq::empty().push(reply));
                Seq::<crate::protocol::BroadcastAction>::empty().lemma_filter_push(reply, only_sends);
                assert(Seq::<crate::protocol::BroadcastAction>::empty().filter(only_sends)
                    =~= Seq::empty()) by {
                    reveal(Seq::filter);
                }
            } else {
                let timer = actions[0];
                let reply = actions[1];
                let none = Seq::<crate::protocol::BroadcastAction>::empty();
                assert(actions =~= none.push(timer).push(reply));
                none.lemma_filter_push(timer, only_sends);
                none.push(timer).lemma_filter_push(reply, only_sends);
                assert(none.filter(only_sends) =~= Seq::empty()) by {
                    reveal(Seq::filter);
                }
            }
        },
        Err(_) => {},
    }
}

/// A topology replaces the neighbours: after two topologies in a row the
/// node's neighbours are those that the second one lists for it, whatever the
/// first one listed.
pub proof fn lemma_topology_replaces(
    node: NodeView,
    first: MessageView<PayloadView>,
    second: MessageView<PayloadView>,
)
    requires
        first.body.payload is Topology,
        second.body.payload is Topology,
        handle(handle(node, first).state, second).outcome is Ok,
    ensures
        node.node_id is Some,
        Some(handle(handle(node, first).state, second).state.neighbors) == neighbors_of(
            second.body.payload->topology,
            node.node_id->Some_0,
        ),
{
}

/// However many values a node has seen, as far as 32 bits count them, the
/// number of values that a tick is expected to send again to a neighbour that
/// holds them all, `count` times the resend probability, is at most
/// [`RESEND_TARGET`]; and while the node has seen no more values than that,
/// the probability is one.
pub proof fn lemma_resend_is_bounded(count: nat)
    requires
        0 < count <= u32::MAX,
    ensures
        0 < resend_denominator(count),
        resend_numerator(count) <= resend_denominator(count),
        count * resend_numerator(count) <= RESEND_TARGET * resend_denominator(count),
        count <= RESEND_TARGET ==> resend_numerator(count) == resend_denominator(count),
{
    assert(count * resend_numerator(count) <= RESEND_TARGET * resend_denominator(count))
        by (nonlinear_arith)
        requires
            resend_denominator(count) == count,
            resend_numerator(count) <= RESEND_TARGET,
    ;
}

} // verus!
