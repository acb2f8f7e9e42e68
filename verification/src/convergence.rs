//! How values spread through a cluster of broadcast nodes.
//!
//! The cluster is a list of node states. Clients send requests to single
//! nodes, and a gossip envelope that a tick produced either arrives at its
//! neighbour or is lost. A lost envelope changes nothing at either end, so a
//! schedule lists the arrivals only: whatever was lost in between is simply
//! not in it. An envelope is taken to arrive at the moment it is sent.

use crate::gossip::outgoing;
use crate::knowledge::believed;
use crate::laws::{lemma_ingest, lemma_ingest_all, lemma_outgoing, lemma_seen_only_grows};
use crate::message::{ActionView, MessageView};
use crate::protocol::{gossip_to, handle, NodeView, PayloadView};
use vstd::prelude::*;

verus! {

/// Something that happens in the cluster.
pub enum Occurrence {
    /// The node at index `at` handles a client's `request`.
    Request { at: int, request: MessageView<PayloadView> },
    /// The node at index `from` ticks, its coins for the node at index `to`
    /// fall as `coins` says, and the envelope for that node arrives.
    Arrival { from: int, to: int, coins: Seq<bool> },
}

/// The id of an initialised node.
pub open spec fn id_of(node: NodeView) -> Seq<char> {
    node.node_id->Some_0
}

/// Every node is initialised, no two nodes share an id, and no node holds a
/// value twice.
pub open spec fn well_formed(cluster: Seq<NodeView>) -> bool {
    &&& forall|i: int| 0 <= i < cluster.len() ==> (#[trigger] cluster[i]).node_id is Some
    &&& forall|i: int| 0 <= i < cluster.len() ==> (#[trigger] cluster[i]).seen.no_duplicates()
    &&& forall|i: int, j: int|
        0 <= i < cluster.len() && 0 <= j < cluster.len() && i != j ==> id_of(#[trigger] cluster[i])
            != id_of(#[trigger] cluster[j])
}

/// No node believes a peer to hold a value that the peer does not hold.
pub open spec fn sound(cluster: Seq<NodeView>) -> bool {
    forall|a: int, b: int|
        0 <= a < cluster.len() && 0 <= b < cluster.len() ==> believed(
            (#[trigger] cluster[a]).known,
            id_of(#[trigger] cluster[b]),
        ).subset_of(cluster[b].seen.to_set())
}

/// Whether a node believes nothing of any peer, as after its initialisation.
pub open spec fn unaware(node: NodeView) -> bool {
    forall|peer: Seq<char>| #[trigger] believed(node.known, peer) == Set::<usize>::empty()
}

/// Whether the node at `to` is a neighbour of the node at `from`.
pub open spec fn linked(cluster: Seq<NodeView>, from: int, to: int) -> bool {
    &&& 0 <= from < cluster.len()
    &&& 0 <= to < cluster.len()
    &&& cluster[from].neighbors.contains(id_of(cluster[to]))
}

/// Whether a client may send `request`: initialisation and topology belong to
/// the setting up of the cluster, and gossip comes from nodes only.
pub open spec fn from_client(request: MessageView<PayloadView>) -> bool {
    &&& !(request.body.payload is Init)
    &&& !(request.body.payload is Topology)
    &&& !(request.body.payload is Gossip)
}

/// The envelope that arrives at the node at `to` when the node at `from`
/// ticks and its coins for that neighbour fall as `coins` says.
pub open spec fn envelope(cluster: Seq<NodeView>, from: int, to: int, coins: Seq<bool>)
    -> MessageView<PayloadView> {
    gossip_to(
        id_of(cluster[from]),
        id_of(cluster[to]),
        outgoing(cluster[from].seen, believed(cluster[from].known, id_of(cluster[to])), coins),
    )
}

/// The cluster after `what` happened. A request to a node that does not
/// exist, a request that no client sends, and an arrival between nodes that
/// are not linked do not happen: they leave the cluster as it is.
pub open spec fn occurs(cluster: Seq<NodeView>, what: Occurrence) -> Seq<NodeView> {
    match what {
        Occurrence::Request { at, request } => if 0 <= at < cluster.len() && from_client(request) {
            cluster.update(at, handle(cluster[at], request).state)
        } else {
            cluster
        },
        Occurrence::Arrival { from, to, coins } => if linked(cluster, from, to) {
            cluster.update(to, handle(cluster[to], envelope(cluster, from, to, coins)).state)
        } else {
            cluster
        },
    }
}

/// The cluster after everything in `schedule` happened, in order.
pub open spec fn run(cluster: Seq<NodeView>, schedule: Seq<Occurrence>) -> Seq<NodeView>
    decreases schedule.len(),
{
    if schedule.len() == 0 {
        cluster
    } else {
        run(occurs(cluster, schedule[0]), schedule.skip(1))
    }
}

/// Whether `path` leads through the cluster from neighbour to neighbour.
pub open spec fn is_path(cluster: Seq<NodeView>, path: Seq<int>) -> bool {
    &&& path.len() >= 1
    &&& forall|k: int| 0 <= k < path.len() ==> 0 <= #[trigger] path[k] < cluster.len()
    &&& forall|k: int| 0 <= k < path.len() - 1 ==> linked(cluster, #[trigger] path[k], path[k + 1])
}

/// Whether `schedule` holds, for each step of `path` in turn, an arrival along
/// that step that comes after the arrival along the step before.
pub open spec fn covers(schedule: Seq<Occurrence>, path: Seq<int>) -> bool
    decreases path.len(),
{
    if path.len() <= 1 {
        true
    } else {
        exists|t: int| #[trigger]
            hop_at(schedule, path, t) && covers(schedule.skip(t + 1), path.skip(1))
    }
}

/// Whether the occurrence at position `t` of `schedule` is an arrival along
/// the first step of `path`.
pub open spec fn hop_at(schedule: Seq<Occurrence>, path: Seq<int>, t: int) -> bool {
    &&& 0 <= t < schedule.len()
    &&& path.len() >= 2
    &&& schedule[t] matches Occurrence::Arrival { from, to, .. }
    &&& from == path[0]
    &&& to == path[1]
}

/// An initialisation that a node accepts leaves it initialised and unaware.
pub proof fn lemma_init_is_unaware(node: NodeView, request: MessageView<PayloadView>)
    requires
        request.body.payload is Init,
        handle(node, request).outcome is Ok,
    ensures
        handle(node, request).state.node_id == Some(request.body.payload->Init_0.node_id),
        handle(node, request).state.seen == node.seen,
        unaware(handle(node, request).state),
{
}

/// A cluster of nodes that believe nothing of any peer is sound.
pub proof fn lemma_start_is_sound(cluster: Seq<NodeView>)
    requires
        forall|i: int| 0 <= i < cluster.len() ==> unaware(#[trigger] cluster[i]),
    ensures
        sound(cluster),
{
    assert forall|a: int, b: int| 0 <= a < cluster.len() && 0 <= b < cluster.len() implies believed(
        (#[trigger] cluster[a]).known,
        id_of(#[trigger] cluster[b]),
    ).subset_of(cluster[b].seen.to_set()) by {
        assert(unaware(cluster[a]));
    }
}

/// Whatever happens, the cluster keeps its nodes, their ids and their
/// neighbours, and every node keeps the values it holds, in their order.
pub proof fn lemma_occurs_keeps(cluster: Seq<NodeView>, what: Occurrence)
    requires
        well_formed(cluster),
    ensures
        well_formed(occurs(cluster, what)),
        occurs(cluster, what).len() == cluster.len(),
        forall|i: int|
            0 <= i < cluster.len() ==> {
                let before = cluster[i];
                let after = #[trigger] occurs(cluster, what)[i];
                &&& after.node_id == before.node_id
                &&& after.neighbors == before.neighbors
                &&& before.seen.is_prefix_of(after.seen)
            },
{
    match what {
        Occurrence::Request { at, request } => {
            if 0 <= at < cluster.len() && from_client(request) {
                lemma_seen_only_grows(cluster[at], request);
            }
        },
        Occurrence::Arrival { from, to, coins } => {
            if linked(cluster, from, to) {
                lemma_seen_only_grows(cluster[to], envelope(cluster, from, to, coins));
            }
        },
    }
}

/// A value that a node holds, it still holds after its values grew.
proof fn lemma_prefix_holds(before: Seq<usize>, after: Seq<usize>)
    requires
        before.is_prefix_of(after),
    ensures
        before.to_set().subset_of(after.to_set()),
{
    assert forall|v: usize| before.to_set().contains(v) implies after.to_set().contains(v) by {
        let at = choose|at: int| 0 <= at < before.len() && before[at] == v;
        assert(after[at] == v);
    }
}

/// Whatever happens, no node comes to believe of a peer what the peer does
/// not hold.
pub proof fn lemma_occurs_sound(cluster: Seq<NodeView>, what: Occurrence)
    requires
        well_formed(cluster),
        sound(cluster),
    ensures
        sound(occurs(cluster, what)),
{
    let next = occurs(cluster, what);
    lemma_occurs_keeps(cluster, what);
    assert forall|a: int, b: int| 0 <= a < next.len() && 0 <= b < next.len() implies believed(
        (#[trigger] next[a]).known,
        id_of(#[trigger] next[b]),
    ).subset_of(next[b].seen.to_set()) by {
        lemma_prefix_holds(cluster[b].seen, next[b].seen);
        assert(believed(cluster[a].known, id_of(cluster[b])).subset_of(cluster[b].seen.to_set()));
        match what {
            Occurrence::Request { at, request } => {
                if 0 <= at < cluster.len() && from_client(request) && a == at {
                    match request.body.payload {
                        PayloadView::Broadcast { message } => {
                            lemma_ingest(cluster[at].seen, message);
                        },
                        _ => {},
                    }
                }
            },
            Occurrence::Arrival { from, to, coins } => {
                if linked(cluster, from, to) && a == to {
                    let sent = outgoing(
                        cluster[from].seen,
                        believed(cluster[from].known, id_of(cluster[to])),
                        coins,
                    );
                    lemma_outgoing(
                        cluster[from].seen,
                        believed(cluster[from].known, id_of(cluster[to])),
                        coins,
                    );
                    lemma_prefix_holds(cluster[from].seen, next[from].seen);
                    assert(sent.to_set().subset_of(cluster[from].seen.to_set())) by {
                        assert forall|v: usize| sent.to_set().contains(v) implies cluster[from].seen.to_set().contains(
                            v,
                        ) by {
                            assert(sent.contains(v));
                        }
                    }
                }
            },
        }
    }
}

/// An envelope that arrives leaves the neighbour with every value that the
/// sender holds, however the coins fell.
pub proof fn lemma_arrival_delivers(cluster: Seq<NodeView>, from: int, to: int, coins: Seq<bool>)
    requires
        well_formed(cluster),
        sound(cluster),
        linked(cluster, from, to),
    ensures
        cluster[from].seen.to_set().subset_of(
            occurs(cluster, Occurrence::Arrival { from, to, coins })[to].seen.to_set(),
        ),
{
    let known = believed(cluster[from].known, id_of(cluster[to]));
    let sent = outgoing(cluster[from].seen, known, coins);
    let after = occurs(cluster, Occurrence::Arrival { from, to, coins })[to];
    lemma_outgoing(cluster[from].seen, known, coins);
    lemma_ingest_all(cluster[to].seen, sent);
    assert(after.seen == crate::protocol::ingest_all(cluster[to].seen, sent));
    assert(known.subset_of(cluster[to].seen.to_set()));
    assert forall|v: usize| cluster[from].seen.to_set().contains(v) implies after.seen.to_set().contains(
        v,
    ) by {
        if known.contains(v) {
            assert(cluster[to].seen.to_set().contains(v));
        } else {
            assert(cluster[from].seen.contains(v));
            assert(sent.contains(v));
            assert(sent.to_set().contains(v));
        }
    }
}

/// Whatever the schedule, the cluster stays well formed and sound, keeps its
/// ids and neighbours, and no node loses a value.
pub proof fn lemma_run_keeps(cluster: Seq<NodeView>, schedule: Seq<Occurrence>)
    requires
        well_formed(cluster),
        sound(cluster),
    ensures
        well_formed(run(cluster, schedule)),
        sound(run(cluster, schedule)),
        run(cluster, schedule).len() == cluster.len(),
        forall|i: int|
            0 <= i < cluster.len() ==> {
                let before = cluster[i];
                let after = #[trigger] run(cluster, schedule)[i];
                &&& after.node_id == before.node_id
                &&& after.neighbors == before.neighbors
                &&& before.seen.is_prefix_of(after.seen)
            },
    decreases schedule.len(),
{
    if schedule.len() > 0 {
        let next = occurs(cluster, schedule[0]);
        lemma_occurs_keeps(cluster, schedule[0]);
        lemma_occurs_sound(cluster, schedule[0]);
        lemma_run_keeps(next, schedule.skip(1));
        assert forall|i: int| 0 <= i < cluster.len() implies cluster[i].seen.is_prefix_of(
            (#[trigger] run(cluster, schedule)[i]).seen,
        ) by {
            assert(cluster[i].seen.is_prefix_of(next[i].seen));
            assert(next[i].seen.is_prefix_of(run(next, schedule.skip(1))[i].seen));
        }
    }
}

/// A path of the cluster is still one after something happened.
proof fn lemma_path_stays(cluster: Seq<NodeView>, what: Occurrence, path: Seq<int>)
    requires
        well_formed(cluster),
        is_path(cluster, path),
    ensures
        is_path(occurs(cluster, what), path),
{
    let next = occurs(cluster, what);
    lemma_occurs_keeps(cluster, what);
    assert forall|k: int| 0 <= k < path.len() - 1 implies linked(
        next,
        #[trigger] path[k],
        path[k + 1],
    ) by {
        assert(linked(cluster, path[k], path[k + 1]));
        assert(next[path[k]].neighbors == cluster[path[k]].neighbors);
        assert(next[path[k + 1]].node_id == cluster[path[k + 1]].node_id);
    }
}

/// A value travels along a path: if the schedule holds an arrival along each
/// step of the path, one after the other, then at the end the last node of
/// the path holds every value that the first node held at the start. What
/// else happens in between, how the coins fall and how many envelopes were
/// lost before one arrived does not matter.
pub proof fn lemma_value_travels(
    cluster: Seq<NodeView>,
    schedule: Seq<Occurrence>,
    path: Seq<int>,
    value: usize,
)
    requires
        well_formed(cluster),
        sound(cluster),
        is_path(cluster, path),
        covers(schedule, path),
        cluster[path[0]].seen.contains(value),
    ensures
        run(cluster, schedule).len() == cluster.len(),
        run(cluster, schedule)[path.last()].seen.contains(value),
    decreases schedule.len(),
{
    lemma_run_keeps(cluster, schedule);
    if path.len() == 1 {
        lemma_prefix_holds(cluster[path[0]].seen, run(cluster, schedule)[path[0]].seen);
        assert(cluster[path[0]].seen.to_set().contains(value));
    } else {
        let t = choose|t: int| #[trigger]
            hop_at(schedule, path, t) && covers(schedule.skip(t + 1), path.skip(1));
        let first = schedule[0];
        let next = occurs(cluster, first);
        let rest = schedule.skip(1);
        lemma_occurs_keeps(cluster, first);
        lemma_occurs_sound(cluster, first);
        lemma_path_stays(cluster, first, path);
        lemma_prefix_holds(cluster[path[0]].seen, next[path[0]].seen);
        assert(cluster[path[0]].seen.to_set().contains(value));
        if t == 0 {
            let tail = path.skip(1);
            match first {
                Occurrence::Arrival { from, to, coins } => {
                    assert(linked(cluster, path[0], path[1]));
                    lemma_arrival_delivers(cluster, from, to, coins);
                    assert(next[path[1]].seen.to_set().contains(value));
                },
                _ => {},
            }
            assert(is_path(next, tail)) by {
                assert forall|k: int| 0 <= k < tail.len() implies 0 <= #[trigger] tail[k]
                    < next.len() by {
                    assert(tail[k] == path[k + 1]);
                }
                assert forall|k: int| 0 <= k < tail.len() - 1 implies linked(
                    next,
                    #[trigger] tail[k],
                    tail[k + 1],
                ) by {
                    assert(tail[k] == path[k + 1]);
                    assert(linked(next, path[k + 1], path[k + 2]));
                }
            }
            assert(tail[0] == path[1]);
            assert(tail.last() == path.last());
            lemma_value_travels(next, rest, tail, value);
        } else {
            assert(rest.skip(t) =~= schedule.skip(t + 1));
            assert(rest[t - 1] == schedule[t]);
            assert(hop_at(rest, path, t - 1));
            assert(covers(rest, path));
            lemma_value_travels(next, rest, path, value);
        }
    }
}

/// Whether `round` holds an arrival along every link of the cluster: every
/// node has ticked and none of its envelopes was lost.
pub open spec fn full_round(cluster: Seq<NodeView>, round: Seq<Occurrence>) -> bool {
    forall|from: int, to: int| #[trigger]
        linked(cluster, from, to) ==> exists|t: int| #[trigger] arrival_at(round, from, to, t)
}

/// Whether the occurrence at position `t` of `round` is an arrival at the node
/// at `to` from the node at `from`.
pub open spec fn arrival_at(round: Seq<Occurrence>, from: int, to: int, t: int) -> bool {
    &&& 0 <= t < round.len()
    &&& round[t] matches Occurrence::Arrival { from: sender, to: receiver, .. }
    &&& sender == from
    &&& receiver == to
}

/// Whether `schedule` starts with `count` full rounds, one after the other.
pub open spec fn starts_with_rounds(cluster: Seq<NodeView>, schedule: Seq<Occurrence>, count: nat)
    -> bool
    decreases count,
{
    if count == 0 {
        true
    } else {
        exists|n: int| #[trigger]
            round_ends_at(cluster, schedule, n) && starts_with_rounds(
                cluster,
                schedule.skip(n),
                (count - 1) as nat,
            )
    }
}

/// Whether the first `n` occurrences of `schedule` are a full round.
pub open spec fn round_ends_at(cluster: Seq<NodeView>, schedule: Seq<Occurrence>, n: int) -> bool {
    0 <= n <= schedule.len() && full_round(cluster, schedule.take(n))
}

/// What a schedule covers, it still covers when more happens before it.
pub proof fn lemma_covers_after(before: Seq<Occurrence>, schedule: Seq<Occurrence>, path: Seq<int>)
    requires
        covers(schedule, path),
    ensures
        covers(before + schedule, path),
{
    if path.len() > 1 {
        let t = choose|t: int| #[trigger]
            hop_at(schedule, path, t) && covers(schedule.skip(t + 1), path.skip(1));
        let all = before + schedule;
        let shifted = before.len() + t;
        assert(all[shifted] == schedule[t]);
        assert(all.skip(shifted + 1) =~= schedule.skip(t + 1));
        assert(hop_at(all, path, shifted));
    }
}

/// As many full rounds as the path has steps cover the path: without loss a
/// value needs no more rounds than the path is long.
pub proof fn lemma_rounds_cover(
    cluster: Seq<NodeView>,
    schedule: Seq<Occurrence>,
    path: Seq<int>,
    count: nat,
)
    requires
        is_path(cluster, path),
        starts_with_rounds(cluster, schedule, count),
        path.len() - 1 <= count,
    ensures
        covers(schedule, path),
    decreases path.len(),
{
    if path.len() > 1 {
        let n = choose|n: int| #[trigger]
            round_ends_at(cluster, schedule, n) && starts_with_rounds(
                cluster,
                schedule.skip(n),
                (count - 1) as nat,
            );
        let round = schedule.take(n);
        let later = schedule.skip(n);
        let tail = path.skip(1);
        assert(linked(cluster, path[0], path[1]));
        let t = choose|t: int| #[trigger] arrival_at(round, path[0], path[1], t);
        assert(arrival_at(round, path[0], path[1], t));
        assert(is_path(cluster, tail)) by {
            assert forall|k: int| 0 <= k < tail.len() implies 0 <= #[trigger] tail[k]
                < cluster.len() by {
                assert(tail[k] == path[k + 1]);
            }
            assert forall|k: int| 0 <= k < tail.len() - 1 implies linked(
                cluster,
                #[trigger] tail[k],
                tail[k + 1],
            ) by {
                assert(tail[k] == path[k + 1]);
                assert(linked(cluster, path[k + 1], path[k + 2]));
            }
        }
        lemma_rounds_cover(cluster, later, tail, (count - 1) as nat);
        let rest_of_round = round.skip(t + 1);
        lemma_covers_after(rest_of_round, later, tail);
        assert(schedule.skip(t + 1) =~= rest_of_round + later);
        assert(schedule[t] == round[t]);
        assert(hop_at(schedule, path, t));
    }
}

/// Whether `path` leads from the node at `source` to the node at `target` and
/// the schedule holds an arrival along each of its steps in turn.
pub open spec fn reaches(
    cluster: Seq<NodeView>,
    schedule: Seq<Occurrence>,
    path: Seq<int>,
    source: int,
    target: int,
) -> bool {
    &&& is_path(cluster, path)
    &&& path[0] == source
    &&& path.last() == target
    &&& covers(schedule, path)
}

/// Whether some path leads from the node at `source` to the node at `target`
/// along which the schedule holds arrivals in turn.
pub open spec fn reachable(
    cluster: Seq<NodeView>,
    schedule: Seq<Occurrence>,
    source: int,
    target: int,
) -> bool {
    exists|path: Seq<int>| #[trigger] reaches(cluster, schedule, path, source, target)
}

/// The values that a node answers `read` with, if it answers.
pub open spec fn read_from(node: NodeView, read: MessageView<PayloadView>) -> Option<Seq<usize>> {
    match handle(node, read).outcome {
        Ok(actions) => if actions.len() == 1 {
            match actions[0] {
                ActionView::Send(reply) => match reply.body.payload {
                    PayloadView::ReadOk { messages } => Some(messages),
                    _ => None,
                },
                _ => None,
            }
        } else {
            None
        },
        Err(_) => None,
    }
}

/// Every node hears of a value: if each node can be reached from the node at
/// `source` by a path along which the schedule holds arrivals in turn, then
/// at the end every node holds every value that the source held at the start,
/// and every node that has a message id left answers a read with it.
pub proof fn lemma_everyone_hears(
    cluster: Seq<NodeView>,
    schedule: Seq<Occurrence>,
    source: int,
    value: usize,
    read: MessageView<PayloadView>,
)
    requires
        well_formed(cluster),
        sound(cluster),
        0 <= source < cluster.len(),
        cluster[source].seen.contains(value),
        forall|target: int|
            0 <= target < cluster.len() ==> #[trigger] reachable(cluster, schedule, source, target),
        read.body.payload is Read,
    ensures
        run(cluster, schedule).len() == cluster.len(),
        forall|target: int|
            0 <= target < cluster.len() ==> (#[trigger] run(
                cluster,
                schedule,
            )[target]).seen.contains(value),
        forall|target: int|
            0 <= target < cluster.len() && (#[trigger] run(cluster, schedule)[target]).next_msg_id
                < usize::MAX ==> read_from(run(cluster, schedule)[target], read) is Some
                && read_from(run(cluster, schedule)[target], read)->Some_0.contains(value),
{
    lemma_run_keeps(cluster, schedule);
    assert forall|target: int| 0 <= target < cluster.len() implies (#[trigger] run(
        cluster,
        schedule,
    )[target]).seen.contains(value) by {
        assert(reachable(cluster, schedule, source, target));
        let path = choose|path: Seq<int>| #[trigger]
            reaches(cluster, schedule, path, source, target);
        lemma_value_travels(cluster, schedule, path, value);
    }
}

/// Whether the node at `target` can be reached from the node at `source`
/// over at most `count` links.
pub open spec fn within(cluster: Seq<NodeView>, source: int, target: int, count: nat) -> bool {
    exists|path: Seq<int>| #[trigger]
        leads(cluster, path, source, target) && path.len() - 1 <= count
}

/// Whether `path` leads from the node at `source` to the node at `target`.
pub open spec fn leads(cluster: Seq<NodeView>, path: Seq<int>, source: int, target: int) -> bool {
    &&& is_path(cluster, path)
    &&& path[0] == source
    &&& path.last() == target
}

/// Convergence without loss: in a cluster in which every node can be reached
/// from the node at `source` over at most `count` links, `count` full rounds
/// bring every value that the source holds to every node, whatever else
/// happens during and after them.
pub proof fn lemma_rounds_reach_everyone(
    cluster: Seq<NodeView>,
    schedule: Seq<Occurrence>,
    source: int,
    value: usize,
    count: nat,
    read: MessageView<PayloadView>,
)
    requires
        well_formed(cluster),
        sound(cluster),
        0 <= source < cluster.len(),
        cluster[source].seen.contains(value),
        forall|target: int|
            0 <= target < cluster.len() ==> #[trigger] within(cluster, source, target, count),
        starts_with_rounds(cluster, schedule, count),
        read.body.payload is Read,
    ensures
        run(cluster, schedule).len() == cluster.len(),
        forall|target: int|
            0 <= target < cluster.len() ==> (#[trigger] run(
                cluster,
                schedule,
            )[target]).seen.contains(value),
        forall|target: int|
            0 <= target < cluster.len() && (#[trigger] run(cluster, schedule)[target]).next_msg_id
                < usize::MAX ==> read_from(run(cluster, schedule)[target], read) is Some
                && read_from(run(cluster, schedule)[target], read)->Some_0.contains(value),
{
    assert forall|target: int| 0 <= target < cluster.len() implies #[trigger] reachable(
        cluster,
        schedule,
        source,
        target,
    ) by {
        assert(within(cluster, source, target, count));
        let path = choose|path: Seq<int>| #[trigger]
            leads(cluster, path, source, target) && path.len() - 1 <= count;
        lemma_rounds_cover(cluster, schedule, path, count);
        assert(reaches(cluster, schedule, path, source, target));
    }
    lemma_everyone_hears(cluster, schedule, source, value, read);
}

} // verus!
