//! The broadcast protocol: its payloads, and what each event does to a node,
//! stated over the mathematical content of node and envelope.

use crate::gossip::{fair_tosses, outgoing};
use crate::knowledge::{believed, blank, learned};
use crate::message::{action_views, names, reply_to, ActionView, BodyView, Init, InitView, MessageView};
use crate::node::{NodeError, Outcome};
use vstd::prelude::*;

verus! {

/// The time between two gossip ticks, in milliseconds.
pub const GOSSIP_PERIOD_MS: u64 = 300;

/// What an envelope of the broadcast protocol carries.
#[derive(Clone, Debug, PartialEq, Eq)]
pub enum BroadcastPayload {
    InitOk,
    Init(Init),
    Broadcast { message: usize },
    BroadcastOk,
    Read,
    ReadOk { messages: Vec<usize> },
    /// For each listed node, its neighbours.
    Topology { topology: Vec<(String, Vec<String>)> },
    TopologyOk,
    Gossip { seen: Vec<usize> },
}

/// What the timer of a broadcast node injects.
#[derive(Clone, Copy, Debug, PartialEq, Eq, Structural)]
pub enum InjectedPayload {
    /// Time to gossip with the neighbours.
    Gossip,
}

/// The mathematical content of a [`BroadcastPayload`].
pub enum PayloadView {
    InitOk,
    Init(InitView),
    Broadcast { message: usize },
    BroadcastOk,
    Read,
    ReadOk { messages: Seq<usize> },
    Topology { topology: Seq<(Seq<char>, Seq<Seq<char>>)> },
    TopologyOk,
    Gossip { seen: Seq<usize> },
}

/// The adjacency that a topology payload spells: node and neighbours of each
/// entry, in order.
pub open spec fn adjacency(topology: Seq<(String, Vec<String>)>) -> Seq<
    (Seq<char>, Seq<Seq<char>>),
> {
    Seq::new(topology.len(), |i: int| (topology[i].0@, names(topology[i].1@)))
}

impl View for BroadcastPayload {
    type V = PayloadView;

    open spec fn view(&self) -> PayloadView {
        match *self {
            BroadcastPayload::InitOk => PayloadView::InitOk,
            BroadcastPayload::Init(init) => PayloadView::Init(init@),
            BroadcastPayload::Broadcast { message } => PayloadView::Broadcast { message },
            BroadcastPayload::BroadcastOk => PayloadView::BroadcastOk,
            BroadcastPayload::Read => PayloadView::Read,
            BroadcastPayload::ReadOk { messages } => PayloadView::ReadOk { messages: messages@ },
            BroadcastPayload::Topology { topology } => PayloadView::Topology {
                topology: adjacency(topology@),
            },
            BroadcastPayload::TopologyOk => PayloadView::TopologyOk,
            BroadcastPayload::Gossip { seen } => PayloadView::Gossip { seen: seen@ },
        }
    }
}

impl View for InjectedPayload {
    type V = InjectedPayload;

    open spec fn view(&self) -> InjectedPayload {
        *self
    }
}

/// The state of a broadcast node as mathematics.
pub struct NodeView {
    /// The node's own id, once it is initialised.
    pub node_id: Option<Seq<char>>,
    /// The id that the next reply will carry.
    pub next_msg_id: usize,
    /// The values seen so far, in the order in which they arrived.
    pub seen: Seq<usize>,
    /// What each peer is believed to hold.
    pub known: Map<Seq<char>, Set<usize>>,
    /// The nodes to gossip with, as the last topology gave them.
    pub neighbors: Seq<Seq<char>>,
}

/// An action of a broadcast node as mathematics.
pub type BroadcastAction = ActionView<PayloadView, InjectedPayload>;

/// What one step does: the state it leaves and what it hands back.
pub struct Effect {
    pub state: NodeView,
    pub outcome: Result<Seq<BroadcastAction>, NodeError>,
}

/// `seen` after `value` arrived: a new value goes to the end, a value already
/// seen changes nothing.
pub open spec fn ingest(seen: Seq<usize>, value: usize) -> Seq<usize> {
    if seen.contains(value) {
        seen
    } else {
        seen.push(value)
    }
}

/// `seen` after each of `values` arrived, in order.
pub open spec fn ingest_all(seen: Seq<usize>, values: Seq<usize>) -> Seq<usize>
    decreases values.len(),
{
    if values.len() == 0 {
        seen
    } else {
        ingest(ingest_all(seen, values.drop_last()), values.last())
    }
}

/// The neighbours that `topology` lists for `node`: those of its first entry
/// for that node, if it has one.
pub open spec fn neighbors_of(topology: Seq<(Seq<char>, Seq<Seq<char>>)>, node: Seq<char>)
    -> Option<Seq<Seq<char>>>
    decreases topology.len(),
{
    if topology.len() == 0 {
        None
    } else if topology[0].0 == node {
        Some(topology[0].1)
    } else {
        neighbors_of(topology.skip(1), node)
    }
}

/// The state before any event.
pub open spec fn initial() -> NodeView {
    NodeView {
        node_id: None,
        next_msg_id: 0,
        seen: Seq::empty(),
        known: Map::empty(),
        neighbors: Seq::empty(),
    }
}

/// A refusal: the state stays as it was.
pub open spec fn refuse(node: NodeView, error: NodeError) -> Effect {
    Effect { state: node, outcome: Err(error) }
}

/// The step that leaves `state` and answers `request` with `payload` under
/// the node's next message id, which is then used up.
pub open spec fn answer(
    state: NodeView,
    request: MessageView<PayloadView>,
    payload: PayloadView,
) -> Effect {
    Effect {
        state: NodeView { next_msg_id: (state.next_msg_id + 1) as usize, ..state },
        outcome: Ok(seq![ActionView::Send(reply_to(request, state.next_msg_id, payload))]),
    }
}

/// Initialisation: the node takes its id, believes nothing of any listed
/// peer, has no neighbours until a topology arrives, asks for its gossip timer
/// and answers `InitOk`.
pub open spec fn on_init(node: NodeView, request: MessageView<PayloadView>, init: InitView)
    -> Effect {
    if node.next_msg_id == usize::MAX {
        refuse(node, NodeError::MessageIdsExhausted)
    } else {
        Effect {
            state: NodeView {
                node_id: Some(init.node_id),
                next_msg_id: (node.next_msg_id + 1) as usize,
                seen: node.seen,
                known: blank(init.node_ids),
                neighbors: Seq::empty(),
            },
            outcome: Ok(
                seq![
                    ActionView::Schedule {
                        period_ms: GOSSIP_PERIOD_MS,
                        payload: InjectedPayload::Gossip,
                    },
                    ActionView::Send(reply_to(request, node.next_msg_id, PayloadView::InitOk)),
                ],
            ),
        }
    }
}

/// A broadcast request: the value is taken in, the node itself is known to
/// hold it, and the answer is `BroadcastOk`.
pub open spec fn on_broadcast(
    node: NodeView,
    me: Seq<char>,
    request: MessageView<PayloadView>,
    value: usize,
) -> Effect {
    if node.next_msg_id == usize::MAX {
        refuse(node, NodeError::MessageIdsExhausted)
    } else {
        answer(
            NodeView {
                seen: ingest(node.seen, value),
                known: learned(node.known, me, Set::empty().insert(value)),
                ..node
            },
            request,
            PayloadView::BroadcastOk,
        )
    }
}

/// A read request: the answer carries the values seen so far.
pub open spec fn on_read(node: NodeView, request: MessageView<PayloadView>) -> Effect {
    if node.next_msg_id == usize::MAX {
        refuse(node, NodeError::MessageIdsExhausted)
    } else {
        answer(node, request, PayloadView::ReadOk { messages: node.seen })
    }
}

/// A topology: the node's neighbours become exactly those the topology lists
/// for it, whatever they were before. A topology that does not list the node
/// is refused.
pub open spec fn on_topology(
    node: NodeView,
    me: Seq<char>,
    request: MessageView<PayloadView>,
    topology: Seq<(Seq<char>, Seq<Seq<char>>)>,
) -> Effect {
    match neighbors_of(topology, me) {
        None => refuse(node, NodeError::MissingFromTopology),
        Some(neighbors) => if node.next_msg_id == usize::MAX {
            refuse(node, NodeError::MessageIdsExhausted)
        } else {
            answer(NodeView { neighbors, ..node }, request, PayloadView::TopologyOk)
        },
    }
}

/// Gossip from a peer: its values are taken in, the sender is known to hold
/// them, and nothing is answered.
pub open spec fn on_gossip(node: NodeView, sender: Seq<char>, values: Seq<usize>) -> Effect {
    Effect {
        state: NodeView {
            seen: ingest_all(node.seen, values),
            known: learned(node.known, sender, values.to_set()),
            ..node
        },
        outcome: Ok(Seq::empty()),
    }
}

/// What an envelope does to a node. Acknowledgements are ignored in every
/// state; an initialisation is accepted in every state; everything else is
/// refused until the node is initialised.
pub open spec fn handle(node: NodeView, request: MessageView<PayloadView>) -> Effect {
    match request.body.payload {
        PayloadView::InitOk | PayloadView::BroadcastOk | PayloadView::ReadOk { .. }
        | PayloadView::TopologyOk => Effect { state: node, outcome: Ok(Seq::empty()) },
        PayloadView::Init(init) => on_init(node, request, init),
        PayloadView::Broadcast { message } => match node.node_id {
            None => refuse(node, NodeError::NotInitialized),
            Some(me) => on_broadcast(node, me, request, message),
        },
        PayloadView::Read => match node.node_id {
            None => refuse(node, NodeError::NotInitialized),
            Some(_) => on_read(node, request),
        },
        PayloadView::Topology { topology } => match node.node_id {
            None => refuse(node, NodeError::NotInitialized),
            Some(me) => on_topology(node, me, request, topology),
        },
        PayloadView::Gossip { seen } => match node.node_id {
            None => refuse(node, NodeError::NotInitialized),
            Some(_) => on_gossip(node, request.src, seen),
        },
    }
}

/// The gossip envelope from `me` to `to` that carries `values`. It belongs to
/// no exchange of request and reply, so it carries no ids.
pub open spec fn gossip_to(me: Seq<char>, to: Seq<char>, values: Seq<usize>) -> MessageView<
    PayloadView,
> {
    MessageView {
        src: me,
        dest: to,
        body: BodyView {
            msg_id: None,
            in_reply_to: None,
            payload: PayloadView::Gossip { seen: values },
        },
    }
}

/// What a tick sends when the coins fell as `coins` says, one list of coins
/// per neighbour: one envelope to each neighbour, in the order of the
/// neighbours, with the values that [`outgoing`] picks for it.
pub open spec fn tick(node: NodeView, me: Seq<char>, coins: Seq<Seq<bool>>) -> Seq<
    BroadcastAction,
> {
    Seq::new(
        node.neighbors.len(),
        |j: int|
            ActionView::Send(
                gossip_to(
                    me,
                    node.neighbors[j],
                    outgoing(node.seen, believed(node.known, node.neighbors[j]), coins[j]),
                ),
            ),
    )
}

/// What holds of the coins of a tick, however they fell: each neighbour has
/// its list, and [`fair_tosses`] holds of each.
pub open spec fn fair(node: NodeView, coins: Seq<Seq<bool>>) -> bool {
    &&& coins.len() == node.neighbors.len()
    &&& forall|j: int|
        0 <= j < coins.len() ==> fair_tosses(
            node.seen,
            believed(node.known, node.neighbors[j]),
            #[trigger] coins[j],
        )
}

/// The outcome of a step as mathematics.
pub open spec fn outcome_view(outcome: Outcome<BroadcastPayload, InjectedPayload>) -> Result<
    Seq<BroadcastAction>,
    NodeError,
> {
    match outcome {
        Ok(actions) => Ok(action_views(actions@)),
        Err(error) => Err(error),
    }
}

} // verus!
