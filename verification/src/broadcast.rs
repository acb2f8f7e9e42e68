//! The broadcast node: it collects broadcast values and spreads them to its
//! neighbours by gossip.

use crate::gossip::{fair_tosses, select_outgoing, toss_resend};
use crate::knowledge::{believed, Knowledge};
use crate::message::{
    action_views, names, Action, ActionView, Body, BodyView, Event, EventView, Message, MessageView,
};
use crate::node::{Node, NodeError, Outcome};
use crate::protocol::{
    adjacency, fair, handle, ingest, ingest_all, initial, neighbors_of, outcome_view, tick, BroadcastPayload, Effect, InjectedPayload, NodeView, PayloadView, GOSSIP_PERIOD_MS,
};
use std::collections::HashSet;
use vstd::prelude::*;

verus! {

/// A node of the broadcast protocol.
#[derive(Debug)]
pub struct BroadcastNode {
    node_id: Option<String>,
    msg_id: usize,
    messages: Vec<usize>,
    /// The values of `messages` as a set, to tell quickly whether a value is new.
    index: HashSet<usize>,
    known: Knowledge,
    neighborhood: Vec<String>,
}

impl View for BroadcastNode {
    type V = NodeView;

    closed spec fn view(&self) -> NodeView {
        NodeView {
            node_id: match self.node_id {
                Some(id) => Some(id@),
                None => None,
            },
            next_msg_id: self.msg_id,
            seen: self.messages@,
            known: self.known@,
            neighbors: names(self.neighborhood@),
        }
    }
}

/// Finds the first entry of `topology` for `node`.
fn find_entry(topology: &Vec<(String, Vec<String>)>, node: &String) -> (at: Option<usize>)
    ensures
        match at {
            Some(i) => i < topology.len() && neighbors_of(adjacency(topology@), node@) == Some(
                names(topology[i as int].1@),
            ),
            None => neighbors_of(adjacency(topology@), node@) is None,
        },
{
    let ghost all = adjacency(topology@);
    let mut i: usize = 0;
    proof {
        assert(all.skip(0) =~= all);
    }
    while i < topology.len()
        invariant
            i <= topology.len(),
            all == adjacency(topology@),
            neighbors_of(all, node@) == neighbors_of(all.skip(i as int), node@),
        decreases topology.len() - i,
    {
        proof {
            assert(all.skip(i as int)[0] == all[i as int]);
            assert(all.skip(i as int).skip(1) =~= all.skip(i + 1));
        }
        if topology[i].0 == *node {
            return Some(i);
        }
        i += 1;
    }
    None
}

impl BroadcastNode {
    /// A node that has seen no event yet.
    pub fn new() -> (node: BroadcastNode)
        ensures
            node.inv(),
            node@ == initial(),
    {
        BroadcastNode::starting_at(0)
    }

    /// A node that has seen no event yet and whose first reply will carry
    /// the id `msg_id`.
    pub fn starting_at(msg_id: usize) -> (node: BroadcastNode)
        ensures
            node.inv(),
            node@ == (NodeView { next_msg_id: msg_id, ..initial() }),
    {
        let node = BroadcastNode {
            node_id: None,
            msg_id,
            messages: Vec::new(),
            index: HashSet::new(),
            known: Knowledge::new(),
            neighborhood: Vec::new(),
        };
        proof {
            assert(node@.neighbors =~= Seq::empty());
            assert(node.index@ =~= node.messages@.to_set());
        }
        node
    }

    /// The node's own id, once it is initialised.
    pub fn node_id(&self) -> (id: Option<&String>)
        ensures
            match id {
                Some(id) => self@.node_id == Some(id@),
                None => self@.node_id is None,
            },
    {
        self.node_id.as_ref()
    }

    /// The id that the next reply will carry.
    pub fn next_msg_id(&self) -> (id: usize)
        ensures
            id == self@.next_msg_id,
    {
        self.msg_id
    }

    /// The values seen so far, in the order in which they arrived.
    pub fn messages(&self) -> (values: &Vec<usize>)
        ensures
            values@ == self@.seen,
    {
        &self.messages
    }

    /// The nodes that this node gossips with.
    pub fn neighbors(&self) -> (peers: &Vec<String>)
        ensures
            names(peers@) == self@.neighbors,
    {
        &self.neighborhood
    }

    /// Whether `peer` is believed to hold `value`.
    pub fn knows(&self, peer: &String, value: usize) -> (held: bool)
        requires
            self.inv(),
        ensures
            held == believed(self@.known, peer@).contains(value),
    {
        match self.known.believed_of(peer) {
            Some(values) => values.contains(&value),
            None => false,
        }
    }

    /// A node without duplicates among its values: every state that the
    /// invariant admits is one.
    pub proof fn lemma_seen_distinct(&self)
        requires
            self.inv(),
        ensures
            self@.seen.no_duplicates(),
    {
    }

    /// Takes in one value.
    fn take_in(&mut self, value: usize)
        requires
            old(self).inv(),
        ensures
            final(self).inv(),
            final(self)@ == (NodeView { seen: ingest(old(self)@.seen, value), ..old(self)@ }),
    {
        if !self.index.contains(&value) {
            proof {
                assert(!self.messages@.contains(value));
                self.messages@.lemma_push_to_set_commute(value);
            }
            self.index.insert(value);
            self.messages.push(value);
        } else {
            assert(self.messages@.to_set().contains(value));
        }
    }

    /// Answers `request` with `payload` under the next message id.
    fn answer(
        &mut self,
        src: String,
        dest: String,
        request_id: Option<usize>,
        payload: BroadcastPayload,
    ) -> (actions: Vec<Action<BroadcastPayload, InjectedPayload>>)
        requires
            old(self).inv(),
            old(self).msg_id < usize::MAX,
        ensures
            final(self).inv(),
            final(self)@ == (NodeView {
                next_msg_id: (old(self)@.next_msg_id + 1) as usize,
                ..old(self)@
            }),
            action_views(actions@) == seq![
                ActionView::<PayloadView, InjectedPayload>::Send(
                    MessageView {
                        src: dest@,
                        dest: src@,
                        body: BodyView {
                            msg_id: Some(old(self)@.next_msg_id),
                            in_reply_to: request_id,
                            payload: payload@,
                        },
                    },
                ),
            ],
    {
        let reply = Message::reply(src, dest, request_id, self.msg_id, payload);
        self.msg_id += 1;
        let actions = vec![Action::Send(reply)];
        proof {
            assert(action_views(actions@) =~= seq![ActionView::Send(reply@)]);
        }
        actions
    }

    /// Handles an envelope.
    fn handle_message(&mut self, msg: Message<BroadcastPayload>) -> (outcome: Outcome<
        BroadcastPayload,
        InjectedPayload,
    >)
        requires
            old(self).inv(),
        ensures
            final(self).inv(),
            (Effect { state: final(self)@, outcome: outcome_view(outcome) }) == handle(
                old(self)@,
                msg@,
            ),
    {
        let ghost request = msg@;
        let ghost before = self@;
        let Message { src, dest, body } = msg;
        let Body { msg_id: request_id, in_reply_to: _, payload } = body;
        match payload {
            BroadcastPayload::InitOk | BroadcastPayload::BroadcastOk | BroadcastPayload::ReadOk {
                ..
            } | BroadcastPayload::TopologyOk => {
                let actions: Vec<Action<BroadcastPayload, InjectedPayload>> = Vec::new();
                proof {
                    assert(action_views(actions@) =~= Seq::empty());
                }
                Ok(actions)
            },
            BroadcastPayload::Init(init) => {
                if self.msg_id == usize::MAX {
                    return Err(NodeError::MessageIdsExhausted);
                }
                self.known.reset(&init.node_ids);
                self.neighborhood = Vec::new();
                self.node_id = Some(init.node_id);
                proof {
                    assert(self@.neighbors =~= Seq::empty());
                }
                let mut actions = vec![
                    Action::Schedule { period_ms: GOSSIP_PERIOD_MS, payload: InjectedPayload::Gossip },
                ];
                let ghost first = actions@;
                let mut reply = self.answer(src, dest, request_id, BroadcastPayload::InitOk);
                let ghost second = reply@;
                actions.append(&mut reply);
                proof {
                    assert(action_views(first + second) =~= action_views(first) + action_views(
                        second,
                    ));
                    assert(action_views(first) =~= seq![
                        ActionView::<PayloadView, InjectedPayload>::Schedule {
                            period_ms: GOSSIP_PERIOD_MS,
                            payload: InjectedPayload::Gossip,
                        },
                    ]);
                    assert(outcome_view(Ok(actions))->Ok_0 =~= handle(before, request).outcome->Ok_0);
                }
                Ok(actions)
            },
            BroadcastPayload::Broadcast { message } => {
                if self.node_id.is_none() {
                    return Err(NodeError::NotInitialized);
                }
                if self.msg_id == usize::MAX {
                    return Err(NodeError::MessageIdsExhausted);
                }
                self.take_in(message);
                let held = vec![message];
                proof {
                    assert(held@ =~= Seq::empty().push(message));
                    Seq::<usize>::empty().lemma_push_to_set_commute(message);
                    assert(Seq::<usize>::empty().to_set() =~= Set::empty());
                }
                match &self.node_id {
                    Some(me) => {
                        self.known.learn(me, &held);
                    },
                    None => {},
                }
                Ok(self.answer(src, dest, request_id, BroadcastPayload::BroadcastOk))
            },
            BroadcastPayload::Read => {
                if self.node_id.is_none() {
                    return Err(NodeError::NotInitialized);
                }
                if self.msg_id == usize::MAX {
                    return Err(NodeError::MessageIdsExhausted);
                }
                let messages = self.messages.clone();
                proof {
                    assert(messages@ =~= self.messages@);
                }
                Ok(self.answer(src, dest, request_id, BroadcastPayload::ReadOk { messages }))
            },
            BroadcastPayload::Topology { topology } => {
                let found = match &self.node_id {
                    None => {
                        return Err(NodeError::NotInitialized);
                    },
                    Some(me) => find_entry(&topology, me),
                };
                let at = match found {
                    None => {
                        return Err(NodeError::MissingFromTopology);
                    },
                    Some(at) => at,
                };
                if self.msg_id == usize::MAX {
                    return Err(NodeError::MessageIdsExhausted);
                }
                let mut topology = topology;
                let entry = topology.swap_remove(at);
                self.neighborhood = entry.1;
                Ok(self.answer(src, dest, request_id, BroadcastPayload::TopologyOk))
            },
            BroadcastPayload::Gossip { seen } => {
                if self.node_id.is_none() {
                    return Err(NodeError::NotInitialized);
                }
                let mut k: usize = 0;
                while k < seen.len()
                    invariant
                        k <= seen.len(),
                        self.inv(),
                        self@ == (NodeView {
                            seen: ingest_all(before.seen, seen@.take(k as int)),
                            ..before
                        }),
                    decreases seen.len() - k,
                {
                    proof {
                        assert(seen@.take(k + 1).drop_last() =~= seen@.take(k as int));
                    }
                    self.take_in(seen[k]);
                    k += 1;
                }
                proof {
                    assert(seen@.take(seen.len() as int) =~= seen@);
                }
                self.known.learn(&src, &seen);
                let actions: Vec<Action<BroadcastPayload, InjectedPayload>> = Vec::new();
                proof {
                    assert(action_views(actions@) =~= Seq::empty());
                }
                Ok(actions)
            },
        }
    }

    /// Handles a tick: gossips with every neighbour.
    fn gossip(&self) -> (outcome: Outcome<BroadcastPayload, InjectedPayload>)
        requires
            self.inv(),
        ensures
            match self@.node_id {
                None => outcome == Err::<Vec<Action<BroadcastPayload, InjectedPayload>>, NodeError>(
                    NodeError::NotInitialized,
                ),
                Some(me) => exists|coins: Seq<Seq<bool>>|
                    fair(self@, coins) && outcome_view(outcome) == Ok::<
                        Seq<ActionView<PayloadView, InjectedPayload>>,
                        NodeError,
                    >(tick(self@, me, coins)),
            },
    {
        let me = match &self.node_id {
            None => {
                return Err(NodeError::NotInitialized);
            },
            Some(me) => me,
        };
        let nothing: HashSet<usize> = HashSet::new();
        let mut rng = rand::thread_rng();
        let mut actions: Vec<Action<BroadcastPayload, InjectedPayload>> = Vec::new();
        let ghost mut coins: Seq<Seq<bool>> = Seq::empty();
        let mut j: usize = 0;
        while j < self.neighborhood.len()
            invariant
                j <= self.neighborhood.len(),
                self.inv(),
                self.node_id == Some(*me),
                nothing@ == Set::<usize>::empty(),
                coins.len() == j,
                actions.len() == j,
                forall|i: int|
                    0 <= i < j ==> fair_tosses(
                        self@.seen,
                        believed(self@.known, self@.neighbors[i]),
                        #[trigger] coins[i],
                    ),
                forall|i: int| 0 <= i < j ==> (#[trigger] actions[i])@ == tick(self@, me@, coins)[i],
            decreases self.neighborhood.len() - j,
        {
            let peer = &self.neighborhood[j];
            let known = match self.known.believed_of(peer) {
                Some(values) => values,
                None => &nothing,
            };
            let resend = toss_resend(&mut rng, &self.messages, known);
            let seen = select_outgoing(&self.messages, known, &resend);
            let ghost earlier = coins;
            proof {
                coins = coins.push(resend@);
                assert forall|i: int| 0 <= i < j implies (#[trigger] actions[i])@ == tick(
                    self@,
                    me@,
                    coins,
                )[i] by {
                    assert(coins[i] == earlier[i]);
                    assert(actions[i]@ == tick(self@, me@, earlier)[i]);
                }
            }
            actions.push(
                Action::Send(
                    Message {
                        src: me.clone(),
                        dest: peer.clone(),
                        body: Body {
                            msg_id: None,
                            in_reply_to: None,
                            payload: BroadcastPayload::Gossip { seen },
                        },
                    },
                ),
            );
            j += 1;
        }
        proof {
            assert(fair(self@, coins));
            assert(action_views(actions@) =~= tick(self@, me@, coins));
        }
        Ok(actions)
    }
}

impl Node<BroadcastPayload, InjectedPayload> for BroadcastNode {
    /// No value is held twice, the index holds exactly the values, and no
    /// peer has two entries.
    closed spec fn inv(&self) -> bool {
        &&& self.messages@.no_duplicates()
        &&& self.index@ == self.messages@.to_set()
        &&& self.known.wf()
    }

    /// An envelope does exactly what [`handle`] says. A tick leaves the state
    /// as it is; an initialised node then sends what [`tick`] says for some
    /// fall of the coins of which [`fair`] holds, and a node that was never
    /// initialised refuses.
    open spec fn allows(
        pre: Self,
        input: Event<BroadcastPayload, InjectedPayload>,
        post: Self,
        outcome: Outcome<BroadcastPayload, InjectedPayload>,
    ) -> bool {
        match input@ {
            EventView::Message(request) => (Effect {
                state: post@,
                outcome: outcome_view(outcome),
            }) == handle(pre@, request),
            EventView::Injected(InjectedPayload::Gossip) => post@ == pre@ && match pre@.node_id {
                None => outcome_view(outcome) == Err::<
                    Seq<ActionView<PayloadView, InjectedPayload>>,
                    NodeError,
                >(NodeError::NotInitialized),
                Some(me) => exists|coins: Seq<Seq<bool>>|
                    fair(pre@, coins) && outcome_view(outcome) == Ok::<
                        Seq<ActionView<PayloadView, InjectedPayload>>,
                        NodeError,
                    >(tick(pre@, me, coins)),
            },
        }
    }

    fn step(&mut self, input: Event<BroadcastPayload, InjectedPayload>) -> (outcome: Outcome<
        BroadcastPayload,
        InjectedPayload,
    >) {
        match input {
            Event::Message(msg) => self.handle_message(msg),
            Event::Injected(InjectedPayload::Gossip) => self.gossip(),
        }
    }
}

} // verus!
