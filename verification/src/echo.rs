//! The echo node: it answers every request on its own, echoes text, gives out
//! unique ids and keeps the broadcast values it is sent.

use crate::message::{
    action_views, names, reply_to, Action, ActionView, Body, Event, EventView, Message, MessageView,
};
use crate::node::{Node, NodeError, Outcome};
use crate::protocol::adjacency;
use crate::text::{compose_id, unique_id};
use vstd::prelude::*;

verus! {

/// What an envelope of the echo node carries.
#[derive(Clone, Debug, PartialEq, Eq)]
pub enum EchoPayload {
    Init { node_id: String, node_ids: Vec<String> },
    InitOk,
    Echo { echo: String },
    EchoOk { echo: String },
    Generate,
    GenerateOk { id: String },
    BroadcastOk,
    Broadcast { message: usize },
    Read,
    ReadOk { messages: Vec<usize> },
    Topology { topology: Vec<(String, Vec<String>)> },
    TopologyOk,
}

/// The mathematical content of an [`EchoPayload`].
pub enum EchoPayloadView {
    Init { node_id: Seq<char>, node_ids: Seq<Seq<char>> },
    InitOk,
    Echo { echo: Seq<char> },
    EchoOk { echo: Seq<char> },
    Generate,
    GenerateOk { id: Seq<char> },
    BroadcastOk,
    Broadcast { message: usize },
    Read,
    ReadOk { messages: Seq<usize> },
    Topology { topology: Seq<(Seq<char>, Seq<Seq<char>>)> },
    TopologyOk,
}

impl View for EchoPayload {
    type V = EchoPayloadView;

    open spec fn view(&self) -> EchoPayloadView {
        match *self {
            EchoPayload::Init { node_id, node_ids } => EchoPayloadView::Init {
                node_id: node_id@,
                node_ids: names(node_ids@),
            },
            EchoPayload::InitOk => EchoPayloadView::InitOk,
            EchoPayload::Echo { echo } => EchoPayloadView::Echo { echo: echo@ },
            EchoPayload::EchoOk { echo } => EchoPayloadView::EchoOk { echo: echo@ },
            EchoPayload::Generate => EchoPayloadView::Generate,
            EchoPayload::GenerateOk { id } => EchoPayloadView::GenerateOk { id: id@ },
            EchoPayload::BroadcastOk => EchoPayloadView::BroadcastOk,
            EchoPayload::Broadcast { message } => EchoPayloadView::Broadcast { message },
            EchoPayload::Read => EchoPayloadView::Read,
            EchoPayload::ReadOk { messages } => EchoPayloadView::ReadOk { messages: messages@ },
            EchoPayload::Topology { topology } => EchoPayloadView::Topology {
                topology: adjacency(topology@),
            },
            EchoPayload::TopologyOk => EchoPayloadView::TopologyOk,
        }
    }
}

/// The state of an echo node as mathematics.
pub struct EchoView {
    /// The id that the next reply will carry.
    pub next_id: usize,
    /// The broadcast values received, in order and with repeats.
    pub store: Seq<usize>,
}

/// What one step of an echo node does.
pub struct EchoEffect {
    pub state: EchoView,
    pub outcome: Result<Seq<ActionView<EchoPayloadView, ()>>, NodeError>,
}

/// What a request is answered with, and nothing for an acknowledgement.
pub open spec fn echo_answer(node: EchoView, request: MessageView<EchoPayloadView>) -> Option<
    EchoPayloadView,
> {
    match request.body.payload {
        EchoPayloadView::Echo { echo } => Some(EchoPayloadView::EchoOk { echo }),
        EchoPayloadView::Init { .. } => Some(EchoPayloadView::InitOk),
        EchoPayloadView::Generate => Some(
            EchoPayloadView::GenerateOk { id: unique_id(node.next_id as nat, request.dest) },
        ),
        EchoPayloadView::Broadcast { .. } => Some(EchoPayloadView::BroadcastOk),
        EchoPayloadView::Read => Some(EchoPayloadView::ReadOk { messages: node.store }),
        EchoPayloadView::Topology { .. } => Some(EchoPayloadView::TopologyOk),
        _ => None,
    }
}

/// What an envelope does to an echo node. `InitOk` is refused. Every other
/// envelope uses up one id, whether it is answered or not, and is refused
/// when none is left. A broadcast value is stored, repeats included.
pub open spec fn echo_handle(node: EchoView, request: MessageView<EchoPayloadView>) -> EchoEffect {
    if request.body.payload is InitOk {
        EchoEffect { state: node, outcome: Err(NodeError::UnexpectedPayload) }
    } else if node.next_id == usize::MAX {
        EchoEffect { state: node, outcome: Err(NodeError::MessageIdsExhausted) }
    } else {
        EchoEffect {
            state: EchoView {
                next_id: (node.next_id + 1) as usize,
                store: match request.body.payload {
                    EchoPayloadView::Broadcast { message } => node.store.push(message),
                    _ => node.store,
                },
            },
            outcome: Ok(
                match echo_answer(node, request) {
                    Some(payload) => seq![
                        ActionView::Send(reply_to(request, node.next_id, payload)),
                    ],
                    None => Seq::empty(),
                },
            ),
        }
    }
}

/// The outcome of a step of an echo node as mathematics.
pub open spec fn echo_outcome_view(outcome: Outcome<EchoPayload, ()>) -> Result<
    Seq<ActionView<EchoPayloadView, ()>>,
    NodeError,
> {
    match outcome {
        Ok(actions) => Ok(action_views(actions@)),
        Err(error) => Err(error),
    }
}

/// A node of the echo protocol.
#[derive(Clone, Debug)]
pub struct EchoNode {
    id: usize,
    store: Vec<usize>,
}

impl View for EchoNode {
    type V = EchoView;

    closed spec fn view(&self) -> EchoView {
        EchoView { next_id: self.id, store: self.store@ }
    }
}

impl EchoNode {
    /// A node that has seen no event yet.
    pub fn new() -> (node: EchoNode)
        ensures
            node@ == (EchoView { next_id: 0, store: Seq::empty() }),
    {
        EchoNode::starting_at(0)
    }

    /// A node that has seen no event yet and whose first reply will carry
    /// the id `id`.
    pub fn starting_at(id: usize) -> (node: EchoNode)
        ensures
            node@ == (EchoView { next_id: id, store: Seq::empty() }),
    {
        EchoNode { id, store: Vec::new() }
    }

    /// The id that the next reply will carry.
    pub fn next_id(&self) -> (id: usize)
        ensures
            id == self@.next_id,
    {
        self.id
    }

    /// The broadcast values received so far.
    pub fn store(&self) -> (values: &Vec<usize>)
        ensures
            values@ == self@.store,
    {
        &self.store
    }

    /// Handles an envelope.
    fn handle_message(&mut self, msg: Message<EchoPayload>) -> (outcome: Outcome<EchoPayload, ()>)
        ensures
            (EchoEffect { state: final(self)@, outcome: echo_outcome_view(outcome) })
                == echo_handle(old(self)@, msg@),
    {
        let ghost request = msg@;
        let Message { src, dest, body } = msg;
        let Body { msg_id: request_id, in_reply_to: _, payload } = body;
        if let EchoPayload::InitOk = payload {
            return Err(NodeError::UnexpectedPayload);
        }
        if self.id == usize::MAX {
            return Err(NodeError::MessageIdsExhausted);
        }
        let answer: Option<EchoPayload> = match payload {
            EchoPayload::Echo { echo } => Some(EchoPayload::EchoOk { echo }),
            EchoPayload::Init { .. } => Some(EchoPayload::InitOk),
            EchoPayload::Generate => Some(EchoPayload::GenerateOk { id: compose_id(self.id, &dest) }),
            EchoPayload::Broadcast { message } => {
                self.store.push(message);
                Some(EchoPayload::BroadcastOk)
            },
            EchoPayload::Read => {
                let messages = self.store.clone();
                proof {
                    assert(messages@ =~= self.store@);
                }
                Some(EchoPayload::ReadOk { messages })
            },
            EchoPayload::Topology { .. } => Some(EchoPayload::TopologyOk),
            _ => None,
        };
        let mut actions: Vec<Action<EchoPayload, ()>> = Vec::new();
        match answer {
            Some(payload) => {
                let reply = Message::reply(src, dest, request_id, self.id, payload);
                actions.push(Action::Send(reply));
                proof {
                    assert(action_views(actions@) =~= seq![ActionView::Send(reply@)]);
                }
            },
            None => {
                proof {
                    assert(action_views(actions@) =~= Seq::empty());
                }
            },
        }
        self.id += 1;
        Ok(actions)
    }
}

impl Node<EchoPayload, ()> for EchoNode {
    /// Every state is in order.
    open spec fn inv(&self) -> bool {
        true
    }

    /// An envelope does exactly what [`echo_handle`] says. The node has no
    /// timer: an injected event changes nothing and asks for nothing.
    open spec fn allows(
        pre: Self,
        input: Event<EchoPayload, ()>,
        post: Self,
        outcome: Outcome<EchoPayload, ()>,
    ) -> bool {
        match input@ {
            EventView::Message(request) => (EchoEffect {
                state: post@,
                outcome: echo_outcome_view(outcome),
            }) == echo_handle(pre@, request),
            EventView::Injected(_) => post@ == pre@ && echo_outcome_view(outcome) == Ok::<
                Seq<ActionView<EchoPayloadView, ()>>,
                NodeError,
            >(Seq::empty()),
        }
    }

    fn step(&mut self, input: Event<EchoPayload, ()>) -> (outcome: Outcome<EchoPayload, ()>) {
        match input {
            Event::Message(msg) => self.handle_message(msg),
            Event::Injected(_) => {
                let actions: Vec<Action<EchoPayload, ()>> = Vec::new();
                proof {
                    assert(action_views(actions@) =~= Seq::empty());
                }
                Ok(actions)
            },
        }
    }
}

} // verus!
