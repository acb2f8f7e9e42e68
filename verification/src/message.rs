//! Envelopes, events and the actions a step hands back.

use vstd::prelude::*;

verus! {

/// One envelope: who sent it, whom it is for, and its body.
#[derive(Clone, Debug, PartialEq, Eq)]
pub struct Message<Payload> {
    pub src: String,
    pub dest: String,
    pub body: Body<Payload>,
}

/// The body of an envelope. `msg_id` numbers envelopes that expect an answer,
/// `in_reply_to` names the request that an answer belongs to.
#[derive(Clone, Debug, PartialEq, Eq)]
pub struct Body<Payload> {
    pub msg_id: Option<usize>,
    pub in_reply_to: Option<usize>,
    pub payload: Payload,
}

/// The content of an initialisation request: the node's own id and the ids of
/// all nodes of the cluster.
#[derive(Clone, Debug, PartialEq, Eq)]
pub struct Init {
    pub node_id: String,
    pub node_ids: Vec<String>,
}

/// What a node is asked to handle: an envelope that arrived, or a payload that
/// the node's own timer injected.
#[derive(Clone, Debug, PartialEq, Eq)]
pub enum Event<Payload, InjectedPayload = ()> {
    Message(Message<Payload>),
    Injected(InjectedPayload),
}

/// What a step asks the surrounding program to do, in order.
#[derive(Clone, Debug, PartialEq, Eq)]
pub enum Action<Payload, InjectedPayload = ()> {
    /// Write this envelope to the transport.
    Send(Message<Payload>),
    /// From now on, inject `payload` every `period_ms` milliseconds.
    Schedule { period_ms: u64, payload: InjectedPayload },
}

/// The mathematical content of a [`Message`].
pub struct MessageView<P> {
    pub src: Seq<char>,
    pub dest: Seq<char>,
    pub body: BodyView<P>,
}

/// The mathematical content of a [`Body`].
pub struct BodyView<P> {
    pub msg_id: Option<usize>,
    pub in_reply_to: Option<usize>,
    pub payload: P,
}

/// The mathematical content of an [`Init`].
pub struct InitView {
    pub node_id: Seq<char>,
    pub node_ids: Seq<Seq<char>>,
}

/// The mathematical content of an [`Event`].
pub enum EventView<P, I> {
    Message(MessageView<P>),
    Injected(I),
}

/// The mathematical content of an [`Action`].
pub enum ActionView<P, I> {
    Send(MessageView<P>),
    Schedule { period_ms: u64, payload: I },
}

/// The ids that a list of strings spells, in order.
pub open spec fn names(ids: Seq<String>) -> Seq<Seq<char>> {
    Seq::new(ids.len(), |i: int| ids[i]@)
}

impl<Payload: View> View for Body<Payload> {
    type V = BodyView<Payload::V>;

    open spec fn view(&self) -> Self::V {
        BodyView { msg_id: self.msg_id, in_reply_to: self.in_reply_to, payload: self.payload@ }
    }
}

impl<Payload: View> View for Message<Payload> {
    type V = MessageView<Payload::V>;

    open spec fn view(&self) -> Self::V {
        MessageView { src: self.src@, dest: self.dest@, body: self.body@ }
    }
}

impl View for Init {
    type V = InitView;

    open spec fn view(&self) -> Self::V {
        InitView { node_id: self.node_id@, node_ids: names(self.node_ids@) }
    }
}

impl<Payload: View, InjectedPayload: View> View for Event<Payload, InjectedPayload> {
    type V = EventView<Payload::V, InjectedPayload::V>;

    open spec fn view(&self) -> Self::V {
        match *self {
            Event::Message(m) => EventView::Message(m@),
            Event::Injected(p) => EventView::Injected(p@),
        }
    }
}

impl<Payload: View, InjectedPayload: View> View for Action<Payload, InjectedPayload> {
    type V = ActionView<Payload::V, InjectedPayload::V>;

    open spec fn view(&self) -> Self::V {
        match *self {
            Action::Send(m) => ActionView::Send(m@),
            Action::Schedule { period_ms, payload } => ActionView::Schedule {
                period_ms,
                payload: payload@,
            },
        }
    }
}

/// The contents of a list of actions, in order.
pub open spec fn action_views<P: View, I: View>(actions: Seq<Action<P, I>>) -> Seq<
    ActionView<P::V, I::V>,
> {
    Seq::new(actions.len(), |i: int| actions[i]@)
}

/// The answer to `request` that carries `payload` under the id `msg_id`: it
/// goes back to where the request came from and names the request's id.
pub open spec fn reply_to<P, Q>(request: MessageView<P>, msg_id: usize, payload: Q) -> MessageView<
    Q,
> {
    MessageView {
        src: request.dest,
        dest: request.src,
        body: BodyView { msg_id: Some(msg_id), in_reply_to: request.body.msg_id, payload },
    }
}

impl<Payload: View> Message<Payload> {
    /// Builds the answer to a request that came from `src` for `dest` under
    /// the id `request_id`: it goes back to `src`, names the request and
    /// carries `payload` under the id `msg_id`.
    pub fn reply(
        src: String,
        dest: String,
        request_id: Option<usize>,
        msg_id: usize,
        payload: Payload,
    ) -> (answer: Message<Payload>)
        ensures
            answer@ == (MessageView {
                src: dest@,
                dest: src@,
                body: BodyView {
                    msg_id: Some(msg_id),
                    in_reply_to: request_id,
                    payload: payload@,
                },
            }),
    {
        Message {
            src: dest,
            dest: src,
            body: Body { msg_id: Some(msg_id), in_reply_to: request_id, payload },
        }
    }
}

} // verus!
