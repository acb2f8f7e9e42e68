//! The node interface and the loop that feeds a node its events one by one.

use crate::message::{Action, Event};
use vstd::prelude::*;

verus! {

/// Why a node refuses an event.
#[derive(Clone, Copy, Debug, PartialEq, Eq, Structural)]
pub enum NodeError {
    /// A request, a gossip envelope or a tick reached a node that was never
    /// initialised.
    NotInitialized,
    /// A topology came without an entry for this node.
    MissingFromTopology,
    /// The node's message ids are used up, so a reply cannot be numbered.
    MessageIdsExhausted,
    /// An envelope of a kind that this node must never be sent.
    UnexpectedPayload,
}

/// What a node hands back for one event: the actions to perform, or a refusal.
pub type Outcome<Payload, InjectedPayload> = Result<
    Vec<Action<Payload, InjectedPayload>>,
    NodeError,
>;

/// A node: state that changes only through `step`, one event at a time.
pub trait Node<Payload, InjectedPayload = ()>: Sized {
    /// What holds of the state between steps.
    spec fn inv(&self) -> bool;

    /// Whether a step that starts in `pre` and handles `input` may end in
    /// `post` with `outcome`.
    spec fn allows(
        pre: Self,
        input: Event<Payload, InjectedPayload>,
        post: Self,
        outcome: Outcome<Payload, InjectedPayload>,
    ) -> bool;

    /// Handles one event.
    fn step(&mut self, input: Event<Payload, InjectedPayload>) -> (outcome: Outcome<
        Payload,
        InjectedPayload,
    >)
        requires
            old(self).inv(),
        ensures
            final(self).inv(),
            Self::allows(*old(self), input, *final(self), outcome),
    ;
}

/// What came of feeding a node a list of events.
pub struct Run<Payload, InjectedPayload = ()> {
    /// The actions of the events that were handled, in order.
    pub actions: Vec<Action<Payload, InjectedPayload>>,
    /// How many events were handled before the loop ended.
    pub handled: usize,
    /// The refusal that ended the loop early, if one did.
    pub failure: Option<NodeError>,
}

/// The actions of a list of successful outcomes, one after the other.
pub open spec fn actions_of<P, I>(outcomes: Seq<Outcome<P, I>>) -> Seq<Action<P, I>> {
    action_lists(outcomes).flatten()
}

/// The action list of each of a list of successful outcomes.
pub open spec fn action_lists<P, I>(outcomes: Seq<Outcome<P, I>>) -> Seq<Seq<Action<P, I>>> {
    Seq::new(outcomes.len(), |k: int| outcomes[k]->Ok_0@)
}

/// Whether `states` and `outcomes` record a run of `node` over `events` that
/// ends as `run` says: each step starts where the one before ended and takes
/// the next event; every step but a refused last one succeeds; a refusal ends
/// the run at once, and without one every event is handled.
pub open spec fn is_run<S: Node<P, I>, P, I>(
    pre: S,
    events: Seq<Event<P, I>>,
    states: Seq<S>,
    outcomes: Seq<Outcome<P, I>>,
    post: S,
    run: Run<P, I>,
) -> bool {
    let steps = outcomes.len();
    &&& states.len() == steps + 1
    &&& states[0] == pre
    &&& states[steps as int] == post
    &&& steps <= events.len()
    &&& forall|k: int|
        0 <= k < steps ==> #[trigger] S::allows(states[k], events[k], states[k + 1], outcomes[k])
    &&& forall|k: int| 0 <= k < run.handled ==> (#[trigger] outcomes[k]) is Ok
    &&& match run.failure {
        Some(e) => steps == run.handled + 1 && outcomes[run.handled as int] == Err::<
            Vec<Action<P, I>>,
            NodeError,
        >(e),
        None => steps == run.handled && run.handled == events.len(),
    }
    &&& run.actions@ == actions_of(outcomes.take(run.handled as int))
}

/// Feeds `events` to the node in order, one at a time, and collects the
/// actions. The first refusal ends the loop: the events after it are not
/// handled, and the actions collected so far are still handed back.
pub fn main_loop<S, P, I>(state: &mut S, events: Vec<Event<P, I>>) -> (run: Run<P, I>) where
    S: Node<P, I>,

    requires
        old(state).inv(),
    ensures
        final(state).inv(),
        exists|states: Seq<S>, outcomes: Seq<Outcome<P, I>>|
            is_run(*old(state), events@, states, outcomes, *final(state), run),
{
    let mut actions: Vec<Action<P, I>> = Vec::new();
    let mut handled: usize = 0;
    let ghost mut states: Seq<S> = seq![*state];
    let ghost mut outcomes: Seq<Outcome<P, I>> = Seq::empty();
    let ghost all = events@;
    assert(all.len() == events.len());
    proof {
        assert(actions_of(outcomes.take(0)) =~= Seq::<Action<P, I>>::empty());
    }
    for event in it: events
        invariant
            state.inv(),
            it.seq() == all,
            all.len() <= usize::MAX,
            handled == it.index(),
            outcomes.len() == handled,
            states.len() == handled + 1,
            states[0] == *old(state),
            states[handled as int] == *state,
            forall|k: int|
                0 <= k < handled ==> #[trigger] S::allows(
                    states[k],
                    all[k],
                    states[k + 1],
                    outcomes[k],
                ),
            forall|k: int| 0 <= k < handled ==> (#[trigger] outcomes[k]) is Ok,
            actions@ == actions_of(outcomes),
    {
        assert(handled < all.len());
        let ghost earlier = outcomes;
        let outcome = state.step(event);
        proof {
            states = states.push(*state);
            outcomes = outcomes.push(outcome);
        }
        match outcome {
            Ok(mut more) => {
                proof {
                    assert(action_lists(outcomes) =~= action_lists(earlier).push(more@));
                    action_lists(earlier).lemma_flatten_push(more@);
                }
                actions.append(&mut more);
                handled += 1;
            },
            Err(e) => {
                let run = Run { actions, handled, failure: Some(e) };
                proof {
                    assert(outcomes.take(handled as int) =~= earlier);
                    assert(is_run(*old(state), all, states, outcomes, *state, run));
                }
                return run;
            },
        }
    }
    let run = Run { actions, handled, failure: None };
    proof {
        assert(outcomes.take(handled as int) =~= outcomes);
        assert(is_run(*old(state), all, states, outcomes, *state, run));
    }
    run
}

} // verus!
