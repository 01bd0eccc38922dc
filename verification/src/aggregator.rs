//! The aggregator: one place through which the events of discovery, gossip
//! and the heartbeat pass, and one queue of the actions they call for.
//!
//! Every inbound event is turned into zero or more deferred actions, which
//! join the back of the queue. The driving loop takes them from the front,
//! one at a time, so actions leave in the order in which they were called
//! for and none is lost.

use std::collections::VecDeque;
use vstd::prelude::*;
use crate::codec::{decode, decoded};
use crate::dial::{
    dial_plan, observation_views, plan_dials, request_views, DialRequest, DialRequestView,
    Observation, ObservationView,
};
use crate::envelope::{ChatEnvelope, EnvelopeView};
use crate::peer::PeerIdentity;
use crate::session::SessionState;

verus! {

/// What the sub-protocols report.
#[derive(Debug, PartialEq, Eq)]
pub enum InboundEvent {
    /// Discovery observed peers at addresses.
    Discovered { observations: Vec<Observation> },
    /// Addresses that discovery observed earlier are no longer announced.
    Expired { observations: Vec<Observation> },
    /// Gossip delivered a message. `source` is the peer that signed it, where
    /// the message is signed; `propagation_source` is the peer that passed it on.
    GossipMessage { propagation_source: PeerIdentity, source: Option<PeerIdentity>, data: Vec<u8> },
    /// A peer subscribed to a topic.
    GossipSubscribed { peer: PeerIdentity, topic: String },
    /// A peer unsubscribed from a topic.
    GossipUnsubscribed { peer: PeerIdentity, topic: String },
    /// A peer does not speak the gossip protocol.
    GossipNotSupported { peer: PeerIdentity },
    /// The heartbeat on a connection to a peer was answered, or failed for
    /// the reason given.
    Heartbeat { peer: PeerIdentity, failure: Option<String> },
}

/// What an [`InboundEvent`] holds, as mathematical values.
pub enum InboundEventView {
    Discovered { observations: Seq<ObservationView> },
    Expired { observations: Seq<ObservationView> },
    GossipMessage { propagation_source: Seq<char>, source: Option<Seq<char>>, data: Seq<u8> },
    GossipSubscribed { peer: Seq<char>, topic: Seq<char> },
    GossipUnsubscribed { peer: Seq<char>, topic: Seq<char> },
    GossipNotSupported { peer: Seq<char> },
    Heartbeat { peer: Seq<char>, failure: Option<Seq<char>> },
}

impl View for InboundEvent {
    type V = InboundEventView;

    open spec fn view(&self) -> InboundEventView {
        match *self {
            InboundEvent::Discovered { observations } => InboundEventView::Discovered {
                observations: observation_views(observations@),
            },
            InboundEvent::Expired { observations } => InboundEventView::Expired {
                observations: observation_views(observations@),
            },
            InboundEvent::GossipMessage {
                propagation_source,
                source,
                data,
            } => InboundEventView::GossipMessage {
                propagation_source: propagation_source@,
                source: match source {
                    Some(peer) => Some(peer@),
                    None => None,
                },
                data: data@,
            },
            InboundEvent::GossipSubscribed { peer, topic } => InboundEventView::GossipSubscribed {
                peer: peer@,
                topic: topic@,
            },
            InboundEvent::GossipUnsubscribed {
                peer,
                topic,
            } => InboundEventView::GossipUnsubscribed { peer: peer@, topic: topic@ },
            InboundEvent::GossipNotSupported { peer } => InboundEventView::GossipNotSupported {
                peer: peer@,
            },
            InboundEvent::Heartbeat { peer, failure } => InboundEventView::Heartbeat {
                peer: peer@,
                failure: match failure {
                    Some(reason) => Some(reason@),
                    None => None,
                },
            },
        }
    }
}

/// Something that the driving loop is to do.
#[derive(Debug, PartialEq, Eq)]
pub enum DeferredAction {
    /// Connect to a peer, unless it is connected by then.
    Dial(DialRequest),
    /// Hand the application the message `message`, which came from `peer`.
    Emit { peer: PeerIdentity, message: ChatEnvelope },
    /// Report that the connection to `peer` failed for `reason`. The failure
    /// concerns that peer alone.
    ConnectionError { peer: PeerIdentity, reason: String },
}

/// What a [`DeferredAction`] holds, as mathematical values.
pub enum DeferredActionView {
    Dial(DialRequestView),
    Emit { peer: Seq<char>, message: EnvelopeView },
    ConnectionError { peer: Seq<char>, reason: Seq<char> },
}

impl View for DeferredAction {
    type V = DeferredActionView;

    open spec fn view(&self) -> DeferredActionView {
        match *self {
            DeferredAction::Dial(request) => DeferredActionView::Dial(request@),
            DeferredAction::Emit { peer, message } => DeferredActionView::Emit {
                peer: peer@,
                message: message@,
            },
            DeferredAction::ConnectionError { peer, reason } => DeferredActionView::ConnectionError {
                peer: peer@,
                reason: reason@,
            },
        }
    }
}

/// The peer a gossip message is attributed to: the one that signed it, and
/// the one that passed it on where it is not signed.
pub open spec fn message_origin(source: Option<Seq<char>>, propagation_source: Seq<char>) -> Seq<
    char,
> {
    match source {
        Some(peer) => peer,
        None => propagation_source,
    }
}

/// The actions that carry out `requests`, in the same order.
pub open spec fn dial_actions(requests: Seq<DialRequestView>) -> Seq<DeferredActionView> {
    requests.map_values(|request: DialRequestView| DeferredActionView::Dial(request))
}

/// The actions that `event` calls for while the peers in `connected` are
/// connected.
///
/// Observations call for the requests of the [`dial_plan`]. A gossip message
/// whose payload decodes calls for handing the envelope to the application,
/// attributed to its origin; one whose payload does not decode calls for
/// nothing. A failed heartbeat calls for a report about that peer. Nothing
/// else calls for anything.
pub open spec fn actions_for(event: InboundEventView, connected: Set<Seq<char>>) -> Seq<
    DeferredActionView,
> {
    match event {
        InboundEventView::Discovered { observations } => dial_actions(
            dial_plan(observations, connected),
        ),
        InboundEventView::GossipMessage { propagation_source, source, data } => match decoded(
            data,
        ) {
            Some(message) => seq![
                DeferredActionView::Emit {
                    peer: message_origin(source, propagation_source),
                    message,
                },
            ],
            None => Seq::empty(),
        },
        InboundEventView::Heartbeat { peer, failure } => match failure {
            Some(reason) => seq![DeferredActionView::ConnectionError { peer, reason }],
            None => Seq::empty(),
        },
        _ => Seq::empty(),
    }
}

/// A connected peer is never dialed: whatever the event, none of the actions
/// it calls for is a request to connect to a peer in `connected`.
pub proof fn lemma_no_dial_for_connected(
    event: InboundEventView,
    connected: Set<Seq<char>>,
    i: int,
)
    requires
        0 <= i < actions_for(event, connected).len(),
    ensures
        (actions_for(event, connected)[i] matches DeferredActionView::Dial(request)
            ==> !connected.contains(request.peer)),
{
    if let InboundEventView::Discovered { observations } = event {
        crate::dial::lemma_dial_plan_skips_connected(observations, connected);
        assert(actions_for(event, connected)[i] == DeferredActionView::Dial(
            dial_plan(observations, connected)[i],
        ));
    }
}

/// A payload that is the encoding of no envelope is dropped: it calls for no
/// action at all.
pub proof fn lemma_undecodable_is_dropped(
    propagation_source: Seq<char>,
    source: Option<Seq<char>>,
    data: Seq<u8>,
    connected: Set<Seq<char>>,
)
    requires
        decoded(data) is None,
    ensures
        actions_for(
            InboundEventView::GossipMessage { propagation_source, source, data },
            connected,
        ) == Seq::<DeferredActionView>::empty(),
{
}

/// The queue is first in, first out. When `actions` are queued behind
/// `queue`, every action that waited keeps its place in front of them, the
/// new ones follow in their own order, and none is lost; and taking the
/// oldest action away leaves the rest in that order.
pub proof fn lemma_queue_keeps_order(
    queue: Seq<DeferredActionView>,
    actions: Seq<DeferredActionView>,
)
    ensures
        (queue + actions).len() == queue.len() + actions.len(),
        forall|i: int| 0 <= i < queue.len() ==> (queue + actions)[i] == queue[i],
        forall|i: int|
            0 <= i < actions.len() ==> (queue + actions)[queue.len() + i] == actions[i],
        queue.len() > 0 ==> (queue + actions).drop_first() == queue.drop_first() + actions,
{
    if queue.len() > 0 {
        assert((queue + actions).drop_first() =~= queue.drop_first() + actions);
    }
}

/// The views of a sequence of actions, in the same order.
pub open spec fn action_views(actions: Seq<DeferredAction>) -> Seq<DeferredActionView> {
    actions.map_values(|action: DeferredAction| action@)
}

/// The aggregator of one node. Its view is the queue of deferred actions,
/// the oldest first.
#[derive(Debug)]
pub struct Aggregator {
    queue: VecDeque<DeferredAction>,
}

impl View for Aggregator {
    type V = Seq<DeferredActionView>;

    closed spec fn view(&self) -> Seq<DeferredActionView> {
        action_views(self.queue@)
    }
}

/// The peer that a gossip message is attributed to: see [`message_origin`].
pub fn attribute(source: Option<PeerIdentity>, propagation_source: PeerIdentity) -> (origin:
    PeerIdentity)
    ensures
        origin@ == message_origin(
            match source {
                Some(peer) => Some(peer@),
                None => None,
            },
            propagation_source@,
        ),
{
    match source {
        Some(peer) => peer,
        None => propagation_source,
    }
}

impl Default for Aggregator {
    fn default() -> (aggregator: Self)
        ensures
            aggregator@ == Seq::<DeferredActionView>::empty(),
    {
        Aggregator::new()
    }
}

impl Aggregator {
    /// An aggregator with nothing to do.
    pub fn new() -> (aggregator: Self)
        ensures
            aggregator@ == Seq::<DeferredActionView>::empty(),
    {
        let aggregator = Aggregator { queue: VecDeque::new() };
        assert(aggregator@ =~= Seq::<DeferredActionView>::empty());
        aggregator
    }

    /// The number of actions that wait in the queue.
    pub fn pending(&self) -> (count: usize)
        ensures
            count == self@.len(),
    {
        self.queue.len()
    }

    /// Puts `action` at the back of the queue.
    fn defer(&mut self, action: DeferredAction)
        ensures
            final(self)@ == old(self)@.push(action@),
    {
        self.queue.push_back(action);
        assert(self@ =~= old(self)@.push(action@));
    }

    /// Takes in one event of a sub-protocol and puts the actions it calls
    /// for at the back of the queue, in their order: see [`actions_for`].
    /// `session` tells which peers are connected.
    pub fn inject(&mut self, event: InboundEvent, session: &SessionState)
        ensures
            final(self)@ == old(self)@ + actions_for(event@, session@.connected),
    {
        let ghost wanted = actions_for(event@, session@.connected);
        match event {
            InboundEvent::Discovered { observations } => {
                let plan = plan_dials(&observations, session);
                let ghost requests = plan@;
                let ghost planned = request_views(requests);
                assert(self@ =~= old(self)@ + dial_actions(planned.take(0)));
                for request in iter: plan
                    invariant
                        iter.seq() == requests,
                        planned == request_views(requests),
                        self@ == old(self)@ + dial_actions(planned.take(iter.index() as int)),
                {
                    let ghost done = iter.index() as int;
                    self.defer(DeferredAction::Dial(request));
                    assert(planned.take(done + 1) =~= planned.take(done).push(request@));
                    assert(self@ =~= old(self)@ + dial_actions(planned.take(done + 1)));
                }
                assert(planned.take(planned.len() as int) =~= planned);
            },
            InboundEvent::GossipMessage { propagation_source, source, data } => {
                match decode(data.as_slice()) {
                    Ok(message) => {
                        let peer = attribute(source, propagation_source);
                        self.defer(DeferredAction::Emit { peer, message });
                        assert(self@ =~= old(self)@ + wanted);
                    },
                    Err(_) => {
                        assert(self@ =~= old(self)@ + wanted);
                    },
                }
            },
            InboundEvent::Heartbeat { peer, failure } => {
                match failure {
                    Some(reason) => {
                        self.defer(DeferredAction::ConnectionError { peer, reason });
                        assert(self@ =~= old(self)@ + wanted);
                    },
                    None => {
                        assert(self@ =~= old(self)@ + wanted);
                    },
                }
            },
            _ => {
                assert(self@ =~= old(self)@ + wanted);
            },
        }
    }

    /// Takes the oldest action from the queue, if there is one. The others
    /// stay, in their order.
    pub fn poll(&mut self) -> (action: Option<DeferredAction>)
        ensures
            old(self)@.len() == 0 ==> action is None && final(self)@ == old(self)@,
            old(self)@.len() > 0 ==> (action matches Some(first) && first@ == old(self)@[0])
                && final(self)@ == old(self)@.drop_first(),
    {
        let action = self.queue.pop_front();
        assert(old(self)@.len() > 0 ==> self@ =~= old(self)@.drop_first());
        action
    }
}

} // verus!
