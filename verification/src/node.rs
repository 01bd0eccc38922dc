//! The node: the session and the aggregator put together.
//!
//! One event of the network goes in; out come the effects that the driving
//! loop is to carry out, in their order. In between, the event becomes
//! deferred actions or a change of presence, and the queue of deferred
//! actions is drained from the front: a message goes to the session and may
//! be worth a notice, a request to connect is passed on only if its peer is
//! still disconnected at that moment, a failure is reported.

use vstd::prelude::*;
use crate::aggregator::{
    actions_for, Aggregator, DeferredAction, DeferredActionView, InboundEvent, InboundEventView,
};
use crate::dial::{wanted, DialRequest, DialRequestView};
use crate::notice::{Notice, NoticeView};
use crate::peer::PeerIdentity;
use crate::session::{
    connect, disconnect, fresh, step, SessionEventView, SessionModel, SessionState,
};

verus! {

/// What the network reports to the node.
#[derive(Debug, PartialEq, Eq)]
pub enum NetworkEvent {
    /// An event of discovery, gossip or the heartbeat.
    Protocol(InboundEvent),
    /// A connection to `peer` was established.
    ConnectionEstablished { peer: PeerIdentity },
    /// A connection to `peer` was closed; `remaining_established` counts the
    /// connections to it that are still established.
    ConnectionClosed { peer: PeerIdentity, remaining_established: u32 },
}

/// What a [`NetworkEvent`] holds, as mathematical values.
pub enum NetworkEventView {
    Protocol(InboundEventView),
    ConnectionEstablished { peer: Seq<char> },
    ConnectionClosed { peer: Seq<char>, remaining_established: u32 },
}

impl View for NetworkEvent {
    type V = NetworkEventView;

    open spec fn view(&self) -> NetworkEventView {
        match *self {
            NetworkEvent::Protocol(event) => NetworkEventView::Protocol(event@),
            NetworkEvent::ConnectionEstablished { peer } => NetworkEventView::ConnectionEstablished {
                peer: peer@,
            },
            NetworkEvent::ConnectionClosed {
                peer,
                remaining_established,
            } => NetworkEventView::ConnectionClosed { peer: peer@, remaining_established },
        }
    }
}

/// Something that the driving loop is to carry out.
#[derive(Debug, PartialEq, Eq)]
pub enum Effect {
    /// Show the notice to the local user.
    Show(Notice),
    /// Try to connect to a peer.
    Dial(DialRequest),
    /// Report that the connection to `peer` failed for `reason`.
    Report { peer: PeerIdentity, reason: String },
}

/// What an [`Effect`] holds, as mathematical values.
pub enum EffectView {
    Show(NoticeView),
    Dial(DialRequestView),
    Report { peer: Seq<char>, reason: Seq<char> },
}

impl View for Effect {
    type V = EffectView;

    open spec fn view(&self) -> EffectView {
        match *self {
            Effect::Show(notice) => EffectView::Show(notice@),
            Effect::Dial(request) => EffectView::Dial(request@),
            Effect::Report { peer, reason } => EffectView::Report { peer: peer@, reason: reason@ },
        }
    }
}

/// The views of a sequence of effects, in the same order.
pub open spec fn effect_views(effects: Seq<Effect>) -> Seq<EffectView> {
    effects.map_values(|effect: Effect| effect@)
}

/// The node as mathematical values: its session, and the deferred actions
/// that wait, the oldest first.
pub struct NodeModel {
    pub session: SessionModel,
    pub queue: Seq<DeferredActionView>,
}

/// A session together with effects that led to it.
pub struct Drained {
    pub session: SessionModel,
    pub effects: Seq<EffectView>,
}

/// A node's next state together with the effects of the event that led to it.
pub struct Handled {
    pub node: NodeModel,
    pub effects: Seq<EffectView>,
}

/// The effect of showing `notice`, if there is a notice.
pub open spec fn shown(notice: Option<NoticeView>) -> Seq<EffectView> {
    match notice {
        Some(notice) => seq![EffectView::Show(notice)],
        None => Seq::empty(),
    }
}

/// Carrying out one deferred action in `session`. A message goes through the
/// session like any chat event. A request to connect is passed on if it is
/// still wanted, and dropped if it is not. A failure is reported.
pub open spec fn carry_out(session: SessionModel, action: DeferredActionView) -> Drained {
    match action {
        DeferredActionView::Dial(request) => Drained {
            session,
            effects: if wanted(request, session.connected) {
                seq![EffectView::Dial(request)]
            } else {
                Seq::empty()
            },
        },
        DeferredActionView::Emit { peer, message } => {
            let outcome = step(session, SessionEventView::Chat { peer, message });
            Drained { session: outcome.state, effects: shown(outcome.notice) }
        },
        DeferredActionView::ConnectionError { peer, reason } => Drained {
            session,
            effects: seq![EffectView::Report { peer, reason }],
        },
    }
}

/// Carrying out all of `queue`, the oldest action first.
pub open spec fn drain(session: SessionModel, queue: Seq<DeferredActionView>) -> Drained
    decreases queue.len(),
{
    if queue.len() == 0 {
        Drained { session, effects: Seq::empty() }
    } else {
        let first = carry_out(session, queue[0]);
        let rest = drain(first.session, queue.drop_first());
        Drained { session: rest.session, effects: first.effects + rest.effects }
    }
}

/// What `event` does to `node`. An event of a sub-protocol puts the actions
/// it calls for behind those that wait; a connection that is established or
/// closed goes through the session, and its notice is the first effect. Then
/// the whole queue is carried out, so that none waits when the event is done.
pub open spec fn handled(node: NodeModel, event: NetworkEventView) -> Handled {
    let (arrived, queue) = match event {
        NetworkEventView::Protocol(inbound) => (
            Drained { session: node.session, effects: Seq::empty() },
            node.queue + actions_for(inbound, node.session.connected),
        ),
        NetworkEventView::ConnectionEstablished { peer } => {
            let outcome = connect(node.session, peer);
            (Drained { session: outcome.state, effects: shown(outcome.notice) }, node.queue)
        },
        NetworkEventView::ConnectionClosed { peer, remaining_established } => {
            let outcome = disconnect(node.session, peer, remaining_established);
            (Drained { session: outcome.state, effects: shown(outcome.notice) }, node.queue)
        },
    };
    let drained = drain(arrived.session, queue);
    Handled {
        node: NodeModel { session: drained.session, queue: Seq::empty() },
        effects: arrived.effects + drained.effects,
    }
}

/// Carrying out deferred actions changes no presence: the peers that are
/// connected before the queue is drained are those connected after.
pub proof fn lemma_drain_keeps_connected(session: SessionModel, queue: Seq<DeferredActionView>)
    ensures
        drain(session, queue).session.connected == session.connected,
    decreases queue.len(),
{
    if queue.len() > 0 {
        let first = carry_out(session, queue[0]);
        lemma_drain_keeps_connected(first.session, queue.drop_first());
    }
}

/// A request to connect that is passed on is wanted when it is passed on:
/// among the effects of draining a queue there is no conditional request
/// for a peer that is connected.
pub proof fn lemma_drain_dials_only_wanted(
    session: SessionModel,
    queue: Seq<DeferredActionView>,
    i: int,
)
    requires
        0 <= i < drain(session, queue).effects.len(),
    ensures
        (drain(session, queue).effects[i] matches EffectView::Dial(request) ==> wanted(
            request,
            session.connected,
        )),
    decreases queue.len(),
{
    if queue.len() > 0 {
        let first = carry_out(session, queue[0]);
        let rest = drain(first.session, queue.drop_first());
        if i >= first.effects.len() {
            lemma_drain_dials_only_wanted(
                first.session,
                queue.drop_first(),
                i - first.effects.len(),
            );
        }
    }
}

/// A connected peer is not dialed. Whatever the event and whatever waits in
/// the queue, every request to connect among the effects is wanted in the
/// session that the event leaves behind; so none that asks for a
/// disconnected peer names a peer that is connected then.
pub proof fn lemma_handled_dials_only_wanted(node: NodeModel, event: NetworkEventView, i: int)
    requires
        0 <= i < handled(node, event).effects.len(),
    ensures
        (handled(node, event).effects[i] matches EffectView::Dial(request) ==> wanted(
            request,
            handled(node, event).node.session.connected,
        )),
{
    let (arrived, queue) = match event {
        NetworkEventView::Protocol(inbound) => (
            Drained { session: node.session, effects: Seq::<EffectView>::empty() },
            node.queue + actions_for(inbound, node.session.connected),
        ),
        NetworkEventView::ConnectionEstablished { peer } => {
            let outcome = connect(node.session, peer);
            (Drained { session: outcome.state, effects: shown(outcome.notice) }, node.queue)
        },
        NetworkEventView::ConnectionClosed { peer, remaining_established } => {
            let outcome = disconnect(node.session, peer, remaining_established);
            (Drained { session: outcome.state, effects: shown(outcome.notice) }, node.queue)
        },
    };
    lemma_drain_keeps_connected(arrived.session, queue);
    if i >= arrived.effects.len() {
        lemma_drain_dials_only_wanted(arrived.session, queue, i - arrived.effects.len());
    }
}

/// One node: its session and its aggregator.
#[derive(Debug)]
pub struct Node {
    session: SessionState,
    aggregator: Aggregator,
}

impl View for Node {
    type V = NodeModel;

    closed spec fn view(&self) -> NodeModel {
        NodeModel { session: self.session@, queue: self.aggregator@ }
    }
}

impl Default for Node {
    fn default() -> (node: Self)
        ensures
            node@ == (NodeModel { session: fresh(), queue: Seq::empty() }),
    {
        Node::new()
    }
}

impl Node {
    /// A node that knows nobody and has nothing to do.
    pub fn new() -> (node: Self)
        ensures
            node@ == (NodeModel { session: fresh(), queue: Seq::empty() }),
    {
        Node { session: SessionState::new(), aggregator: Aggregator::new() }
    }

    /// The node's session.
    pub fn session(&self) -> (session: &SessionState)
        ensures
            session@ == self@.session,
    {
        &self.session
    }

    /// Takes the node through `event` and gives the effects to carry out, in
    /// their order: see [`handled`].
    pub fn handle(&mut self, event: NetworkEvent) -> (effects: Vec<Effect>)
        ensures
            final(self)@ == handled(old(self)@, event@).node,
            effect_views(effects@) == handled(old(self)@, event@).effects,
    {
        let ghost target = handled(old(self)@, event@);
        let mut effects: Vec<Effect> = Vec::new();
        match event {
            NetworkEvent::Protocol(inbound) => {
                self.aggregator.inject(inbound, &self.session);
            },
            NetworkEvent::ConnectionEstablished { peer } => {
                if let Some(notice) = self.session.on_connected(peer) {
                    effects.push(Effect::Show(notice));
                }
            },
            NetworkEvent::ConnectionClosed { peer, remaining_established } => {
                if let Some(notice) = self.session.on_disconnected(&peer, remaining_established) {
                    effects.push(Effect::Show(notice));
                }
            },
        }
        assert(effect_views(effects@) + drain(self.session@, self.aggregator@).effects
            =~= target.effects);
        while self.aggregator.pending() > 0
            invariant
                effect_views(effects@) + drain(self.session@, self.aggregator@).effects
                    == target.effects,
                drain(self.session@, self.aggregator@).session == target.node.session,
            decreases self.aggregator@.len(),
        {
            let ghost before = effect_views(effects@);
            let ghost session = self.session@;
            let ghost queue = self.aggregator@;
            let ghost first = carry_out(session, queue[0]);
            let ghost rest = drain(first.session, queue.drop_first());
            let action = self.aggregator.poll().unwrap();
            match action {
                DeferredAction::Dial(request) => {
                    if request.still_wanted(&self.session) {
                        effects.push(Effect::Dial(request));
                    }
                },
                DeferredAction::Emit { peer, message } => {
                    let notice = self.session.handle_event(
                        crate::session::SessionEvent::Chat { peer, message },
                    );
                    if let Some(notice) = notice {
                        effects.push(Effect::Show(notice));
                    }
                },
                DeferredAction::ConnectionError { peer, reason } => {
                    effects.push(Effect::Report { peer, reason });
                },
            }
            assert(effect_views(effects@) =~= before + first.effects);
            assert((before + first.effects) + rest.effects =~= before + (first.effects
                + rest.effects));
        }
        assert(self.aggregator@ =~= Seq::<DeferredActionView>::empty());
        assert(effect_views(effects@) + Seq::<EffectView>::empty() =~= effect_views(effects@));
        effects
    }
}

} // verus!
