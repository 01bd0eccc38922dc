//! From what discovery observed to the connection attempts worth making.
//!
//! Discovery reports pairs of a peer and an address at which the peer can be
//! reached. The plan drawn from a batch of such pairs holds one request for
//! each observed peer that is not connected, with all of that peer's
//! addresses, and none for a peer that is connected already.

use vstd::prelude::*;
use crate::peer::{PeerAddress, PeerIdentity};
use crate::session::SessionState;

verus! {

/// A peer was observed at an address.
#[derive(Debug, PartialEq, Eq)]
pub struct Observation {
    pub peer: PeerIdentity,
    pub address: PeerAddress,
}

/// What an [`Observation`] holds, as mathematical values.
pub struct ObservationView {
    pub peer: Seq<char>,
    pub address: Seq<char>,
}

impl View for Observation {
    type V = ObservationView;

    open spec fn view(&self) -> ObservationView {
        ObservationView { peer: self.peer@, address: self.address@ }
    }
}

/// The views of a sequence of observations, in the same order.
pub open spec fn observation_views(observations: Seq<Observation>) -> Seq<ObservationView> {
    observations.map_values(|observation: Observation| observation@)
}

/// When a request to connect is to be carried out.
#[derive(Debug, PartialEq, Eq, Clone, Copy)]
pub enum DialCondition {
    /// Only if no connection to the peer is established at that time.
    Disconnected,
    /// In any case.
    Always,
}

/// A request to connect to `peer` at one of `addresses`, to be carried out
/// under `condition`: see [`DialRequest::still_wanted`].
#[derive(Debug, PartialEq, Eq)]
pub struct DialRequest {
    pub peer: PeerIdentity,
    pub addresses: Vec<PeerAddress>,
    pub condition: DialCondition,
}

/// What a [`DialRequest`] holds, as mathematical values.
pub struct DialRequestView {
    pub peer: Seq<char>,
    pub addresses: Seq<Seq<char>>,
    pub condition: DialCondition,
}

/// The views of a sequence of addresses, in the same order.
pub open spec fn address_views(addresses: Seq<PeerAddress>) -> Seq<Seq<char>> {
    addresses.map_values(|address: PeerAddress| address@)
}

impl View for DialRequest {
    type V = DialRequestView;

    open spec fn view(&self) -> DialRequestView {
        DialRequestView {
            peer: self.peer@,
            addresses: address_views(self.addresses@),
            condition: self.condition,
        }
    }
}

/// The views of a sequence of requests, in the same order.
pub open spec fn request_views(requests: Seq<DialRequest>) -> Seq<DialRequestView> {
    requests.map_values(|request: DialRequest| request@)
}

/// The addresses at which `peer` was observed, in the order of observation.
pub open spec fn addresses_of(observations: Seq<ObservationView>, peer: Seq<char>) -> Seq<
    Seq<char>,
>
    decreases observations.len(),
{
    if observations.len() == 0 {
        Seq::empty()
    } else {
        let earlier = addresses_of(observations.drop_last(), peer);
        if observations.last().peer == peer {
            earlier.push(observations.last().address)
        } else {
            earlier
        }
    }
}

/// The observed peers that are not in `connected`, each once, in the order
/// in which they were observed first.
pub open spec fn peers_to_dial(observations: Seq<ObservationView>, connected: Set<Seq<char>>) -> Seq<
    Seq<char>,
>
    decreases observations.len(),
{
    if observations.len() == 0 {
        Seq::empty()
    } else {
        let earlier = peers_to_dial(observations.drop_last(), connected);
        let peer = observations.last().peer;
        if connected.contains(peer) || earlier.contains(peer) {
            earlier
        } else {
            earlier.push(peer)
        }
    }
}

/// The request to connect to `peer` that follows from `observations`: it
/// holds all the addresses at which the peer was observed, and is to be
/// carried out only if the peer is still disconnected by then.
pub open spec fn request_for(observations: Seq<ObservationView>, peer: Seq<char>) -> DialRequestView {
    DialRequestView {
        peer,
        addresses: addresses_of(observations, peer),
        condition: DialCondition::Disconnected,
    }
}

/// The requests that follow from `observations` while the peers in
/// `connected` are connected: the [`request_for`] each peer of
/// [`peers_to_dial`], in that order.
pub open spec fn dial_plan(observations: Seq<ObservationView>, connected: Set<Seq<char>>) -> Seq<
    DialRequestView,
> {
    peers_to_dial(observations, connected).map_values(
        |peer: Seq<char>| request_for(observations, peer),
    )
}

/// Whether a request is to be carried out while the peers in `connected` are
/// connected.
pub open spec fn wanted(request: DialRequestView, connected: Set<Seq<char>>) -> bool {
    match request.condition {
        DialCondition::Disconnected => !connected.contains(request.peer),
        DialCondition::Always => true,
    }
}

/// Whether `observations` hold an observation of `peer`.
pub open spec fn observed(observations: Seq<ObservationView>, peer: Seq<char>) -> bool {
    exists|i: int| 0 <= i < observations.len() && (#[trigger] observations[i]).peer == peer
}

/// The peers to dial are the observed peers that are not connected, and none
/// of them stands there twice.
pub proof fn lemma_peers_to_dial(observations: Seq<ObservationView>, connected: Set<Seq<char>>)
    ensures
        peers_to_dial(observations, connected).no_duplicates(),
        forall|peer: Seq<char>| #[trigger]
            peers_to_dial(observations, connected).contains(peer) <==> (observed(
                observations,
                peer,
            ) && !connected.contains(peer)),
    decreases observations.len(),
{
    let plan = peers_to_dial(observations, connected);
    if observations.len() == 0 {
        assert forall|peer: Seq<char>| #[trigger] plan.contains(peer) <==> (observed(
            observations,
            peer,
        ) && !connected.contains(peer)) by {}
    } else {
        let front = observations.drop_last();
        let earlier = peers_to_dial(front, connected);
        let newest = observations.last();
        lemma_peers_to_dial(front, connected);
        assert forall|peer: Seq<char>| #[trigger] plan.contains(peer) <==> (observed(
            observations,
            peer,
        ) && !connected.contains(peer)) by {
            if observed(front, peer) {
                let i = choose|i: int| 0 <= i < front.len() && (#[trigger] front[i]).peer == peer;
                assert(observations[i].peer == peer);
            }
            if observed(observations, peer) {
                let i = choose|i: int|
                    0 <= i < observations.len() && (#[trigger] observations[i]).peer == peer;
                if i < front.len() {
                    assert(front[i].peer == peer);
                } else {
                    assert(peer == newest.peer);
                }
            }
            if peer == newest.peer {
                assert(observations[observations.len() - 1].peer == peer);
            }
            if earlier.contains(peer) {
                let k = choose|k: int| 0 <= k < earlier.len() && earlier[k] == peer;
                assert(plan[k] == peer);
            }
            if plan.contains(peer) {
                let k = choose|k: int| 0 <= k < plan.len() && plan[k] == peer;
                if k < earlier.len() {
                    assert(earlier[k] == peer);
                }
            }
            if plan.len() > earlier.len() {
                assert(plan[earlier.len() as int] == newest.peer);
            }
        }
    }
}

/// No request is planned for a peer that is connected: whatever discovery
/// observed, the plan names only peers outside `connected`, each of them
/// once, and every request of the plan asks for the peer to be disconnected
/// still when it is carried out.
pub proof fn lemma_dial_plan_skips_connected(
    observations: Seq<ObservationView>,
    connected: Set<Seq<char>>,
)
    ensures
        forall|i: int|
            0 <= i < dial_plan(observations, connected).len() ==> !connected.contains(
                (#[trigger] dial_plan(observations, connected)[i]).peer,
            ),
        forall|i: int, j: int|
            0 <= i < j < dial_plan(observations, connected).len() ==> (#[trigger] dial_plan(
                observations,
                connected,
            )[i]).peer != (#[trigger] dial_plan(observations, connected)[j]).peer,
        forall|peer: Seq<char>|
            connected.contains(peer) ==> !(#[trigger] peers_to_dial(
                observations,
                connected,
            ).contains(peer)),
        forall|i: int|
            0 <= i < dial_plan(observations, connected).len() ==> (#[trigger] dial_plan(
                observations,
                connected,
            )[i]).condition == DialCondition::Disconnected,
{
    lemma_peers_to_dial(observations, connected);
    let peers = peers_to_dial(observations, connected);
    let plan = dial_plan(observations, connected);
    assert forall|i: int| 0 <= i < plan.len() implies !connected.contains(
        (#[trigger] plan[i]).peer,
    ) by {
        assert(peers.contains(peers[i]));
    }
}

/// A peer that was observed and is not connected gets a request, which holds
/// all its addresses, and at least one.
pub proof fn lemma_dial_plan_covers_observed(
    observations: Seq<ObservationView>,
    connected: Set<Seq<char>>,
    peer: Seq<char>,
)
    requires
        observed(observations, peer),
        !connected.contains(peer),
    ensures
        exists|i: int|
            0 <= i < dial_plan(observations, connected).len() && #[trigger] dial_plan(
                observations,
                connected,
            )[i] == request_for(observations, peer),
        addresses_of(observations, peer).len() > 0,
{
    lemma_peers_to_dial(observations, connected);
    let peers = peers_to_dial(observations, connected);
    assert(peers.contains(peer));
    let i = choose|i: int| 0 <= i < peers.len() && peers[i] == peer;
    assert(dial_plan(observations, connected)[i] == request_for(observations, peer));
    lemma_observed_has_address(observations, peer);
}

/// A peer that was observed has an address.
proof fn lemma_observed_has_address(observations: Seq<ObservationView>, peer: Seq<char>)
    requires
        observed(observations, peer),
    ensures
        addresses_of(observations, peer).len() > 0,
    decreases observations.len(),
{
    let front = observations.drop_last();
    if observations.last().peer != peer {
        let i = choose|i: int|
            0 <= i < observations.len() && (#[trigger] observations[i]).peer == peer;
        assert(front[i].peer == peer);
        lemma_observed_has_address(front, peer);
    }
}

/// A peer that was not observed has no address.
proof fn lemma_unobserved_has_no_address(observations: Seq<ObservationView>, peer: Seq<char>)
    requires
        !observed(observations, peer),
    ensures
        addresses_of(observations, peer) == Seq::<Seq<char>>::empty(),
    decreases observations.len(),
{
    if observations.len() > 0 {
        let front = observations.drop_last();
        assert(observations[observations.len() - 1].peer != peer);
        assert(!observed(front, peer)) by {
            if observed(front, peer) {
                let i = choose|i: int| 0 <= i < front.len() && (#[trigger] front[i]).peer == peer;
                assert(observations[i].peer == peer);
            }
        }
        lemma_unobserved_has_no_address(front, peer);
    }
}

/// How the plan grows with one more observation: nothing changes for a
/// connected peer; a peer that has a request gets one more address; any
/// other peer gets a request of its own, behind the others.
proof fn lemma_plan_step(
    observations: Seq<ObservationView>,
    newest: ObservationView,
    connected: Set<Seq<char>>,
)
    ensures
        ({
            let before = dial_plan(observations, connected);
            let after = dial_plan(observations.push(newest), connected);
            let peers = peers_to_dial(observations, connected);
            if connected.contains(newest.peer) {
                after == before
            } else if peers.contains(newest.peer) {
                let place = peers.index_of(newest.peer);
                after == before.update(
                    place,
                    DialRequestView {
                        peer: newest.peer,
                        addresses: before[place].addresses.push(newest.address),
                        condition: DialCondition::Disconnected,
                    },
                )
            } else {
                after == before.push(
                    DialRequestView {
                        peer: newest.peer,
                        addresses: seq![newest.address],
                        condition: DialCondition::Disconnected,
                    },
                )
            }
        }),
{
    let longer = observations.push(newest);
    assert(longer.drop_last() =~= observations);
    assert(longer.last() == newest);
    let before = dial_plan(observations, connected);
    let after = dial_plan(longer, connected);
    let peers = peers_to_dial(observations, connected);
    lemma_peers_to_dial(observations, connected);
    if connected.contains(newest.peer) {
        assert forall|i: int| 0 <= i < peers.len() implies peers[i] != newest.peer by {
            assert(peers.contains(peers[i]));
        }
        assert(after =~= before);
    } else if peers.contains(newest.peer) {
        let place = peers.index_of(newest.peer);
        assert forall|i: int| 0 <= i < peers.len() && i != place implies peers[i]
            != newest.peer by {}
        assert(after =~= before.update(
            place,
            DialRequestView {
                peer: newest.peer,
                addresses: before[place].addresses.push(newest.address),
                condition: DialCondition::Disconnected,
            },
        ));
    } else {
        lemma_unobserved_has_no_address(observations, newest.peer);
        assert(Seq::<Seq<char>>::empty().push(newest.address) =~= seq![newest.address]);
        assert forall|i: int| 0 <= i < peers.len() implies peers[i] != newest.peer by {
            assert(peers.contains(peers[i]));
        }
        assert(after =~= before.push(
            DialRequestView {
                peer: newest.peer,
                addresses: seq![newest.address],
                condition: DialCondition::Disconnected,
            },
        ));
    }
}

/// The place in `plan` of the request for `peer`, if there is one.
fn planned_place(plan: &Vec<DialRequest>, peer: &PeerIdentity) -> (place: Option<usize>)
    ensures
        place matches Some(i) ==> i < plan@.len() && plan@[i as int].peer@ == peer@,
        place is None ==> forall|k: int| 0 <= k < plan@.len() ==> (#[trigger] plan@[k]).peer@
            != peer@,
{
    let mut i: usize = 0;
    while i < plan.len()
        invariant
            i <= plan@.len(),
            forall|k: int| 0 <= k < i ==> (#[trigger] plan@[k]).peer@ != peer@,
        decreases plan@.len() - i,
    {
        if plan[i].peer.same_peer(peer) {
            return Some(i);
        }
        i += 1;
    }
    None
}

impl DialRequest {
    /// Whether this request is still to be carried out: see [`wanted`]. A
    /// request of the dial plan is not, once a connection to its peer is
    /// established.
    pub fn still_wanted(&self, session: &SessionState) -> (still: bool)
        ensures
            still == wanted(self@, session@.connected),
    {
        match self.condition {
            DialCondition::Disconnected => !session.is_connected(&self.peer),
            DialCondition::Always => true,
        }
    }
}

/// Draws the plan from a batch of observations: see [`dial_plan`].
pub fn plan_dials(observations: &Vec<Observation>, session: &SessionState) -> (plan: Vec<
    DialRequest,
>)
    ensures
        request_views(plan@) == dial_plan(observation_views(observations@), session@.connected),
{
    let ghost all = observation_views(observations@);
    let ghost connected = session@.connected;
    let mut plan: Vec<DialRequest> = Vec::new();
    let mut done: usize = 0;
    assert(all.take(0) =~= Seq::<ObservationView>::empty());
    assert(request_views(plan@) =~= dial_plan(all.take(0), connected));
    while done < observations.len()
        invariant
            done <= observations@.len(),
            all == observation_views(observations@),
            connected == session@.connected,
            request_views(plan@) == dial_plan(all.take(done as int), connected),
        decreases observations@.len() - done,
    {
        let observation = &observations[done];
        let ghost seen = all.take(done as int);
        let ghost before = plan@;
        proof {
            assert(all.take(done + 1) =~= seen.push(observation@));
            lemma_plan_step(seen, observation@, connected);
            lemma_peers_to_dial(seen, connected);
        }
        let ghost peers = peers_to_dial(seen, connected);
        let ghost planned = dial_plan(seen, connected);
        match planned_place(&plan, &observation.peer) {
            Some(place) => {
                proof {
                    assert(planned.len() == peers.len());
                    assert(request_views(before)[place as int] == before[place as int]@);
                    assert(planned[place as int].peer == peers[place as int]);
                    assert(peers[place as int] == observation.peer@);
                    assert(peers.contains(observation.peer@));
                    assert(peers.index_of(observation.peer@) == place);
                }
                let mut request = plan.remove(place);
                request.addresses.push(observation.address.clone());
                plan.insert(place, request);
                proof {
                    assert(plan@[place as int]@.addresses =~= before[place as int]@.addresses.push(
                        observation.address@,
                    ));
                    assert(planned[place as int].condition == DialCondition::Disconnected);
                    assert(request_views(plan@) =~= request_views(before).update(
                        place as int,
                        DialRequestView {
                            peer: observation.peer@,
                            addresses: before[place as int]@.addresses.push(observation.address@),
                            condition: DialCondition::Disconnected,
                        },
                    ));
                }
            },
            None => {
                proof {
                    assert(!peers.contains(observation.peer@)) by {
                        if peers.contains(observation.peer@) {
                            let k = choose|k: int|
                                0 <= k < peers.len() && peers[k] == observation.peer@;
                            assert(planned.len() == peers.len());
                            assert(planned[k].peer == peers[k]);
                            assert(request_views(before)[k] == before[k]@);
                            assert(before[k].peer@ == observation.peer@);
                        }
                    }
                }
                if !session.is_connected(&observation.peer) {
                    let mut addresses: Vec<PeerAddress> = Vec::new();
                    addresses.push(observation.address.clone());
                    let request = DialRequest {
                        peer: observation.peer.clone(),
                        addresses,
                        condition: DialCondition::Disconnected,
                    };
                    proof {
                        assert(request@.addresses =~= seq![observation.address@]);
                    }
                    plan.push(request);
                    proof {
                        assert(request_views(plan@) =~= request_views(before).push(
                            DialRequestView {
                                peer: observation.peer@,
                                addresses: seq![observation.address@],
                                condition: DialCondition::Disconnected,
                            },
                        ));
                    }
                }
            },
        }
        done += 1;
    }
    assert(all.take(done as int) =~= all);
    plan
}

} // verus!
