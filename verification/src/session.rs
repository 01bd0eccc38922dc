//! The session state: which peers are connected, under which nickname each
//! peer is known, and the notices that follow from what happens to them.

use vstd::prelude::*;
use crate::envelope::{ChatEnvelope, EnvelopeView};
use crate::notice::{notice_view, Notice, NoticeView};
use crate::peer::PeerIdentity;

verus! {

/// The session as mathematical values: the set of connected peers and the
/// nickname that each named peer announced last. Peers stand by the text of
/// their identity.
pub struct SessionModel {
    pub connected: Set<Seq<char>>,
    pub nicknames: Map<Seq<char>, Seq<char>>,
}

/// A session's next state, and the notice to show on the way there.
pub struct Outcome {
    pub state: SessionModel,
    pub notice: Option<NoticeView>,
}

/// The name under which `peer` is shown: its nickname, or the text of its
/// identity while it has announced none.
pub open spec fn display_name(session: SessionModel, peer: Seq<char>) -> Seq<char> {
    if session.nicknames.contains_key(peer) {
        session.nicknames[peer]
    } else {
        peer
    }
}

/// A connection to `peer` was established. The peer joins the connected set;
/// a notice is due only if it was not in that set before.
pub open spec fn connect(session: SessionModel, peer: Seq<char>) -> Outcome {
    Outcome {
        state: SessionModel {
            connected: session.connected.insert(peer),
            nicknames: session.nicknames,
        },
        notice: if session.connected.contains(peer) {
            None
        } else {
            Some(NoticeView::Connected { name: display_name(session, peer) })
        },
    }
}

/// A connection to `peer` was closed, and `remaining` established
/// connections to it are left. Only the step to zero connections removes a
/// connected peer from the set and is worth a notice.
pub open spec fn disconnect(session: SessionModel, peer: Seq<char>, remaining: u32) -> Outcome {
    if remaining == 0 && session.connected.contains(peer) {
        Outcome {
            state: SessionModel {
                connected: session.connected.remove(peer),
                nicknames: session.nicknames,
            },
            notice: Some(NoticeView::Disconnected { name: display_name(session, peer) }),
        }
    } else {
        Outcome { state: session, notice: None }
    }
}

/// `peer` announced the nickname `nick`. The nickname is recorded; a notice
/// is due only if the peer was shown under another name before.
pub open spec fn rename(session: SessionModel, peer: Seq<char>, nick: Seq<char>) -> Outcome {
    Outcome {
        state: SessionModel {
            connected: session.connected,
            nicknames: session.nicknames.insert(peer, nick),
        },
        notice: if display_name(session, peer) == nick {
            None
        } else {
            Some(NoticeView::Renamed { old_name: display_name(session, peer), new_name: nick })
        },
    }
}

/// The notice for a line of chat from `peer`.
pub open spec fn chat(
    session: SessionModel,
    peer: Seq<char>,
    text: Seq<char>,
    origin_timestamp: i64,
) -> NoticeView {
    NoticeView::Chat { origin_timestamp, sender: display_name(session, peer), text }
}

/// What can happen to a session.
#[derive(Debug, PartialEq, Eq)]
pub enum SessionEvent {
    /// An application message arrived, attributed to `peer`.
    Chat { peer: PeerIdentity, message: ChatEnvelope },
    /// A connection to `peer` was established.
    ConnectionEstablished { peer: PeerIdentity },
    /// A connection to `peer` was closed; `remaining_established` counts the
    /// connections to it that are still established.
    ConnectionClosed { peer: PeerIdentity, remaining_established: u32 },
}

/// What a [`SessionEvent`] holds, as mathematical values.
pub enum SessionEventView {
    Chat { peer: Seq<char>, message: EnvelopeView },
    ConnectionEstablished { peer: Seq<char> },
    ConnectionClosed { peer: Seq<char>, remaining_established: u32 },
}

impl View for SessionEvent {
    type V = SessionEventView;

    open spec fn view(&self) -> SessionEventView {
        match *self {
            SessionEvent::Chat { peer, message } => SessionEventView::Chat {
                peer: peer@,
                message: message@,
            },
            SessionEvent::ConnectionEstablished { peer } => SessionEventView::ConnectionEstablished {
                peer: peer@,
            },
            SessionEvent::ConnectionClosed {
                peer,
                remaining_established,
            } => SessionEventView::ConnectionClosed { peer: peer@, remaining_established },
        }
    }
}

/// The session after `event`, and the notice that `event` is worth.
pub open spec fn step(session: SessionModel, event: SessionEventView) -> Outcome {
    match event {
        SessionEventView::Chat { peer, message } => match message {
            EnvelopeView::Message { text, origin_timestamp } => Outcome {
                state: session,
                notice: Some(chat(session, peer, text, origin_timestamp)),
            },
            EnvelopeView::ChangeNickname { nick } => rename(session, peer, nick),
        },
        SessionEventView::ConnectionEstablished { peer } => connect(session, peer),
        SessionEventView::ConnectionClosed { peer, remaining_established } => disconnect(
            session,
            peer,
            remaining_established,
        ),
    }
}

/// Announcing the name under which a peer is shown already is worth no
/// notice; announcing any other name is worth exactly the notice that leads
/// from the name shown so far to the new one. Once a name is announced,
/// announcing it again changes nothing and is worth no notice.
pub proof fn lemma_rename_is_idempotent(session: SessionModel, peer: Seq<char>, nick: Seq<char>)
    ensures
        display_name(session, peer) == nick ==> rename(session, peer, nick).notice is None,
        display_name(session, peer) != nick ==> rename(session, peer, nick).notice == Some(
            NoticeView::Renamed { old_name: display_name(session, peer), new_name: nick },
        ),
        display_name(rename(session, peer, nick).state, peer) == nick,
        rename(rename(session, peer, nick).state, peer, nick) == (Outcome {
            state: rename(session, peer, nick).state,
            notice: None,
        }),
{
    let once = rename(session, peer, nick).state;
    let twice = rename(once, peer, nick).state;
    assert(twice.nicknames =~= once.nicknames);
}

/// A nickname changes how one peer is shown and nothing else: who is
/// connected stays, and every other peer keeps its name.
pub proof fn lemma_rename_touches_one_peer(
    session: SessionModel,
    peer: Seq<char>,
    nick: Seq<char>,
    other: Seq<char>,
)
    requires
        other != peer,
    ensures
        rename(session, peer, nick).state.connected == session.connected,
        display_name(rename(session, peer, nick).state, other) == display_name(session, other),
{
}

/// However often connections to one peer are established, only the first
/// one is worth a notice: a peer that is connected already stays connected,
/// without a notice, and the session does not change.
pub proof fn lemma_connect_is_idempotent(session: SessionModel, peer: Seq<char>)
    ensures
        connect(session, peer).state.connected.contains(peer),
        connect(session, peer).notice is Some <==> !session.connected.contains(peer),
        connect(connect(session, peer).state, peer) == (Outcome {
            state: connect(session, peer).state,
            notice: None,
        }),
{
    let once = connect(session, peer).state;
    let twice = connect(once, peer).state;
    assert(twice.connected =~= once.connected);
}

/// A closed connection is worth a notice only where it was the last one to a
/// connected peer. While connections remain the session does not change; the
/// step to zero removes the peer, and a second report of zero is worth nothing.
pub proof fn lemma_disconnect_only_at_zero(session: SessionModel, peer: Seq<char>, remaining: u32)
    ensures
        disconnect(session, peer, remaining).notice is Some <==> (remaining == 0
            && session.connected.contains(peer)),
        remaining != 0 ==> disconnect(session, peer, remaining).state == session,
        !disconnect(session, peer, 0).state.connected.contains(peer),
        disconnect(disconnect(session, peer, 0).state, peer, 0).notice is None,
{
}

/// A peer that connects over two connections is announced once, stays
/// connected while one of the two is left, and is reported gone only when
/// the second one closes.
pub proof fn lemma_two_connections_one_presence(session: SessionModel, peer: Seq<char>)
    requires
        !session.connected.contains(peer),
    ensures
        ({
            let first = connect(session, peer);
            let second = connect(first.state, peer);
            let one_left = disconnect(second.state, peer, 1);
            let none_left = disconnect(one_left.state, peer, 0);
            &&& first.notice is Some
            &&& second.notice is None
            &&& one_left.notice is None
            &&& one_left.state.connected.contains(peer)
            &&& none_left.notice is Some
            &&& none_left.state.connected == session.connected
        }),
{
    let first = connect(session, peer);
    let second = connect(first.state, peer);
    let one_left = disconnect(second.state, peer, 1);
    let none_left = disconnect(one_left.state, peer, 0);
    assert(none_left.state.connected =~= session.connected);
}

/// A line of chat leaves the session as it is.
pub proof fn lemma_chat_keeps_session(
    session: SessionModel,
    peer: Seq<char>,
    text: Seq<char>,
    origin_timestamp: i64,
)
    ensures
        step(
            session,
            SessionEventView::Chat {
                peer,
                message: EnvelopeView::Message { text, origin_timestamp },
            },
        ) == (Outcome {
            state: session,
            notice: Some(
                NoticeView::Chat { origin_timestamp, sender: display_name(session, peer), text },
            ),
        }),
{
}

/// The session in which nothing has happened yet.
pub open spec fn fresh() -> SessionModel {
    SessionModel { connected: Set::empty(), nicknames: Map::empty() }
}

/// The session after all of `events`, in their order, starting afresh.
pub open spec fn run(events: Seq<SessionEventView>) -> SessionModel
    decreases events.len(),
{
    if events.len() == 0 {
        fresh()
    } else {
        step(run(events.drop_last()), events.last()).state
    }
}

/// The number of connections to `peer` that are established after `events`,
/// as the connection layer counts them: one more with each connection that
/// is established, one less with each that is closed.
pub open spec fn established(events: Seq<SessionEventView>, peer: Seq<char>) -> nat
    decreases events.len(),
{
    if events.len() == 0 {
        0
    } else {
        let before = established(events.drop_last(), peer);
        match events.last() {
            SessionEventView::ConnectionEstablished { peer: subject } => {
                if subject == peer {
                    before + 1
                } else {
                    before
                }
            },
            SessionEventView::ConnectionClosed { peer: subject, remaining_established } => {
                if subject == peer && before > 0 {
                    (before - 1) as nat
                } else {
                    before
                }
            },
            _ => before,
        }
    }
}

/// Whether `events` are what a connection layer can report: each closed
/// connection was established before, and the count that comes with it is
/// the number of connections to that peer which are left.
pub open spec fn faithful(events: Seq<SessionEventView>) -> bool
    decreases events.len(),
{
    events.len() > 0 ==> {
        &&& faithful(events.drop_last())
        &&& match events.last() {
            SessionEventView::ConnectionClosed {
                peer,
                remaining_established,
            } => established(events.drop_last(), peer) == remaining_established + 1,
            _ => true,
        }
    }
}

/// A peer is in the connected set exactly while a connection to it is
/// established: after any events that a connection layer can report, the
/// session holds the peers whose count of established connections is not zero.
pub proof fn lemma_connected_while_established(events: Seq<SessionEventView>, peer: Seq<char>)
    requires
        faithful(events),
    ensures
        run(events).connected.contains(peer) <==> established(events, peer) > 0,
    decreases events.len(),
{
    if events.len() > 0 {
        let earlier = events.drop_last();
        lemma_connected_while_established(earlier, peer);
        match events.last() {
            SessionEventView::ConnectionClosed { peer: subject, remaining_established } => {
                lemma_connected_while_established(earlier, subject);
            },
            _ => {},
        }
    }
}

/// Presence is announced at its two ends and nowhere else. Among events
/// that a connection layer can report, the one that is worth a "connected"
/// notice is the connection that takes a peer's count from zero to one, and
/// the one that is worth a "disconnected" notice is the closing that takes
/// the count from one to zero.
pub proof fn lemma_presence_is_announced_at_its_ends(
    events: Seq<SessionEventView>,
    next: SessionEventView,
)
    requires
        faithful(events.push(next)),
    ensures
        (step(run(events), next).notice matches Some(NoticeView::Connected { .. })) <==> (
        next matches SessionEventView::ConnectionEstablished { peer } && established(events, peer)
            == 0),
        (step(run(events), next).notice matches Some(NoticeView::Disconnected { .. })) <==> (
        next matches SessionEventView::ConnectionClosed { peer, .. } && established(events, peer)
            == 1),
{
    assert(events.push(next).drop_last() =~= events);
    match next {
        SessionEventView::ConnectionEstablished { peer } => {
            lemma_connected_while_established(events, peer);
        },
        SessionEventView::ConnectionClosed { peer, remaining_established } => {
            lemma_connected_while_established(events, peer);
        },
        _ => {},
    }
}

/// A peer together with the nickname it announced last.
#[derive(Debug)]
struct NicknameEntry {
    peer: PeerIdentity,
    nick: String,
}

/// The session state of one node. It holds each connected peer once and at
/// most one nickname for each peer.
#[derive(Debug)]
pub struct SessionState {
    connected: Vec<PeerIdentity>,
    nicknames: Vec<NicknameEntry>,
}

/// Whether `peers` holds a peer whose identity reads `peer`.
spec fn lists_peer(peers: Seq<PeerIdentity>, peer: Seq<char>) -> bool {
    exists|i: int| 0 <= i < peers.len() && (#[trigger] peers[i])@ == peer
}

/// Whether `entries` holds a nickname for the peer whose identity reads `peer`.
spec fn names_peer(entries: Seq<NicknameEntry>, peer: Seq<char>) -> bool {
    exists|i: int| 0 <= i < entries.len() && (#[trigger] entries[i]).peer@ == peer
}

/// A place in `entries` at which the nickname of `peer` stands.
spec fn place_of(entries: Seq<NicknameEntry>, peer: Seq<char>) -> int {
    choose|i: int| 0 <= i < entries.len() && (#[trigger] entries[i]).peer@ == peer
}

/// No two places of `peers` hold the same peer.
spec fn distinct_peers(peers: Seq<PeerIdentity>) -> bool {
    forall|i: int, j: int|
        0 <= i < j < peers.len() ==> (#[trigger] peers[i])@ != (#[trigger] peers[j])@
}

/// No two places of `entries` hold a nickname for the same peer.
spec fn distinct_entries(entries: Seq<NicknameEntry>) -> bool {
    forall|i: int, j: int|
        0 <= i < j < entries.len() ==> (#[trigger] entries[i]).peer@ != (#[trigger] entries[j]).peer@
}

impl View for SessionState {
    type V = SessionModel;

    closed spec fn view(&self) -> SessionModel {
        SessionModel {
            connected: Set::new(|peer: Seq<char>| lists_peer(self.connected@, peer)),
            nicknames: Map::new(
                |peer: Seq<char>| names_peer(self.nicknames@, peer),
                |peer: Seq<char>| self.nicknames@[place_of(self.nicknames@, peer)].nick@,
            ),
        }
    }
}

impl Default for SessionState {
    fn default() -> (session: Self)
        ensures
            session@ == fresh(),
    {
        SessionState::new()
    }
}

impl SessionState {
    #[verifier::type_invariant]
    spec fn well_formed(self) -> bool {
        &&& distinct_peers(self.connected@)
        &&& distinct_entries(self.nicknames@)
    }

    /// A session in which no peer is connected and none has a nickname.
    pub fn new() -> (session: Self)
        ensures
            session@ == fresh(),
    {
        let session = SessionState { connected: Vec::new(), nicknames: Vec::new() };
        assert(session@.connected =~= Set::<Seq<char>>::empty());
        assert(session@.nicknames =~= Map::<Seq<char>, Seq<char>>::empty());
        session
    }

    /// The place of `peer` among the connected peers, if it is there.
    fn connected_place(&self, peer: &PeerIdentity) -> (place: Option<usize>)
        ensures
            place matches Some(i) ==> i < self.connected@.len() && self.connected@[i as int]@
                == peer@,
            place is None ==> !lists_peer(self.connected@, peer@),
    {
        let mut i: usize = 0;
        while i < self.connected.len()
            invariant
                i <= self.connected@.len(),
                forall|k: int| 0 <= k < i ==> (#[trigger] self.connected@[k])@ != peer@,
            decreases self.connected@.len() - i,
        {
            if self.connected[i].same_peer(peer) {
                return Some(i);
            }
            i += 1;
        }
        None
    }

    /// The place at which the nickname of `peer` stands, if it has one.
    fn nickname_place(&self, peer: &PeerIdentity) -> (place: Option<usize>)
        ensures
            place matches Some(i) ==> i < self.nicknames@.len() && self.nicknames@[i as int].peer@
                == peer@,
            place is None ==> !names_peer(self.nicknames@, peer@),
    {
        let mut i: usize = 0;
        while i < self.nicknames.len()
            invariant
                i <= self.nicknames@.len(),
                forall|k: int| 0 <= k < i ==> (#[trigger] self.nicknames@[k]).peer@ != peer@,
            decreases self.nicknames@.len() - i,
        {
            if self.nicknames[i].peer.same_peer(peer) {
                return Some(i);
            }
            i += 1;
        }
        None
    }

    /// Whether a connection to `peer` is established.
    pub fn is_connected(&self, peer: &PeerIdentity) -> (connected: bool)
        ensures
            connected == self@.connected.contains(peer@),
    {
        self.connected_place(peer).is_some()
    }

    /// The name under which `peer` is shown.
    pub fn display_name(&self, peer: &PeerIdentity) -> (name: String)
        ensures
            name@ == display_name(self@, peer@),
    {
        proof {
            use_type_invariant(self);
        }
        match self.nickname_place(peer) {
            Some(i) => {
                assert(names_peer(self.nicknames@, peer@));
                self.nicknames[i].nick.clone()
            },
            None => peer.text.clone(),
        }
    }

    /// Records that a connection to `peer` was established: see [`connect`].
    pub fn on_connected(&mut self, peer: PeerIdentity) -> (notice: Option<Notice>)
        ensures
            final(self)@ == connect(old(self)@, peer@).state,
            notice_view(notice) == connect(old(self)@, peer@).notice,
    {
        proof {
            use_type_invariant(&*self);
        }
        if self.connected_place(&peer).is_some() {
            assert(self@.connected.insert(peer@) =~= self@.connected);
            return None;
        }
        let name = self.display_name(&peer);
        let ghost before = self.connected@;
        let mut connected: Vec<PeerIdentity> = Vec::new();
        std::mem::swap(&mut connected, &mut self.connected);
        connected.push(peer);
        proof {
            let after = connected@;
            assert forall|text: Seq<char>| lists_peer(after, text) <==> (lists_peer(before, text)
                || text == peer@) by {
                if lists_peer(before, text) {
                    let i = choose|i: int| 0 <= i < before.len() && (#[trigger] before[i])@ == text;
                    assert(after[i]@ == text);
                }
                if text == peer@ {
                    assert(after[before.len() as int]@ == text);
                }
            }
        }
        self.connected = connected;
        assert(self@.connected =~= old(self)@.connected.insert(peer@));
        Some(Notice::Connected { name })
    }

    /// Records that a connection to `peer` was closed, with
    /// `remaining_established` connections to it left: see [`disconnect`].
    pub fn on_disconnected(&mut self, peer: &PeerIdentity, remaining_established: u32) -> (notice:
        Option<Notice>)
        ensures
            final(self)@ == disconnect(old(self)@, peer@, remaining_established).state,
            notice_view(notice) == disconnect(old(self)@, peer@, remaining_established).notice,
    {
        proof {
            use_type_invariant(&*self);
        }
        if remaining_established != 0 {
            return None;
        }
        match self.connected_place(peer) {
            None => None,
            Some(place) => {
                let name = self.display_name(peer);
                let ghost before = self.connected@;
                let mut connected: Vec<PeerIdentity> = Vec::new();
                std::mem::swap(&mut connected, &mut self.connected);
                let _ = connected.remove(place);
                proof {
                    let after = connected@;
                    assert forall|text: Seq<char>| lists_peer(after, text) <==> (lists_peer(
                        before,
                        text,
                    ) && text != peer@) by {
                        if lists_peer(after, text) {
                            let i = choose|i: int|
                                0 <= i < after.len() && (#[trigger] after[i])@ == text;
                            if i < place {
                                assert(before[i]@ == text);
                            } else {
                                assert(before[i + 1]@ == text);
                            }
                        }
                        if lists_peer(before, text) && text != peer@ {
                            let i = choose|i: int|
                                0 <= i < before.len() && (#[trigger] before[i])@ == text;
                            if i < place {
                                assert(after[i]@ == text);
                            } else {
                                assert(after[i - 1]@ == text);
                            }
                        }
                    }
                    assert forall|i: int, j: int| 0 <= i < j < after.len() implies (
                    #[trigger] after[i])@ != (#[trigger] after[j])@ by {
                        let bi = if i < place { i } else { i + 1 };
                        let bj = if j < place { j } else { j + 1 };
                        assert(before[bi]@ != before[bj]@);
                    }
                }
                self.connected = connected;
                assert(self@.connected =~= old(self)@.connected.remove(peer@));
                Some(Notice::Disconnected { name })
            },
        }
    }

    /// Records that `peer` announced the nickname `nick`: see [`rename`].
    pub fn on_nickname(&mut self, peer: PeerIdentity, nick: String) -> (notice: Option<Notice>)
        ensures
            final(self)@ == rename(old(self)@, peer@, nick@).state,
            notice_view(notice) == rename(old(self)@, peer@, nick@).notice,
    {
        proof {
            use_type_invariant(&*self);
        }
        let old_name = self.display_name(&peer);
        let found = self.nickname_place(&peer);
        let ghost before = self.nicknames@;
        let ghost peer_text = peer@;
        let entry = NicknameEntry { peer, nick: nick.clone() };
        let mut nicknames: Vec<NicknameEntry> = Vec::new();
        std::mem::swap(&mut nicknames, &mut self.nicknames);
        match found {
            Some(place) => {
                nicknames.set(place, entry);
            },
            None => {
                nicknames.push(entry);
            },
        }
        proof {
            let after = nicknames@;
            let at = match found {
                Some(place) => place as int,
                None => before.len() as int,
            };
            assert(after[at].peer@ == peer_text && after[at].nick@ == nick@);
            assert forall|i: int| 0 <= i < after.len() && i != at implies (#[trigger] after[i])
                == before[i] && after[i].peer@ != peer_text by {
                if found is Some {
                    if i < at {
                        assert(before[i].peer@ != before[at].peer@);
                    } else {
                        assert(before[at].peer@ != before[i].peer@);
                    }
                } else {
                    assert(before[i].peer@ != peer_text);
                }
            }
            assert(distinct_entries(after));
            assert forall|text: Seq<char>| names_peer(after, text) <==> (names_peer(before, text)
                || text == peer_text) by {
                if names_peer(before, text) {
                    let i = choose|i: int|
                        0 <= i < before.len() && (#[trigger] before[i]).peer@ == text;
                    assert(after[i].peer@ == text);
                }
                if text == peer_text {
                    assert(after[at].peer@ == text);
                }
            }
            assert forall|text: Seq<char>| names_peer(after, text) implies after[place_of(
                after,
                text,
            )].nick@ == (if text == peer_text {
                nick@
            } else {
                before[place_of(before, text)].nick@
            }) by {
                let a = place_of(after, text);
                if text == peer_text {
                    assert(a == at);
                } else {
                    assert(a != at);
                    assert(after[a] == before[a]);
                    let b = place_of(before, text);
                    assert(before[a].peer@ == text);
                    assert(before[b].peer@ == text);
                    assert(a == b);
                }
            }
        }
        self.nicknames = nicknames;
        assert(self@.nicknames =~= old(self)@.nicknames.insert(peer_text, nick@));
        if old_name == nick {
            None
        } else {
            Some(Notice::Renamed { old_name, new_name: nick })
        }
    }

    /// The notice for a line of chat from `peer`: see [`chat`]. The session
    /// stays as it is.
    pub fn on_message(&self, peer: &PeerIdentity, text: String, origin_timestamp: i64) -> (notice:
        Notice)
        ensures
            notice@ == chat(self@, peer@, text@, origin_timestamp),
    {
        let sender = self.display_name(peer);
        Notice::Chat { origin_timestamp, sender, text }
    }

    /// Takes the session through `event` and returns the notice that the
    /// event is worth: see [`step`].
    pub fn handle_event(&mut self, event: SessionEvent) -> (notice: Option<Notice>)
        ensures
            final(self)@ == step(old(self)@, event@).state,
            notice_view(notice) == step(old(self)@, event@).notice,
    {
        match event {
            SessionEvent::Chat { peer, message } => match message {
                ChatEnvelope::Message { text, origin_timestamp } => Some(
                    self.on_message(&peer, text, origin_timestamp),
                ),
                ChatEnvelope::ChangeNickname { nick } => self.on_nickname(peer, nick),
            },
            SessionEvent::ConnectionEstablished { peer } => self.on_connected(peer),
            SessionEvent::ConnectionClosed { peer, remaining_established } => self.on_disconnected(
                &peer,
                remaining_established,
            ),
        }
    }
}

} // verus!
