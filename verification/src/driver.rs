//! The decisions of the driving loop.
//!
//! The loop waits for a line of local input, a tick of the announcement
//! timer, an interrupt, or an event of the network, and handles one of them
//! at a time. What it does on the first three is decided here; what it does
//! on an event of the network is decided by the aggregator and the session.

use vstd::prelude::*;
use crate::codec::{encode, encoding, fits};
use crate::envelope::{ChatEnvelope, EnvelopeView};

verus! {

/// The seconds between two announcements of the local nickname.
pub const ANNOUNCE_INTERVAL_SECONDS: u64 = 10;

/// Announces the local nickname again and again, so that a peer that joins
/// late learns it too. The announcement is encoded once.
pub struct Announcer {
    payload: Vec<u8>,
}

impl View for Announcer {
    type V = Seq<u8>;

    closed spec fn view(&self) -> Seq<u8> {
        self.payload@
    }
}

impl Announcer {
    /// The announcer of the nickname `nick`: its view is the encoding of the
    /// envelope that changes the nickname to `nick`.
    pub fn new(nick: &str) -> (announcer: Self)
        ensures
            fits(nick@),
            announcer@ == encoding(EnvelopeView::ChangeNickname { nick: nick@ }),
    {
        let envelope = ChatEnvelope::ChangeNickname { nick: nick.to_owned() };
        Announcer { payload: encode(&envelope) }
    }

    /// The payload to publish at each tick.
    pub fn announcement(&self) -> (payload: Vec<u8>)
        ensures
            payload@ == self@,
    {
        self.payload.clone()
    }
}

/// What the loop woke up for, the network apart.
#[derive(Debug, PartialEq, Eq)]
pub enum LoopEvent {
    /// A line of local input was read at the moment `sent_at`, counted in
    /// milliseconds from the Unix epoch.
    InputLine { line: String, sent_at: i64 },
    /// The local input is at its end.
    InputClosed,
    /// The announcement timer ticked.
    Tick,
    /// The user interrupted the node.
    Interrupt,
}

/// What a [`LoopEvent`] holds, as mathematical values.
pub enum LoopEventView {
    InputLine { line: Seq<char>, sent_at: i64 },
    InputClosed,
    Tick,
    Interrupt,
}

impl View for LoopEvent {
    type V = LoopEventView;

    open spec fn view(&self) -> LoopEventView {
        match *self {
            LoopEvent::InputLine { line, sent_at } => LoopEventView::InputLine {
                line: line@,
                sent_at,
            },
            LoopEvent::InputClosed => LoopEventView::InputClosed,
            LoopEvent::Tick => LoopEventView::Tick,
            LoopEvent::Interrupt => LoopEventView::Interrupt,
        }
    }
}

/// What the loop does next.
#[derive(Debug, PartialEq, Eq)]
pub enum LoopAction {
    /// It publishes `payload` on the channel.
    Publish { payload: Vec<u8> },
    /// It goes back to waiting.
    Wait,
    /// It ends, without an error.
    Stop,
}

/// What a [`LoopAction`] holds, as mathematical values.
pub enum LoopActionView {
    Publish { payload: Seq<u8> },
    Wait,
    Stop,
}

impl View for LoopAction {
    type V = LoopActionView;

    open spec fn view(&self) -> LoopActionView {
        match *self {
            LoopAction::Publish { payload } => LoopActionView::Publish { payload: payload@ },
            LoopAction::Wait => LoopActionView::Wait,
            LoopAction::Stop => LoopActionView::Stop,
        }
    }
}

/// The action that follows `event` while `announcement` is the payload of
/// the announcer.
///
/// A line that is not empty is published as a chat message that carries the
/// moment it was read; an empty line is passed over. A tick publishes the
/// announcement. The end of the input and an interrupt end the loop.
pub open spec fn action_for(event: LoopEventView, announcement: Seq<u8>) -> LoopActionView {
    match event {
        LoopEventView::InputLine { line, sent_at } => {
            if line.len() == 0 {
                LoopActionView::Wait
            } else {
                LoopActionView::Publish {
                    payload: encoding(
                        EnvelopeView::Message { text: line, origin_timestamp: sent_at },
                    ),
                }
            }
        },
        LoopEventView::Tick => LoopActionView::Publish { payload: announcement },
        LoopEventView::InputClosed => LoopActionView::Stop,
        LoopEventView::Interrupt => LoopActionView::Stop,
    }
}

/// Decides what the loop does on `event`: see [`action_for`].
pub fn next_action(event: LoopEvent, announcer: &Announcer) -> (action: LoopAction)
    ensures
        action@ == action_for(event@, announcer@),
{
    match event {
        LoopEvent::InputLine { line, sent_at } => {
            if line.as_str().is_empty() {
                LoopAction::Wait
            } else {
                let envelope = ChatEnvelope::Message { text: line, origin_timestamp: sent_at };
                LoopAction::Publish { payload: encode(&envelope) }
            }
        },
        LoopEvent::Tick => LoopAction::Publish { payload: announcer.announcement() },
        LoopEvent::InputClosed => LoopAction::Stop,
        LoopEvent::Interrupt => LoopAction::Stop,
    }
}

} // verus!
