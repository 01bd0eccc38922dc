//! The two kinds of application message that peers exchange.

use vstd::prelude::*;

verus! {

/// One application message: a line of chat, or the announcement of the
/// sender's nickname.
#[derive(Debug, PartialEq, Eq)]
pub enum ChatEnvelope {
    /// A line of chat. `origin_timestamp` counts the milliseconds from the
    /// Unix epoch to the moment the sender sent it, by the sender's clock.
    Message { text: String, origin_timestamp: i64 },
    /// The sender wants to be shown under the name `nick` from now on.
    ChangeNickname { nick: String },
}

/// What a [`ChatEnvelope`] holds, as mathematical values.
pub enum EnvelopeView {
    Message { text: Seq<char>, origin_timestamp: i64 },
    ChangeNickname { nick: Seq<char> },
}

impl View for ChatEnvelope {
    type V = EnvelopeView;

    open spec fn view(&self) -> EnvelopeView {
        match *self {
            ChatEnvelope::Message { text, origin_timestamp } => EnvelopeView::Message {
                text: text@,
                origin_timestamp,
            },
            ChatEnvelope::ChangeNickname { nick } => EnvelopeView::ChangeNickname { nick: nick@ },
        }
    }
}

impl Clone for ChatEnvelope {
    fn clone(&self) -> (copy: Self)
        ensures
            copy == *self,
    {
        match self {
            ChatEnvelope::Message { text, origin_timestamp } => ChatEnvelope::Message {
                text: text.clone(),
                origin_timestamp: *origin_timestamp,
            },
            ChatEnvelope::ChangeNickname { nick } => ChatEnvelope::ChangeNickname {
                nick: nick.clone(),
            },
        }
    }
}

} // verus!
