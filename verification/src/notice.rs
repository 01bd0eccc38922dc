//! The notices that the session shows to the local user, and their text.

use vstd::prelude::*;
use vstd::string::StringExecFns;
use crate::timestamp::{format_utc_millis, utc_timestamp_text};

verus! {

/// Something the local user is told: a line of chat, or a change in who is
/// present and under which name.
#[derive(Debug, PartialEq, Eq)]
pub enum Notice {
    /// A peer shown as `sender` said `text` at `origin_timestamp`.
    Chat { origin_timestamp: i64, sender: String, text: String },
    /// The peer shown as `old_name` so far is shown as `new_name` from now on.
    Renamed { old_name: String, new_name: String },
    /// The first connection to the peer shown as `name` was established.
    Connected { name: String },
    /// The last connection to the peer shown as `name` was closed.
    Disconnected { name: String },
}

/// What a [`Notice`] holds, as mathematical values.
pub enum NoticeView {
    Chat { origin_timestamp: i64, sender: Seq<char>, text: Seq<char> },
    Renamed { old_name: Seq<char>, new_name: Seq<char> },
    Connected { name: Seq<char> },
    Disconnected { name: Seq<char> },
}

impl View for Notice {
    type V = NoticeView;

    open spec fn view(&self) -> NoticeView {
        match *self {
            Notice::Chat { origin_timestamp, sender, text } => NoticeView::Chat {
                origin_timestamp,
                sender: sender@,
                text: text@,
            },
            Notice::Renamed { old_name, new_name } => NoticeView::Renamed {
                old_name: old_name@,
                new_name: new_name@,
            },
            Notice::Connected { name } => NoticeView::Connected { name: name@ },
            Notice::Disconnected { name } => NoticeView::Disconnected { name: name@ },
        }
    }
}

/// The clock by which a notice is stamped.
#[derive(Debug, PartialEq, Eq, Clone, Copy)]
pub enum Stamp {
    /// The sender's clock: the notice brings its time along.
    Origin,
    /// The reader's clock, in UTC.
    NowUtc,
    /// The reader's clock, in the reader's time zone.
    NowLocal,
}

/// The clock by which `notice` is stamped: a line of chat by the sender's,
/// a change of name by the reader's in UTC, and presence by the reader's in
/// local time.
pub open spec fn stamp_of(notice: NoticeView) -> Stamp {
    match notice {
        NoticeView::Chat { .. } => Stamp::Origin,
        NoticeView::Renamed { .. } => Stamp::NowUtc,
        NoticeView::Connected { .. } => Stamp::NowLocal,
        NoticeView::Disconnected { .. } => Stamp::NowLocal,
    }
}

/// The view of a notice that may be absent.
pub open spec fn notice_view(notice: Option<Notice>) -> Option<NoticeView> {
    match notice {
        Some(n) => Some(n@),
        None => None,
    }
}

/// The line shown for `notice` when it carries the time stamp `stamp`.
pub open spec fn line_text(notice: NoticeView, stamp: Seq<char>) -> Seq<char> {
    match notice {
        NoticeView::Chat { origin_timestamp, sender, text } => stamp + " "@ + sender + ": "@ + text,
        NoticeView::Renamed { old_name, new_name } => stamp + " "@ + old_name
            + " changed his name to "@ + new_name + "."@,
        NoticeView::Connected { name } => stamp + " "@ + name + " connected."@,
        NoticeView::Disconnected { name } => stamp + " "@ + name + " disconnected."@,
    }
}

/// The line shown for `notice` at the moment whose text is `now`. A line of
/// chat carries the sender's time stamp, in UTC, and is not shown at all where
/// that stamp lies outside the calendar; every other notice carries `now`,
/// which the reader takes from the clock that [`stamp_of`] names.
pub open spec fn rendered_text(notice: NoticeView, now: Seq<char>) -> Option<Seq<char>> {
    match notice {
        NoticeView::Chat { origin_timestamp, sender, text } => match utc_timestamp_text(
            origin_timestamp,
        ) {
            Some(stamp) => Some(line_text(notice, stamp)),
            None => None,
        },
        _ => Some(line_text(notice, now)),
    }
}

impl Notice {
    /// The clock by which this notice is stamped: see [`stamp_of`].
    pub fn stamp(&self) -> (stamp: Stamp)
        ensures
            stamp == stamp_of(self@),
    {
        match self {
            Notice::Chat { .. } => Stamp::Origin,
            Notice::Renamed { .. } => Stamp::NowUtc,
            Notice::Connected { .. } => Stamp::NowLocal,
            Notice::Disconnected { .. } => Stamp::NowLocal,
        }
    }

    /// The line for this notice with `stamp` in front.
    pub fn line(&self, stamp: &str) -> (line: String)
        ensures
            line@ == line_text(self@, stamp@),
    {
        let mut line = String::from_str(stamp);
        line.append(" ");
        match self {
            Notice::Chat { origin_timestamp: _, sender, text } => {
                line.append(sender.as_str());
                line.append(": ");
                line.append(text.as_str());
            },
            Notice::Renamed { old_name, new_name } => {
                line.append(old_name.as_str());
                line.append(" changed his name to ");
                line.append(new_name.as_str());
                line.append(".");
            },
            Notice::Connected { name } => {
                line.append(name.as_str());
                line.append(" connected.");
            },
            Notice::Disconnected { name } => {
                line.append(name.as_str());
                line.append(" disconnected.");
            },
        }
        line
    }

    /// The line to show for this notice, where `now` is the text of the
    /// current moment: see [`rendered_text`].
    pub fn render(&self, now: &str) -> (line: Option<String>)
        ensures
            line is Some <==> rendered_text(self@, now@) is Some,
            line matches Some(l) ==> rendered_text(self@, now@) == Some(l@),
    {
        match self {
            Notice::Chat { origin_timestamp, sender: _, text: _ } => {
                match format_utc_millis(*origin_timestamp) {
                    Some(stamp) => Some(self.line(stamp.as_str())),
                    None => None,
                }
            },
            _ => Some(self.line(now)),
        }
    }
}

} // verus!
