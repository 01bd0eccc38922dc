use peerchat::notice::{Notice, Stamp};

fn chat(origin_timestamp: i64, sender: &str, text: &str) -> Notice {
    Notice::Chat { origin_timestamp, sender: sender.to_string(), text: text.to_string() }
}

#[test]
fn a_chat_line_reads_stamp_name_colon_text() {
    let notice = chat(0, "alice", "hello there");
    assert_eq!(notice.line("12:00"), "12:00 alice: hello there");
}

#[test]
fn a_rename_line_names_both_names() {
    let notice = Notice::Renamed { old_name: "alice".to_string(), new_name: "alicia".to_string() };
    assert_eq!(notice.line("12:00"), "12:00 alice changed his name to alicia.");
}

#[test]
fn presence_lines_name_the_peer() {
    let notice = Notice::Connected { name: "alice".to_string() };
    assert_eq!(notice.line("12:00"), "12:00 alice connected.");
    let notice = Notice::Disconnected { name: "alice".to_string() };
    assert_eq!(notice.line("12:00"), "12:00 alice disconnected.");
}

#[test]
fn text_is_shown_verbatim() {
    let notice = chat(0, "a: b", " two  spaces: and colons ");
    assert_eq!(notice.line(""), " a: b:  two  spaces: and colons ");
}

#[test]
fn a_chat_line_carries_the_senders_time_in_utc() {
    let notice = chat(1_700_000_000_000, "alice", "hello");
    assert_eq!(
        notice.render("ignored"),
        Some("2023-11-14 22:13:20 UTC alice: hello".to_string())
    );
}

#[test]
fn milliseconds_are_shown_where_they_are_not_zero() {
    assert_eq!(
        chat(947_638_923_004, "a", "b").render(""),
        Some("2000-01-12 01:02:03.004 UTC a: b".to_string())
    );
    assert_eq!(chat(0, "a", "b").render(""), Some("1970-01-01 00:00:00 UTC a: b".to_string()));
    assert_eq!(chat(-1, "a", "b").render(""), Some("1969-12-31 23:59:59.999 UTC a: b".to_string()));
}

#[test]
fn a_chat_line_beyond_the_calendar_is_not_shown() {
    assert_eq!(chat(i64::MAX, "alice", "hello").render("now"), None);
    assert_eq!(chat(i64::MIN, "alice", "hello").render("now"), None);
}

#[test]
fn other_notices_carry_the_time_of_the_reader() {
    let notice = Notice::Connected { name: "alice".to_string() };
    assert_eq!(notice.render("2023-11-14 23:13:20 +01:00"), Some(
        "2023-11-14 23:13:20 +01:00 alice connected.".to_string()
    ));
    let notice = Notice::Disconnected { name: "alice".to_string() };
    assert_eq!(notice.render("now"), Some("now alice disconnected.".to_string()));
    let notice = Notice::Renamed { old_name: "a".to_string(), new_name: "b".to_string() };
    assert_eq!(notice.render("now"), Some("now a changed his name to b.".to_string()));
}

#[test]
fn each_notice_names_its_clock() {
    assert_eq!(chat(0, "a", "b").stamp(), Stamp::Origin);
    let renamed = Notice::Renamed { old_name: "a".to_string(), new_name: "b".to_string() };
    assert_eq!(renamed.stamp(), Stamp::NowUtc);
    assert_eq!(Notice::Connected { name: "a".to_string() }.stamp(), Stamp::NowLocal);
    assert_eq!(Notice::Disconnected { name: "a".to_string() }.stamp(), Stamp::NowLocal);
}
