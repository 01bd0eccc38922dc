use peerchat::codec::{decode, encode};
use peerchat::driver::{next_action, Announcer, LoopAction, LoopEvent, ANNOUNCE_INTERVAL_SECONDS};
use peerchat::envelope::ChatEnvelope;
use peerchat::publish::{publish_outcome, PublishOutcome, PublishReport};

#[test]
fn the_nickname_is_announced_every_ten_seconds() {
    assert_eq!(ANNOUNCE_INTERVAL_SECONDS, 10);
}

#[test]
fn the_announcement_is_the_encoded_nickname() {
    let announcer = Announcer::new("alice");
    assert_eq!(
        announcer.announcement(),
        encode(&ChatEnvelope::ChangeNickname { nick: "alice".to_string() })
    );
    assert_eq!(
        decode(&announcer.announcement()),
        Ok(ChatEnvelope::ChangeNickname { nick: "alice".to_string() })
    );
}

#[test]
fn a_tick_publishes_the_announcement() {
    let announcer = Announcer::new("alice");
    assert_eq!(
        next_action(LoopEvent::Tick, &announcer),
        LoopAction::Publish { payload: announcer.announcement() }
    );
}

#[test]
fn a_line_is_published_with_the_moment_it_was_read() {
    let announcer = Announcer::new("alice");
    let action = next_action(
        LoopEvent::InputLine { line: "hello".to_string(), sent_at: 1_700_000_000_000 },
        &announcer,
    );
    let expected = encode(
        &ChatEnvelope::Message { text: "hello".to_string(), origin_timestamp: 1_700_000_000_000 },
    );
    assert_eq!(action, LoopAction::Publish { payload: expected });
}

#[test]
fn an_empty_line_is_passed_over() {
    let announcer = Announcer::new("alice");
    assert_eq!(
        next_action(LoopEvent::InputLine { line: String::new(), sent_at: 1 }, &announcer),
        LoopAction::Wait
    );
}

#[test]
fn a_blank_line_is_published() {
    let announcer = Announcer::new("alice");
    assert_eq!(
        next_action(LoopEvent::InputLine { line: " ".to_string(), sent_at: 1 }, &announcer),
        LoopAction::Publish {
            payload: encode(&ChatEnvelope::Message { text: " ".to_string(), origin_timestamp: 1 }),
        }
    );
}

#[test]
fn the_end_of_input_and_an_interrupt_stop_the_loop() {
    let announcer = Announcer::new("alice");
    assert_eq!(next_action(LoopEvent::InputClosed, &announcer), LoopAction::Stop);
    assert_eq!(next_action(LoopEvent::Interrupt, &announcer), LoopAction::Stop);
}

#[test]
fn publishing_without_peers_is_told_and_survived() {
    assert_eq!(
        publish_outcome(PublishReport::InsufficientPeers),
        PublishOutcome::NoPeers { text: "No peers available".to_string() }
    );
}

#[test]
fn an_accepted_publish_needs_nothing() {
    assert_eq!(publish_outcome(PublishReport::Accepted), PublishOutcome::Sent);
}

#[test]
fn any_other_refusal_fails() {
    assert_eq!(
        publish_outcome(PublishReport::Rejected { reason: "message too large".to_string() }),
        PublishOutcome::Failed { reason: "message too large".to_string() }
    );
}
