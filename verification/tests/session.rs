use smppgc::message::Message;
use smppgc::names::UsernameManager;
use smppgc::ratelimit::{RateLimitConfig, RateLimiter, SpamLimiter};
use smppgc::session::{handshake, inbound_message, on_message, unsupported_frame_close,
    MessageAction};
use smppgc::userid::UserId;
use smppgc::wsprotocol::{CloseCode, KickReason};

fn mesg(content: &str) -> Message {
    Message {
        sender: "alice".to_string(),
        content: content.to_string(),
        timestamp: 1,
        sender_id: 1,
    }
}

fn limiters() -> (RateLimiter, SpamLimiter) {
    let conf = RateLimitConfig {
        min_message_time_hard: 100,
        min_message_time_soft: 500,
        kick_burst: 2000,
    };
    (RateLimiter::new(conf, 0), SpamLimiter::new(0))
}

#[test]
fn rate_limit_kick_on_second_fast_message() {
    // Three messages within 50ms: the second triggers the kick, whose
    // close frame is an error reading "Too many messages.".
    let (mut rl, mut sl) = limiters();
    let a1 = on_message(mesg("one"), &mut rl, &mut sl, 100, 10_000);
    assert!(matches!(a1, MessageAction::Publish(_)));
    let a2 = on_message(mesg("two"), &mut rl, &mut sl, 100, 10_025);
    match a2 {
        MessageAction::Kick(reason) => {
            assert!(matches!(reason, KickReason::RateLimit));
            let frame = reason.into_close_frame();
            assert!(matches!(frame.code, CloseCode::Error));
            assert_eq!(frame.reason, "Too many messages.");
        }
        other => panic!("expected a kick, got {:?}", other),
    }
}

#[test]
fn spam_kick_for_repeated_content() {
    let (mut rl, mut sl) = limiters();
    assert!(matches!(
        on_message(mesg("same"), &mut rl, &mut sl, 100, 10_000),
        MessageAction::Publish(_)
    ));
    let a = on_message(mesg("same"), &mut rl, &mut sl, 100, 11_000);
    match a {
        MessageAction::Kick(reason) => {
            assert!(matches!(reason, KickReason::Spam));
            let frame = reason.into_close_frame();
            assert_eq!(frame.reason, "Please do not spam.");
        }
        other => panic!("expected a spam kick, got {:?}", other),
    }
}

#[test]
fn commands_and_filtering() {
    let (mut rl, mut sl) = limiters();
    let mut now = 10_000i64;
    let mut next = |m: Message, rl: &mut RateLimiter, sl: &mut SpamLimiter| {
        now += 1_000;
        on_message(m, rl, sl, 100, now)
    };
    assert!(matches!(next(mesg("/killme"), &mut rl, &mut sl), MessageAction::EndSession));
    assert!(matches!(next(mesg(" /blockme "), &mut rl, &mut sl), MessageAction::Block));
    assert!(matches!(next(mesg("   "), &mut rl, &mut sl), MessageAction::Ignore));
    assert!(matches!(next(mesg("/killme now"), &mut rl, &mut sl), MessageAction::Publish(_)));
    match next(mesg(" K y S "), &mut rl, &mut sl) {
        MessageAction::Publish(m) => assert_eq!(m.content, "Kiss me pwees"),
        other => panic!("expected a rewrite, got {:?}", other),
    }
}

#[test]
fn handshake_paths() {
    let mut mgr = UsernameManager::new(5);
    let fresh = UserId::new();

    let bad_key = handshake("alice", Some("not-a-key"), fresh, &mut mgr);
    let frame = bad_key.err().expect("bad key refused");
    assert!(matches!(frame.code, CloseCode::Error));
    assert_eq!(frame.reason, "Invalid static user id.");

    let bad_name = handshake("x", None, fresh, &mut mgr);
    assert_eq!(bad_name.err().expect("bad name refused").reason, "Username invalid");

    let (uid, lease) = handshake("alice", None, fresh, &mut mgr).expect("admitted");
    assert_eq!(uid, fresh);
    assert_eq!(lease.as_str(), "alice");

    let other = UserId::new();
    let taken = handshake("Alice", None, other, &mut mgr);
    assert_eq!(taken.err().expect("name taken").reason, "Username taken");

    let key_str = fresh.format();
    let again = handshake("alice", Some(&key_str), UserId::new(), &mut mgr).expect("reclaim");
    assert_eq!(again.0, fresh);
}

#[test]
fn inbound_message_assembly() {
    let payload = b"hello".to_vec();
    let m = inbound_message(&payload, "alice", 3, 120);
    assert_eq!(m.sender, "alice");
    assert_eq!(m.sender_id, 3);
    assert_eq!(m.timestamp, 2);
    assert_eq!(m.content, "hello");

    let broken = vec![0xFF, 0x68, 0x69];
    let m2 = inbound_message(&broken, "alice", 3, 120);
    assert_eq!(m2.content, "\u{FFFD}hi");
}

#[test]
fn unsupported_frame_text() {
    let frame = unsupported_frame_close();
    assert!(matches!(frame.code, CloseCode::Unsupported));
    assert_eq!(frame.reason, "No non-text messages.");
}
