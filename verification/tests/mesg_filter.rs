use smppgc::mesg_filter::{filter, parse_cmd, Cmd, FilterResult};
use smppgc::message::Message;

fn mesg(content: &str) -> Message {
    Message {
        sender: "alice".to_string(),
        content: content.to_string(),
        timestamp: 7,
        sender_id: 3,
    }
}

#[test]
fn parse_cmd_exact_match_only() {
    assert!(matches!(parse_cmd("/killme"), Some(Cmd::KillMe)));
    assert!(matches!(parse_cmd("/blockme"), Some(Cmd::BlockMe)));
    assert!(parse_cmd("/killme ").is_none());
    assert!(parse_cmd("/killmenow").is_none());
    assert!(parse_cmd("killme").is_none());
    assert!(parse_cmd("").is_none());
}

#[test]
fn filter_passes_ordinary_message_unchanged() {
    match filter(mesg("hello there"), 100) {
        FilterResult::Message(m) => {
            assert_eq!(m.content, "hello there");
            assert_eq!(m.sender, "alice");
            assert_eq!(m.sender_id, 3);
            assert_eq!(m.timestamp, 7);
        }
        _ => panic!("expected the message to pass"),
    }
}

#[test]
fn filter_rejects_invalid_content() {
    assert!(matches!(filter(mesg(""), 100), FilterResult::Invalid));
    assert!(matches!(filter(mesg(" \t\n"), 100), FilterResult::Invalid));
    assert!(matches!(filter(mesg("morethanten"), 10), FilterResult::Invalid));
}

#[test]
fn filter_recognizes_commands_after_trim() {
    assert!(matches!(filter(mesg("  /killme  "), 100), FilterResult::Cmd(Cmd::KillMe)));
    assert!(matches!(filter(mesg("/blockme"), 100), FilterResult::Cmd(Cmd::BlockMe)));
    assert!(matches!(filter(mesg("/killme please"), 100), FilterResult::Message(_)));
}

#[test]
fn filter_rewrites_kys() {
    for text in ["kys", " KYS ", "k y s", "K\ty S"] {
        match filter(mesg(text), 100) {
            FilterResult::Message(m) => assert_eq!(m.content, "Kiss me pwees"),
            _ => panic!("expected a rewrite for {:?}", text),
        }
    }
    match filter(mesg("kyss"), 100) {
        FilterResult::Message(m) => assert_eq!(m.content, "kyss"),
        _ => panic!("expected kyss to pass unchanged"),
    }
}

#[test]
fn message_validity() {
    assert!(mesg("hi").is_valid(100));
    assert!(!mesg("hi").is_valid(1));
    assert!(!mesg("  ").is_valid(100));
    assert!(mesg("  ").is_empty());
    assert!(!mesg("x").is_empty());
}
