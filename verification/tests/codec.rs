use smppgc::message::Message;
use smppgc::userid::UserId;
use smppgc::userinfo::UserInfo;
use smppgc::wsprotocol::{decode_setup, new_client_joined, new_message, new_setup};

fn mesg(sender: &str, content: &str, timestamp: u32, sender_id: u16) -> Message {
    Message {
        sender: sender.to_string(),
        content: content.to_string(),
        timestamp,
        sender_id,
    }
}

#[test]
fn message_frame_exact_bytes() {
    let m = mesg("bob", "hi", 1000, 7);
    let frame = new_message(&m);
    assert_eq!(frame, vec![0x00, 0x07, 0x00, 0x00, 0x03, 0xE8, 0x68, 0x69]);
}

#[test]
fn join_frame_exact_bytes() {
    let c = UserInfo { username: "bob".to_string(), id: 2 };
    let frame = new_client_joined(&c);
    assert_eq!(frame, vec![0x00, 0x00, 0x01, 0x00, 0x02, b'b', b'o', b'b']);
}

#[test]
fn setup_roundtrip_empty() {
    let key = UserId::parse_str("a0123456789abcdef0123456789abcdef").unwrap();
    let frame = new_setup(key, 42, vec![], vec![]);
    let (uid, sid, clients, history) = decode_setup(&frame).expect("frame decodes");
    assert_eq!(uid, key);
    assert_eq!(sid, 42);
    assert!(clients.is_empty());
    assert!(history.is_empty());
}

#[test]
fn setup_roundtrip_with_contents() {
    let key = UserId::new();
    let clients = vec![
        UserInfo { username: "alice".to_string(), id: 1 },
        UserInfo { username: "bob".to_string(), id: 2 },
    ];
    let history = vec![mesg("alice", "hello there", 123456, 1)];
    let frame = new_setup(key, 3, clients, history);
    let (uid, sid, dec_clients, dec_history) = decode_setup(&frame).expect("frame decodes");
    assert_eq!(uid, key);
    assert_eq!(sid, 3);
    assert_eq!(dec_clients.len(), 2);
    assert_eq!(dec_clients[0].0, 1);
    assert_eq!(dec_clients[0].1, b"alice".to_vec());
    assert_eq!(dec_clients[1].0, 2);
    assert_eq!(dec_clients[1].1, b"bob".to_vec());
    assert_eq!(dec_history.len(), 1);
    assert_eq!(dec_history[0].0, 123456);
    assert_eq!(dec_history[0].1, b"alice".to_vec());
    assert_eq!(dec_history[0].2, b"hello there".to_vec());
}

#[test]
fn setup_header_layout() {
    let key = UserId::parse_str("l0123456789abcdef0123456789abcdef").unwrap();
    let frame = new_setup(key, 0x0102, vec![], vec![]);
    assert_eq!(frame.len(), 40);
    assert_eq!(&frame[0..3], &[0x00, 0x00, 0x00]);
    assert_eq!(&frame[3..5], &[0x01, 0x02]);
    assert_eq!(&frame[5..38], "l0123456789abcdef0123456789abcdef".as_bytes());
    assert_eq!(&frame[38..40], &[0x00, 0x00]);
}

#[test]
fn decode_rejects_garbage() {
    assert!(decode_setup(&vec![0u8; 10]).is_none());
    assert!(decode_setup(&vec![0xFFu8; 40]).is_none());
}
