use smppgc::hub::{Chat, ChatConfig, NewClientError};
use smppgc::message::Message;
use smppgc::names::UsernameManager;
use smppgc::userid::UserId;
use smppgc::wsprotocol::{decode_setup, new_setup};

fn mesg(sender: &str, content: &str, timestamp: u32, sender_id: u16) -> Message {
    Message {
        sender: sender.to_string(),
        content: content.to_string(),
        timestamp,
        sender_id,
    }
}

#[test]
fn solo_join() {
    // One client joins an empty chat: session id 1, anonymous key, no
    // roster and no history in the setup frame.
    let mut chat = Chat::new(ChatConfig { max_stored_messages: 5, max_users: 10 });
    let mut mgr = UsernameManager::new(5);
    let key = UserId::new();
    let lease = mgr.claim_name("alice", key).expect("claim");
    let roster = chat.clients();
    let history = chat.history();
    let client = chat.new_client(lease).expect("admitted");
    assert_eq!(client.user_info().id, 1);
    assert_eq!(client.user_info().username, "alice");
    assert_eq!(chat.joined_total(), 1);

    let frame = new_setup(key, client.user_info().id, roster, history);
    let (uid, sid, clients, history) = decode_setup(&frame).expect("frame decodes");
    assert!(uid.format().starts_with('a'));
    assert_eq!(sid, 1);
    assert!(clients.is_empty());
    assert!(history.is_empty());
}

#[test]
fn two_way_exchange() {
    // alice then bob join; bob's setup lists alice; a message from bob
    // lands in the history.
    let mut chat = Chat::new(ChatConfig { max_stored_messages: 5, max_users: 10 });
    let mut mgr = UsernameManager::new(5);
    let alice = chat
        .new_client(mgr.claim_name("alice", UserId::new()).unwrap())
        .expect("alice admitted");
    assert_eq!(alice.user_info().id, 1);
    let roster_before_bob = chat.clients();
    let bob = chat
        .new_client(mgr.claim_name("bob", UserId::new()).unwrap())
        .expect("bob admitted");
    assert_eq!(bob.user_info().id, 2);
    assert_eq!(roster_before_bob.len(), 1);
    assert_eq!(roster_before_bob[0].username, "alice");

    chat.handle_message(mesg("bob", "hi", 1000, 2));
    let history = chat.history();
    assert_eq!(history.len(), 1);
    assert_eq!(history[0].sender, "bob");
    assert_eq!(history[0].content, "hi");
    assert_eq!(chat.messages_total(), 1);
}

#[test]
fn full_chat_rejects_second_client() {
    let mut chat = Chat::new(ChatConfig { max_stored_messages: 5, max_users: 1 });
    let mut mgr = UsernameManager::new(5);
    let _first = chat
        .new_client(mgr.claim_name("alice", UserId::new()).unwrap())
        .expect("first admitted");
    let second = chat.new_client(mgr.claim_name("bob", UserId::new()).unwrap());
    assert!(matches!(second, Err(NewClientError::MaxConcurrentUserCount)));
}

#[test]
fn leave_event_emitted_exactly_once() {
    let mut chat = Chat::new(ChatConfig { max_stored_messages: 5, max_users: 0 });
    let mut mgr = UsernameManager::new(5);
    let mut client = chat
        .new_client(mgr.claim_name("alice", UserId::new()).unwrap())
        .expect("admitted");
    let left = client.close().expect("first close yields the leave event");
    assert_eq!(left.id, client.user_info().id);
    assert!(client.close().is_none());
    chat.handle_left(&left);
    assert!(chat.clients().is_empty());
    assert_eq!(chat.left_total(), 1);
}

#[test]
fn history_ring_evicts_oldest() {
    let mut chat = Chat::new(ChatConfig { max_stored_messages: 2, max_users: 0 });
    chat.handle_message(mesg("a", "one", 1, 1));
    chat.handle_message(mesg("a", "two", 2, 1));
    chat.handle_message(mesg("a", "three", 3, 1));
    let history = chat.history();
    assert_eq!(history.len(), 2);
    assert_eq!(history[0].content, "two");
    assert_eq!(history[1].content, "three");
}
