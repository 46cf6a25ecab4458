use localshare::chat::{
    chat_history_key, chat_send_reply, chat_url, delivery_targets, handle_incoming_chat_message,
    mark_messages_as_read, new_outgoing_message, peer_not_found, record_incoming_with_color,
    record_outgoing, record_outgoing_with_color, Delivery,
};
use localshare::common::{ChatHistory, ChatMessage, ChatSessions, Message, Timestamp};
use localshare::net::{SocketAddress, V4Octets};
use std::collections::VecDeque;

fn msg(id: &str, from: &str, to: &str) -> ChatMessage {
    ChatMessage {
        id: id.to_string(),
        sender_fingerprint: from.to_string(),
        sender_alias: format!("{}-alias", from),
        receiver_fingerprint: to.to_string(),
        content: format!("hello {}", id),
        timestamp: Timestamp { secs: 1_700_000_000, nanos: 5 },
        read: true,
    }
}

fn me() -> Message {
    Message {
        alias: "abcdef".to_string(),
        version: "2.1".to_string(),
        device_model: Some("localshare".to_string()),
        device_type: None,
        fingerprint: "abcdef0123".to_string(),
        port: 53317,
        protocol: "http".to_string(),
        download: Some(true),
        announce: None,
    }
}

#[test]
fn incoming_messages_count_unread_and_are_stored_unread() {
    let mut h = ChatHistory::new();
    let mut s = ChatSessions::new();
    assert_eq!(handle_incoming_chat_message(&mut h, &mut s, msg("1", "peer", "me")), Ok("Message received".to_string()));
    record_incoming_with_color(&mut h, &mut s, msg("2", "peer", "me"), "#ffffff".to_string());
    assert_eq!(h.messages.len(), 2);
    assert!(!h.messages[0].read && !h.messages[1].read);
    let sess = s.sessions.get(&"peer".to_string()).unwrap();
    assert_eq!(sess.unread_count, 2);
    assert_eq!(sess.peer_alias, "peer-alias");
    assert_eq!(sess.last_message.as_ref().unwrap().id, "2");
    assert!(sess.color.starts_with('#') && sess.color.len() == 7);
}

#[test]
fn a_new_chat_gets_the_given_color() {
    let mut h = ChatHistory::new();
    let mut s = ChatSessions::new();
    record_incoming_with_color(&mut h, &mut s, msg("1", "p", "me"), "#b4c8f0".to_string());
    let sess = s.sessions.get(&"p".to_string()).unwrap();
    assert_eq!(sess.color, "#b4c8f0");
    assert_eq!(sess.unread_count, 1);
}

#[test]
fn marking_read_clears_the_counter_and_flags() {
    let mut h = ChatHistory::new();
    let mut s = ChatSessions::new();
    handle_incoming_chat_message(&mut h, &mut s, msg("1", "peer", "me"));
    handle_incoming_chat_message(&mut h, &mut s, msg("2", "other", "me"));
    let mut oh = Some(h);
    let mut os = Some(s);
    assert_eq!(mark_messages_as_read(&mut oh, &mut os, &"peer".to_string()), Ok("Messages marked as read".to_string()));
    let h = oh.unwrap();
    let s = os.unwrap();
    assert!(h.messages[0].read);
    assert!(!h.messages[1].read);
    assert_eq!(s.sessions.get(&"peer".to_string()).unwrap().unread_count, 0);
    assert_eq!(s.sessions.get(&"other".to_string()).unwrap().unread_count, 1);
    let mut none_h: Option<ChatHistory> = None;
    let mut none_s: Option<ChatSessions> = None;
    assert_eq!(mark_messages_as_read(&mut none_h, &mut none_s, &"peer".to_string()), Ok("Messages marked as read".to_string()));
    assert!(none_h.is_none() && none_s.is_none());
}

#[test]
fn sent_messages_are_read_and_keep_the_counter() {
    let mut h = ChatHistory::new();
    let mut s = ChatSessions::new();
    handle_incoming_chat_message(&mut h, &mut s, msg("1", "peer", "me"));
    let m = new_outgoing_message("2".to_string(), &me(), "peer".to_string(), "hi".to_string(), Timestamp { secs: 3, nanos: 0 });
    assert!(m.read);
    assert_eq!(m.sender_fingerprint, "abcdef0123");
    assert_eq!(m.sender_alias, "abcdef");
    record_outgoing(&mut h, &mut s, &"peer".to_string(), "Peer".to_string(), m);
    let sess = s.sessions.get(&"peer".to_string()).unwrap();
    assert_eq!(sess.unread_count, 1);
    assert_eq!(sess.peer_alias, "peer-alias");
    assert_eq!(sess.last_message.as_ref().unwrap().content, "hi");
    let m2 = new_outgoing_message("3".to_string(), &me(), "new".to_string(), "yo".to_string(), Timestamp { secs: 4, nanos: 0 });
    record_outgoing_with_color(&mut h, &mut s, &"new".to_string(), "New".to_string(), m2, "#c0c0c0".to_string());
    let sess = s.sessions.get(&"new".to_string()).unwrap();
    assert_eq!((sess.unread_count, sess.peer_alias.as_str(), sess.color.as_str()), (0, "New", "#c0c0c0"));
    assert_eq!(h.messages.len(), 3);
}

#[test]
fn delivery_tries_the_localsend_port_first_then_each_address_until_one_takes_it() {
    let a = SocketAddress::V4 { ip: V4Octets(192, 168, 1, 7), port: 40000 };
    let b = SocketAddress::V4 { ip: V4Octets(10, 0, 0, 2), port: 41000 };
    let addrs: VecDeque<SocketAddress> = vec![a, b].into();
    let targets = delivery_targets(&addrs);
    assert_eq!(targets, vec![SocketAddress::V4 { ip: V4Octets(192, 168, 1, 7), port: 53317 }, a, b]);
    let mut d = Delivery::start(&addrs);
    assert_eq!(d.next_target(), Some(targets[0]));
    assert_eq!(d.next_target(), Some(a));
    d.mark_delivered();
    assert_eq!(d.next_target(), None);
    assert!(d.delivered());
    let mut d = Delivery::start(&addrs);
    while d.next_target().is_some() {}
    assert!(!d.delivered());
    assert_eq!(chat_send_reply(true), Ok("Message sent successfully".to_string()));
    assert_eq!(chat_send_reply(false), Err("Failed to send message to peer".to_string()));
}

#[test]
fn chat_texts() {
    let a = SocketAddress::V4 { ip: V4Octets(192, 168, 1, 7), port: 53317 };
    assert_eq!(chat_url("https", &a), "https://192.168.1.7:53317/api/localsend/v2/chat");
    assert_eq!(chat_history_key("abc"), "history_abc");
    assert_eq!(peer_not_found("abc"), "peer abc not found in peers store");
}

fn unread_from(h: &ChatHistory, fp: &str) -> u32 {
    h.messages.iter().filter(|m| m.sender_fingerprint == fp && !m.read).count() as u32
}

fn counter(s: &ChatSessions, fp: &str) -> u32 {
    s.sessions.get(&fp.to_string()).map(|x| x.unread_count).unwrap_or(0)
}

#[test]
fn the_unread_counter_counts_unread_messages_through_every_operation() {
    let mut h = ChatHistory::new();
    let mut s = ChatSessions::new();
    assert_eq!(counter(&s, "peer"), unread_from(&h, "peer"));
    handle_incoming_chat_message(&mut h, &mut s, msg("1", "peer", "me")).unwrap();
    assert_eq!(counter(&s, "peer"), unread_from(&h, "peer"));
    let out = new_outgoing_message("2".to_string(), &me(), "peer".to_string(), "hi".to_string(), Timestamp { secs: 1, nanos: 0 });
    record_outgoing(&mut h, &mut s, &"peer".to_string(), "peer-alias".to_string(), out);
    assert_eq!(counter(&s, "peer"), unread_from(&h, "peer"));
    handle_incoming_chat_message(&mut h, &mut s, msg("3", "peer", "me")).unwrap();
    assert_eq!(counter(&s, "peer"), 2);
    assert_eq!(unread_from(&h, "peer"), 2);
    let mut oh = Some(h);
    let mut os = Some(s);
    mark_messages_as_read(&mut oh, &mut os, &"peer".to_string()).unwrap();
    assert_eq!(counter(os.as_ref().unwrap(), "peer"), 0);
    assert_eq!(unread_from(oh.as_ref().unwrap(), "peer"), 0);
}
