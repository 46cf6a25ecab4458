use localshare::chat::begin_chat_send;
use localshare::common::{ChatHistory, ChatSessions, Message, PeerInfo, Timestamp};
use localshare::localsend::{
    begin_file_send, build_file_offer, LocalFile,
};
use localshare::net::{SocketAddress, V4Octets};

fn message(fp: &str, model: Option<&str>) -> Message {
    Message {
        alias: format!("{}-alias", fp),
        version: "2.1".to_string(),
        device_model: model.map(|m| m.to_string()),
        device_type: None,
        fingerprint: fp.to_string(),
        port: 53317,
        protocol: "https".to_string(),
        download: Some(true),
        announce: Some(true),
    }
}

fn addr(last: u8, port: u16) -> SocketAddress {
    SocketAddress::V4 { ip: V4Octets(10, 0, 0, last), port }
}

fn file(path: &str, name: &str, size: Option<u64>) -> LocalFile {
    LocalFile { path: path.to_string(), name: name.to_string(), size }
}

#[test]
fn sending_a_chat_message_to_an_unknown_peer_is_refused() {
    let mut h = ChatHistory::new();
    let mut s = ChatSessions::new();
    let r = begin_chat_send(None, &message("me", None), "ghost".to_string(), "hi".to_string(), Timestamp { secs: 1, nanos: 0 }, &mut h, &mut s);
    assert_eq!(r.err(), Some("peer ghost not found in peers store".to_string()));
    assert!(h.messages.is_empty());
}

#[test]
fn sending_a_chat_message_records_it_and_plans_the_delivery() {
    let mut h = ChatHistory::new();
    let mut s = ChatSessions::new();
    let peer = PeerInfo::new(message("p", None), addr(4, 1234));
    let send = match begin_chat_send(Some(peer), &message("me", None), "p".to_string(), "hi".to_string(), Timestamp { secs: 1, nanos: 0 }, &mut h, &mut s) {
        Ok(send) => send,
        Err(e) => panic!("{}", e),
    };
    assert_eq!(send.message.id.len(), 32);
    assert_eq!(send.message.content, "hi");
    assert_eq!(send.protocol, "https");
    assert_eq!(h.messages.len(), 1);
    let sess = s.sessions.get(&"p".to_string()).unwrap();
    assert_eq!(sess.peer_alias, "p-alias");
    assert_eq!(sess.unread_count, 0);
    let mut d = send.delivery;
    assert_eq!(d.next_target(), Some(addr(4, 53317)));
    assert_eq!(d.next_target(), Some(addr(4, 1234)));
    assert_eq!(d.next_target(), None);
}

#[test]
fn file_offers_use_the_given_ids_and_later_files_replace_earlier_ones() {
    let ids = vec!["a".to_string(), "b".to_string(), "a".to_string()];
    let files = vec![file("/x/1.txt", "1.txt", Some(5)), file("/x/2.txt", "2.txt", None), file("/x/3.txt", "3.txt", Some(7))];
    let (offer, paths) = build_file_offer(&ids, &files);
    assert_eq!(offer.files.len(), 2);
    let a = offer.files.get(&"a".to_string()).unwrap();
    assert_eq!((a.fileName.as_str(), a.size), ("3.txt", 7));
    let b = offer.files.get(&"b".to_string()).unwrap();
    assert_eq!((b.fileName.as_str(), b.size, b.fileType.as_str()), ("2.txt", 9999, "application/octet-stream"));
    assert_eq!(paths.get(&"a".to_string()), Some(&"/x/3.txt".to_string()));
}

#[test]
fn sending_files_to_a_known_peer() {
    assert_eq!(
        begin_file_send(None, "ghost", &message("me", None), vec![]).err(),
        Some("peer ghost not found in peers store".to_string())
    );
    let peer = PeerInfo::new(message("p", None), addr(4, 1234));
    let send = match begin_file_send(Some(peer), "p", &message("me", None), vec![file("/x/1.txt", "1.txt", Some(5))]) {
        Ok(send) => send,
        Err(e) => panic!("{}", e),
    };
    assert_eq!(send.request.info.announce, None);
    assert_eq!(send.request.info.fingerprint, "me");
    assert_eq!(send.request.files.files.len(), 1);
    let ids = send.paths.keys();
    assert_eq!(ids[0].len(), 64);
    let f = send.request.files.files.get(&ids[0]).unwrap();
    assert_eq!((f.id.as_str(), f.fileName.as_str()), (ids[0].as_str(), "1.txt"));
    let mut d = send.delivery;
    assert_eq!(d.next_target(), Some(addr(4, 53317)));
}
