use localshare::common::{
    color_string, deserialize_system_time, empty_string_as_none, fingerprint_of_bytes,
    generate_fingerprint_cert, generate_random_color, generate_random_string, Files, Message,
    PeerInfo, PrepareUploadParams, Timestamp,
};
use localshare::localsend::{
    announce_reply, announcement, choose_fingerprint, file_download_url, file_size_or_default,
    file_upload_url, files_list_url, local_device_message, missing_from, prepare_upload_request,
    prepare_upload_url, register_peer, send_file_reply, sync_peer_address, upload_file_entry,
    upload_plan, upload_url, RegisterOutcome,
};
use localshare::net::{SocketAddress, V4Octets};
use localshare::strmap::StrMap;

fn message(fp: &str, model: Option<&str>) -> Message {
    Message {
        alias: "peer".to_string(),
        version: "2.1".to_string(),
        device_model: model.map(|m| m.to_string()),
        device_type: Some("mobile".to_string()),
        fingerprint: fp.to_string(),
        port: 53317,
        protocol: "https".to_string(),
        download: Some(false),
        announce: Some(true),
    }
}

fn addr(last: u8, port: u16) -> SocketAddress {
    SocketAddress::V4 { ip: V4Octets(192, 168, 0, last), port }
}

#[test]
fn register_skips_own_and_known_addresses() {
    let me = "mine".to_string();
    assert!(matches!(register_peer(&me, message("mine", None), addr(1, 1), None), RegisterOutcome::OwnMessage));
    let p = match register_peer(&me, message("p", None), addr(2, 1), None) {
        RegisterOutcome::Store(p) => p,
        _ => panic!("a new peer is stored"),
    };
    assert_eq!(p.remote_addrs.iter().copied().collect::<Vec<_>>(), vec![addr(2, 1)]);
    let again = register_peer(&me, message("p", None), addr(2, 1), Some(p));
    assert!(matches!(again, RegisterOutcome::AlreadyKnown));
}

#[test]
fn a_known_peer_gains_the_new_address_and_keeps_its_message() {
    let me = "mine".to_string();
    let known = PeerInfo::new(message("p", Some("old")), addr(2, 1));
    match register_peer(&me, message("p", Some("new")), addr(3, 1), Some(known)) {
        RegisterOutcome::Store(p) => {
            assert_eq!(p.message.device_model, Some("old".to_string()));
            assert_eq!(p.remote_addrs.iter().copied().collect::<Vec<_>>(), vec![addr(2, 1), addr(3, 1)]);
        }
        _ => panic!("the peer is updated"),
    }
}

#[test]
fn at_most_six_addresses_are_kept_dropping_the_oldest() {
    let mut p = PeerInfo::new(message("p", None), addr(0, 0));
    for i in 1..8u8 {
        p.add_remote_addr(addr(i, i as u16));
    }
    let kept: Vec<_> = p.remote_addrs.iter().copied().collect();
    assert_eq!(kept, (2..8u8).map(|i| addr(i, i as u16)).collect::<Vec<_>>());
    assert!(p.has_remote_addr(&addr(7, 7)));
    assert!(!p.has_remote_addr(&addr(1, 1)));
}

#[test]
fn sync_only_with_localshare_devices() {
    let m = message("p", Some("localshare_device"));
    assert_eq!(sync_peer_address(&m, &addr(9, 4000)), Some("https://192.168.0.9:4000:53317".to_string()));
    assert_eq!(sync_peer_address(&message("p", Some("phone")), &addr(9, 4000)), None);
    assert_eq!(sync_peer_address(&message("p", None), &addr(9, 4000)), None);
}

#[test]
fn files_missing_on_the_other_side() {
    let local = vec!["a".to_string(), "b".to_string(), "c".to_string()];
    let peer = vec!["b".to_string(), "d".to_string()];
    assert_eq!(missing_from(&peer, &local), vec!["d".to_string()]);
    assert_eq!(missing_from(&local, &peer), vec!["a".to_string(), "c".to_string()]);
    assert_eq!(files_list_url("http://h:1"), "http://h:1/api/files");
    assert_eq!(file_download_url("http://h:1", "x.png"), "http://h:1/api/files/download/x.png");
    assert_eq!(file_upload_url("http://h:1"), "http://h:1/api/files/upload");
}

#[test]
fn announcement_and_own_message() {
    let mut m = message("p", None);
    m.announce = None;
    let a = announcement(&m);
    assert_eq!(a.announce, Some(true));
    assert_eq!(a.fingerprint, "p");
    let own = local_device_message(&"0123456789abcdef".to_string());
    assert_eq!(own.alias, "012345");
    assert_eq!(own.version, "2.1");
    assert_eq!(own.device_model, Some("localshare".to_string()));
    assert_eq!(own.device_type, None);
    assert_eq!(own.port, 53317);
    assert_eq!(own.protocol, "http");
    assert_eq!(own.download, Some(true));
    assert_eq!(own.announce, None);
    assert_eq!(choose_fingerprint(Some("s".to_string()), "h".to_string()), ("s".to_string(), false));
    assert_eq!(choose_fingerprint(None, "h".to_string()), ("h".to_string(), true));
    assert_eq!(announce_reply(), Ok("announced".to_string()));
}

#[test]
fn sending_files_plan() {
    assert_eq!(file_size_or_default(Some(12)), 12);
    assert_eq!(file_size_or_default(None), 9999);
    let f = upload_file_entry("id1".to_string(), "a.txt".to_string(), 3);
    assert_eq!(f.fileType, "application/octet-stream");
    assert!(f.sha256.is_none() && f.preview.is_none() && f.metadata.is_none());
    let mut files = StrMap::new();
    files.insert("id1".to_string(), f);
    let req = prepare_upload_request(&message("me", None), Files { files });
    assert_eq!(req.info.announce, None);
    assert_eq!(req.info.fingerprint, "me");
    assert_eq!(req.files.files.len(), 1);
    let a = addr(5, 53317);
    assert_eq!(prepare_upload_url("http", &a), "http://192.168.0.5:53317/api/localsend/v2/prepare-upload");
    assert_eq!(
        upload_url("http", &a, "S", "F", "T"),
        "http://192.168.0.5:53317/api/localsend/v2/upload?sessionId=S&fileId=F&token=T"
    );
    let mut tokens = StrMap::new();
    tokens.insert("id1".to_string(), "tok".to_string());
    let plan = upload_plan("http", &a, "S", &vec!["id1".to_string()], &tokens);
    assert_eq!(
        plan,
        vec![("id1".to_string(), "http://192.168.0.5:53317/api/localsend/v2/upload?sessionId=S&fileId=id1&token=tok".to_string())]
    );
    assert_eq!(send_file_reply(), Ok("ok".to_string()));
}

#[test]
fn random_identifiers_are_lower_case_hex() {
    let s = generate_random_string(32);
    assert_eq!(s.len(), 64);
    assert!(s.chars().all(|c| c.is_ascii_hexdigit() && !c.is_ascii_uppercase()));
    assert_eq!(generate_random_string(0), "");
    let c = generate_random_color();
    assert_eq!(c.len(), 7);
    for i in 0..3 {
        let v = u8::from_str_radix(&c[1 + 2 * i..3 + 2 * i], 16).unwrap();
        assert!((180..=240).contains(&v));
    }
    assert_eq!(color_string(180, 200, 240), "#b4c8f0");
}

#[test]
fn fingerprints_are_sha256_in_hex() {
    assert_eq!(
        fingerprint_of_bytes(b"abc"),
        "ba7816bf8f01cfea414140de5dae2223b00361a396177a9cb410ff61f20015ad"
    );
    assert_eq!(generate_fingerprint_cert(b"abc"), fingerprint_of_bytes(b"abc"));
}

#[test]
fn metadata_times_and_query_values() {
    assert_eq!(
        deserialize_system_time(Some("2024-06-06T15:25:34.000Z".to_string())),
        Ok(Some(Timestamp { secs: 1717687534, nanos: 0 }))
    );
    assert_eq!(
        deserialize_system_time(Some("1970-01-01T00:00:01.5+01:00".to_string())),
        Ok(Some(Timestamp { secs: -3599, nanos: 500_000_000 }))
    );
    assert_eq!(deserialize_system_time(None), Ok(None));
    assert!(deserialize_system_time(Some("yesterday".to_string())).is_err());
    assert_eq!(empty_string_as_none(Some(String::new())), None);
    assert_eq!(empty_string_as_none(Some("1234".to_string())), Some("1234".to_string()));
    assert_eq!(empty_string_as_none(None), None);
    assert_eq!(PrepareUploadParams::from_query(Some("".to_string())).pin(), None);
    assert_eq!(PrepareUploadParams::from_query(Some("42".to_string())).pin(), Some("42".to_string()));
}
