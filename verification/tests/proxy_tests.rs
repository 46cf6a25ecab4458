use localshare::proxy::{
    bad_gateway_reply, bridge_action, bridge_error_reply, cache_subdirs, connection_established,
    invalid_filename_message, is_text_content, proxy_target_url, relay_body, relayed_headers,
    response_head, sanitize_filename, upload_success_message, uploads_target_url, BridgeAction,
    TUNNEL_PORT,
};

#[test]
fn unreachable_site_answer() {
    assert_eq!(bad_gateway_reply(), (502, "Bad Gateway".to_string()));
}

#[test]
fn proxied_urls() {
    assert_eq!(proxy_target_url("t/topic/12"), "https://xjtu.app/t/topic/12");
    assert_eq!(proxy_target_url(""), "https://xjtu.app/");
    assert_eq!(uploads_target_url("default/original/1X/a.png"), "https://xjtu.app/uploads/default/original/1X/a.png");
}

#[test]
fn text_bodies_point_to_the_local_proxy() {
    assert!(is_text_content(&Some("text/html; charset=utf-8".to_string())));
    assert!(!is_text_content(&Some("image/png".to_string())));
    assert!(!is_text_content(&None));
    let body = b"<a href=\"https://xjtu.app/x\">x</a> http://xjtu.app/y".to_vec();
    assert_eq!(
        relay_body(&body, true),
        b"<a href=\"http://127.0.0.1:4805/x\">x</a> http://127.0.0.1:4805/y".to_vec()
    );
    assert_eq!(relay_body(&body, false), body);
    let plain = "<p>nothing to rewrite: xjtu.app, https://example.org</p>".as_bytes().to_vec();
    assert_eq!(relay_body(&plain, true), plain);
    let bad = vec![0x66, 0xff, 0x67];
    assert_eq!(relay_body(&bad, true), vec![0x66, 0xef, 0xbf, 0xbd, 0x67]);
}

#[test]
fn relayed_headers_drop_cors_and_alt_svc() {
    let h = vec![
        (Some("content-type".to_string()), b"text/html".to_vec()),
        (Some("access-control-allow-origin".to_string()), b"https://xjtu.app".to_vec()),
        (Some("set-cookie".to_string()), b"a=1".to_vec()),
        (None, b"b=2".to_vec()),
        (Some("alt-svc".to_string()), b"h3".to_vec()),
    ];
    assert_eq!(
        relayed_headers(&h),
        vec![
            ("Access-Control-Allow-Origin".to_string(), b"*".to_vec()),
            ("content-type".to_string(), b"text/html".to_vec()),
            ("set-cookie".to_string(), b"a=1".to_vec()),
        ]
    );
}

#[test]
fn cache_directories_of_an_upload_path() {
    assert_eq!(cache_subdirs("default/original/a.png"), vec!["default".to_string(), "original".to_string()]);
    assert_eq!(cache_subdirs("a.png"), Vec::<String>::new());
    assert_eq!(cache_subdirs("a//b/"), vec!["a".to_string(), "".to_string(), "b".to_string()]);
}

#[test]
fn uploaded_names_stay_in_the_cache_directory() {
    assert_eq!(sanitize_filename("photo.jpg", false), Some("photo.jpg".to_string()));
    assert_eq!(sanitize_filename("../../etc/passwd", false), Some("passwd".to_string()));
    assert_eq!(sanitize_filename("dir/sub/", false), Some("sub".to_string()));
    assert_eq!(sanitize_filename("foo.txt/.", false), Some("foo.txt".to_string()));
    assert_eq!(sanitize_filename("..", false), None);
    assert_eq!(sanitize_filename("a/..", false), None);
    assert_eq!(sanitize_filename("/", false), None);
    assert_eq!(sanitize_filename("", false), None);
    assert_eq!(sanitize_filename(".", false), None);
    assert_eq!(sanitize_filename("..a", false), Some("..a".to_string()));
    assert_eq!(sanitize_filename("..\\evil", false), Some("..\\evil".to_string()));
    assert_eq!(sanitize_filename("..\\evil", true), Some("evil".to_string()));
    assert_eq!(sanitize_filename("a/b\\c.txt", true), Some("c.txt".to_string()));
    assert_eq!(sanitize_filename("C:evil", true), Some("evil".to_string()));
    assert_eq!(sanitize_filename("C:\\", true), None);
    assert_eq!(sanitize_filename("a\\D:evil", true), None);
    assert_eq!(sanitize_filename("dir\\..", true), None);
    assert_eq!(sanitize_filename("C:evil", false), Some("C:evil".to_string()));
    assert_eq!(invalid_filename_message(), "Invalid filename");
    assert_eq!(upload_success_message(), "File uploaded successfully");
}

#[test]
fn bridge_decisions() {
    match bridge_action(b"CONNECT xjtu.app:443 HTTP/1.1\r\nHost: xjtu.app:443\r\n\r\n") {
        BridgeAction::Tunnel { host } => assert_eq!(host, "xjtu.app:443"),
        _ => panic!("tunnel expected"),
    }
    match bridge_action(b"GET /latest.json HTTP/1.1\r\nHost: localhost\r\n\r\n") {
        BridgeAction::Forward { method, url } => {
            assert_eq!(method, "GET");
            assert_eq!(url, "https://xjtu.app/latest.json");
        }
        _ => panic!("forward expected"),
    }
    assert!(matches!(bridge_action(b""), BridgeAction::Ignore));
    assert!(matches!(bridge_action(b"GET /partial HTTP/1.1\r\n"), BridgeAction::Ignore));
    assert!(matches!(bridge_action(b"\x00\x01garbage\r\n\r\n"), BridgeAction::Ignore));
    assert_eq!(TUNNEL_PORT, 443);
}

#[test]
fn bridge_replies() {
    let h = vec![("content-type".to_string(), "text/plain".to_string()), ("x".to_string(), "1".to_string())];
    assert_eq!(
        response_head(200, &Some("OK".to_string()), &h),
        "HTTP/1.1 200 OK\r\ncontent-type: text/plain\r\nx: 1\r\n\r\n"
    );
    assert_eq!(response_head(599, &None, &vec![]), "HTTP/1.1 599 \r\n\r\n");
    assert_eq!(connection_established(), "HTTP/1.1 200 Connection Established\r\n\r\n");
    assert_eq!(bridge_error_reply(), "HTTP/1.1 500 Internal Server Error\r\n\r\n");
}
