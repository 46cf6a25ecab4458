use localshare::common::{fingerprint_of_bytes, generate_fingerprint_cert};
use localshare::commands::{
    cert_subject_alt_names, generate_cert_key, greet, nic_urls, oauth_ports, oauth_response,
    permission_reply, picker_reply, BindAddr, ServerSwitch, ServerToggle,
};
use localshare::net::{IpAddress, V4Octets, V6Segments};

#[test]
fn greeting() {
    assert_eq!(greet("Ann"), "Hello, Ann! You've been greeted from Rust!");
}

#[test]
fn the_server_switch_alternates() {
    let mut s = ServerSwitch::new();
    assert_eq!(s.toggle(), (ServerToggle::Start, Ok("started".to_string())));
    assert_eq!(s.toggle(), (ServerToggle::Stop, Ok("stopped".to_string())));
    assert_eq!(s.toggle(), (ServerToggle::Start, Ok("started".to_string())));
}

#[test]
fn picker_answers() {
    assert_eq!(picker_reply(&vec![]), Err("File picker canceled".to_string()));
    assert_eq!(
        picker_reply(&vec!["image/png".to_string(), "text/plain".to_string()]),
        Ok("File type: text/plain".to_string())
    );
}

#[test]
fn shown_urls() {
    let addrs = vec![
        BindAddr::IpAddr(IpAddress::V4(V4Octets(192, 168, 1, 3))),
        BindAddr::IpAddr(IpAddress::V6(V6Segments(0, 0, 0, 0, 0, 0, 0, 1))),
        BindAddr::SocketPath(String::new()),
        BindAddr::SocketPath("/run/dufs.sock".to_string()),
    ];
    assert_eq!(
        nic_urls(&addrs, false, "/"),
        vec![
            "http://192.168.1.3/".to_string(),
            "http:///".to_string(),
            "/run/dufs.sock".to_string()
        ]
    );
    assert_eq!(nic_urls(&addrs[..1].iter().map(|_| BindAddr::IpAddr(IpAddress::V4(V4Octets(10, 0, 0, 1)))).collect(), true, ""), vec!["https://10.0.0.1".to_string()]);
}

#[test]
fn constants_of_the_commands() {
    assert_eq!(oauth_ports(), vec![4810, 4811, 4812]);
    assert_eq!(oauth_response(), "Login successful. You can close this window.");
    assert_eq!(permission_reply(), Ok("done".to_string()));
    assert_eq!(cert_subject_alt_names(), vec!["hello.world.example".to_string(), "localhost".to_string()]);
    let ck = generate_cert_key().expect("a certificate");
    assert_eq!(ck.dns_names, vec!["hello.world.example".to_string(), "localhost".to_string()]);
    assert!(ck.cert.pem().starts_with("-----BEGIN CERTIFICATE-----"));
    assert!(ck.key_pair.serialize_pem().contains("PRIVATE KEY"));
    assert_eq!(ck.cert_der, ck.cert.der().to_vec());
    assert_eq!(ck.public_key_der, ck.key_pair.public_key_der());
    assert!(ck.cert_der.windows(ck.public_key_der.len()).any(|w| w == &ck.public_key_der[..]));
    assert_eq!(generate_fingerprint_cert(&ck.cert_der), fingerprint_of_bytes(&ck.cert_der));
    assert_eq!(generate_fingerprint_cert(&ck.cert_der).len(), 64);
}
