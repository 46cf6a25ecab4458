use localshare::net::{IpAddress, SocketAddress, V4Octets};
use localshare::tuic::{
    pem_certificates, root_cert_candidates, socks5_auth, socks5_only_v6, CongestionControl,
    ServerAddr, Socks5Auth, Socks5ConfigError, Socks5Settings, UdpRelayMode,
};

const PEM: &str = "-----BEGIN CERTIFICATE-----\nAQID\n-----END CERTIFICATE-----\n-----BEGIN PUBLIC KEY-----\nBAU=\n-----END PUBLIC KEY-----\n-----BEGIN CERTIFICATE-----\nBgcI\n-----END CERTIFICATE-----\n";

#[test]
fn relay_modes_ignore_case() {
    assert_eq!("native".parse::<UdpRelayMode>(), Ok(UdpRelayMode::Native));
    assert_eq!("QUIC".parse::<UdpRelayMode>(), Ok(UdpRelayMode::Quic));
    assert_eq!(UdpRelayMode::parse("Quic"), Ok(UdpRelayMode::Quic));
    assert_eq!("udp".parse::<UdpRelayMode>(), Err("invalid UDP relay mode"));
}

#[test]
fn congestion_controls_ignore_case() {
    assert_eq!("Cubic".parse::<CongestionControl>(), Ok(CongestionControl::Cubic));
    assert_eq!("NEW_RENO".parse::<CongestionControl>(), Ok(CongestionControl::NewReno));
    assert_eq!("newreno".parse::<CongestionControl>(), Ok(CongestionControl::NewReno));
    assert_eq!(CongestionControl::parse("bBr"), Ok(CongestionControl::Bbr));
    assert_eq!("new reno".parse::<CongestionControl>(), Err("invalid congestion control"));
}

#[test]
fn server_address() {
    let ip = IpAddress::V4(V4Octets(1, 2, 3, 4));
    let a = ServerAddr::new("example.org".to_string(), 443, Some(ip));
    assert_eq!(a.server_name(), "example.org");
    assert_eq!(a.port(), 443);
    assert_eq!(a.fixed_addrs(), Some(vec![SocketAddress::V4 { ip: V4Octets(1, 2, 3, 4), port: 443 }]));
    assert_eq!(ServerAddr::new("example.org".to_string(), 443, None).fixed_addrs(), None);
}

#[test]
fn socks5_authentication_needs_both_or_neither() {
    assert!(matches!(socks5_auth(None, None), Ok(Socks5Auth::NoAuth)));
    match socks5_auth(Some(b"u".to_vec()), Some(b"p".to_vec())) {
        Ok(Socks5Auth::Password { username, password }) => {
            assert_eq!(username, b"u".to_vec());
            assert_eq!(password, b"p".to_vec());
        }
        _ => panic!("password expected"),
    }
    assert!(matches!(socks5_auth(Some(b"u".to_vec()), None), Err(Socks5ConfigError::InvalidSocks5Auth)));
    assert!(matches!(socks5_auth(None, Some(b"p".to_vec())), Err(Socks5ConfigError::InvalidSocks5Auth)));
    assert_eq!(socks5_only_v6(Some(true)), Some(false));
    assert_eq!(socks5_only_v6(None), None);
}

#[test]
fn certificates_from_pem_text() {
    assert_eq!(pem_certificates(PEM.as_bytes()), vec![vec![1, 2, 3], vec![6, 7, 8]]);
    assert_eq!(pem_certificates(b"no pem here"), Vec::<Vec<u8>>::new());
}

#[test]
fn root_candidates_fall_back_to_raw_bytes() {
    assert_eq!(root_cert_candidates(PEM.as_bytes(), &vec![b"ignored".to_vec()]), vec![vec![1, 2, 3], vec![6, 7, 8]]);
    assert_eq!(root_cert_candidates(b"raw-der", &vec![]), vec![b"raw-der".to_vec()]);
    assert_eq!(
        root_cert_candidates(b"", &vec![b"one".to_vec(), PEM.as_bytes().to_vec()]),
        vec![vec![1, 2, 3], vec![6, 7, 8]]
    );
    assert_eq!(
        root_cert_candidates(b"", &vec![b"one".to_vec(), b"two".to_vec()]),
        vec![b"one".to_vec(), b"two".to_vec()]
    );
}

#[test]
fn association_ids_start_at_zero_and_wrap() {
    let mut s = Socks5Settings::new(Some(true), 1500);
    assert_eq!(s.dual_stack(), Some(true));
    assert_eq!(s.max_pkt_size(), 1500);
    assert_eq!(s.next_assoc_id(), 0);
    assert_eq!(s.next_assoc_id(), 1);
    for _ in 2..65535 {
        s.next_assoc_id();
    }
    assert_eq!(s.next_assoc_id(), 65535);
    assert_eq!(s.next_assoc_id(), 0);
}
