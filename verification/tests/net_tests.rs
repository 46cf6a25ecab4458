use localshare::net::{
    choose_bind_address, multicast_group, IpAddress, SocketAddress, V4Octets, V6Segments,
};

fn v6(s: [u16; 8], port: u16, scope_id: u32) -> SocketAddress {
    SocketAddress::V6 {
        ip: V6Segments(s[0], s[1], s[2], s[3], s[4], s[5], s[6], s[7]),
        port,
        flowinfo: 0,
        scope_id,
    }
}

#[test]
fn ipv4_socket_text() {
    let a = SocketAddress::V4 { ip: V4Octets(192, 168, 1, 20), port: 53317 };
    assert_eq!(a.to_text(), "192.168.1.20:53317");
    assert_eq!(IpAddress::V4(V4Octets(0, 0, 0, 0)).to_text(), "0.0.0.0");
}

#[test]
fn ipv6_socket_text_compresses_the_first_longest_zero_run() {
    assert_eq!(v6([0, 0, 0, 0, 0, 0, 0, 1], 8080, 0).to_text(), "[::1]:8080");
    assert_eq!(v6([0x2001, 0xdb8, 0, 0, 0, 0, 0, 1], 80, 0).to_text(), "[2001:db8::1]:80");
    assert_eq!(v6([1, 0, 0, 1, 0, 0, 1, 1], 1, 0).to_text(), "[1::1:0:0:1:1]:1");
    assert_eq!(v6([1, 0, 1, 0, 1, 0, 1, 0], 1, 0).to_text(), "[1:0:1:0:1:0:1:0]:1");
    assert_eq!(v6([0; 8], 9, 0).to_text(), "[::]:9");
    assert_eq!(v6([1, 2, 3, 4, 5, 6, 7, 0], 9, 0).to_text(), "[1:2:3:4:5:6:7:0]:9");
    assert_eq!(v6([1, 2, 3, 4, 5, 6, 0, 0], 9, 0).to_text(), "[1:2:3:4:5:6::]:9");
}

#[test]
fn ipv6_socket_text_mapped_and_scoped() {
    assert_eq!(v6([0, 0, 0, 0, 0, 0xffff, 0x0102, 0x0304], 7, 0).to_text(), "[::ffff:1.2.3.4]:7");
    assert_eq!(v6([0xfe80, 0, 0, 0, 0, 0, 0, 1], 3, 2).to_text(), "[fe80::1%2]:3");
}

#[test]
fn socket_address_parts() {
    let a = SocketAddress::V6 {
        ip: V6Segments(1, 2, 3, 4, 5, 6, 7, 8),
        port: 5,
        flowinfo: 9,
        scope_id: 3,
    };
    assert_eq!(a.port(), 5);
    let b = SocketAddress::new(a.ip(), 53317);
    assert_eq!(b, SocketAddress::V6 { ip: V6Segments(1, 2, 3, 4, 5, 6, 7, 8), port: 53317, flowinfo: 0, scope_id: 0 });
}

#[test]
fn bind_address_prefers_192_168_then_172_16_then_10() {
    let v4 = |a, b, c, d| IpAddress::V4(V4Octets(a, b, c, d));
    let ifaces = vec![
        vec![v4(10, 0, 0, 5)],
        vec![v4(172, 20, 1, 1), v4(192, 168, 43, 1)],
    ];
    assert_eq!(choose_bind_address(&ifaces), V4Octets(192, 168, 43, 1));
    let ifaces = vec![vec![v4(10, 0, 0, 5)], vec![v4(172, 20, 1, 1)]];
    assert_eq!(choose_bind_address(&ifaces), V4Octets(10, 0, 0, 5));
    let ifaces = vec![vec![v4(172, 20, 1, 1), v4(10, 1, 1, 1)]];
    assert_eq!(choose_bind_address(&ifaces), V4Octets(172, 20, 1, 1));
    let ifaces = vec![vec![v4(172, 32, 1, 1), v4(127, 0, 0, 1)]];
    assert_eq!(choose_bind_address(&ifaces), V4Octets(0, 0, 0, 0));
    let ifaces = vec![vec![v4(10, 0, 0, 5)], vec![v4(192, 168, 1, 9)]];
    assert_eq!(choose_bind_address(&ifaces), V4Octets(192, 168, 1, 9));
    assert_eq!(choose_bind_address(&vec![]), V4Octets(0, 0, 0, 0));
    assert_eq!(multicast_group(), V4Octets(224, 0, 0, 167));
}
