//! IP and socket addresses as plain values, their text form (as std's
//! `Display` writes it), and the choice of the address that multicast binds to.
use vstd::prelude::*;
use crate::text::{dec_seq, hex_digit, hex_digit_exec, push_char, push_decimal};

verus! {

/// The four octets of an IPv4 address.
#[derive(Clone, Copy, Debug, PartialEq, Eq, Structural)]
pub struct V4Octets(pub u8, pub u8, pub u8, pub u8);

/// The eight 16-bit segments of an IPv6 address.
#[derive(Clone, Copy, Debug, PartialEq, Eq, Structural)]
pub struct V6Segments(pub u16, pub u16, pub u16, pub u16, pub u16, pub u16, pub u16, pub u16);

impl V4Octets {
    pub open spec fn spec_array(self) -> [u8; 4] {
        [self.0, self.1, self.2, self.3]
    }

    pub fn to_array(&self) -> (r: [u8; 4])
        ensures
            r == self.spec_array(),
    {
        [self.0, self.1, self.2, self.3]
    }
}

impl V6Segments {
    pub open spec fn spec_array(self) -> [u16; 8] {
        [self.0, self.1, self.2, self.3, self.4, self.5, self.6, self.7]
    }

    pub fn to_array(&self) -> (r: [u16; 8])
        ensures
            r == self.spec_array(),
    {
        [self.0, self.1, self.2, self.3, self.4, self.5, self.6, self.7]
    }
}

/// An IP address: four octets, or eight 16-bit segments.
#[derive(Clone, Copy, Debug, PartialEq, Eq, Structural)]
pub enum IpAddress {
    V4(V4Octets),
    V6(V6Segments),
}

/// A socket address, as std's `SocketAddr` holds it.
#[allow(inconsistent_fields)]
#[derive(Clone, Copy, Debug, PartialEq, Eq, Structural)]
pub enum SocketAddress {
    V4 { ip: V4Octets, port: u16 },
    V6 { ip: V6Segments, port: u16, flowinfo: u32, scope_id: u32 },
}

impl SocketAddress {
    pub open spec fn spec_ip(self) -> IpAddress {
        match self {
            SocketAddress::V4 { ip, .. } => IpAddress::V4(ip),
            SocketAddress::V6 { ip, .. } => IpAddress::V6(ip),
        }
    }

    pub open spec fn spec_port(self) -> u16 {
        match self {
            SocketAddress::V4 { port, .. } => port,
            SocketAddress::V6 { port, .. } => port,
        }
    }

    /// The socket address of `ip` and `port` (as `SocketAddr::new`: no flow
    /// information and no scope).
    pub open spec fn spec_new(ip: IpAddress, port: u16) -> SocketAddress {
        match ip {
            IpAddress::V4(a) => SocketAddress::V4 { ip: a, port },
            IpAddress::V6(s) => SocketAddress::V6 { ip: s, port, flowinfo: 0, scope_id: 0 },
        }
    }

    pub fn ip(&self) -> (r: IpAddress)
        ensures
            r == self.spec_ip(),
    {
        match self {
            SocketAddress::V4 { ip, .. } => IpAddress::V4(*ip),
            SocketAddress::V6 { ip, .. } => IpAddress::V6(*ip),
        }
    }

    pub fn port(&self) -> (r: u16)
        ensures
            r == self.spec_port(),
    {
        match self {
            SocketAddress::V4 { port, .. } => *port,
            SocketAddress::V6 { port, .. } => *port,
        }
    }

    pub fn new(ip: IpAddress, port: u16) -> (r: SocketAddress)
        ensures
            r == Self::spec_new(ip, port),
    {
        match ip {
            IpAddress::V4(a) => SocketAddress::V4 { ip: a, port },
            IpAddress::V6(s) => SocketAddress::V6 { ip: s, port, flowinfo: 0, scope_id: 0 },
        }
    }
}

/// Dotted-decimal text of an IPv4 address.
pub open spec fn ipv4_text(a: [u8; 4]) -> Seq<char> {
    dec_seq(a[0] as nat) + seq!['.'] + dec_seq(a[1] as nat) + seq!['.'] + dec_seq(a[2] as nat)
        + seq!['.'] + dec_seq(a[3] as nat)
}

/// Lower-case hexadecimal of a number, without leading zeros (`{:x}`).
pub open spec fn hex_nat(v: nat) -> Seq<char>
    decreases v,
{
    if v < 16 {
        seq![hex_digit(v as int)]
    } else {
        hex_nat(v / 16).push(hex_digit((v % 16) as int))
    }
}

/// Segments `segs[from..to]`, each in hexadecimal, separated by colons.
pub open spec fn hex_groups(segs: Seq<u16>) -> Seq<char>
    decreases segs.len(),
{
    if segs.len() == 0 {
        Seq::empty()
    } else if segs.len() == 1 {
        hex_nat(segs[0] as nat)
    } else {
        hex_groups(segs.drop_last()) + seq![':'] + hex_nat(segs.last() as nat)
    }
}

/// The longest run of zero segments, scanning from index `i`: the first
/// longest one wins.  The state is the current run and the best run so far,
/// each as (start, length).
pub open spec fn zero_run_from(segs: Seq<u16>, i: int, cur: (int, int), best: (int, int)) -> (int, int)
    decreases segs.len() - i,
{
    if i >= segs.len() || i < 0 {
        best
    } else if segs[i] == 0 {
        let c = if cur.1 == 0 { (i, 1) } else { (cur.0, cur.1 + 1) };
        let b = if c.1 > best.1 { c } else { best };
        zero_run_from(segs, i + 1, c, b)
    } else {
        zero_run_from(segs, i + 1, (0, 0), best)
    }
}

pub open spec fn zero_run(segs: Seq<u16>) -> (int, int) {
    zero_run_from(segs, 0, (0, 0), (0, 0))
}

/// Whether the address is an IPv4-mapped one (`::ffff:a.b.c.d`).
pub open spec fn is_v4_mapped(s: [u16; 8]) -> bool {
    s[0] == 0 && s[1] == 0 && s[2] == 0 && s[3] == 0 && s[4] == 0 && s[5] == 0xffff
}

/// The text of an IPv6 address: the longest run of two or more zero segments
/// becomes `::`; an IPv4-mapped address ends in dotted decimal.
pub open spec fn ipv6_text(s: [u16; 8]) -> Seq<char> {
    if is_v4_mapped(s) {
        seq![':', ':', 'f', 'f', 'f', 'f', ':'] + ipv4_text(
            [(s[6] / 256) as u8, (s[6] % 256) as u8, (s[7] / 256) as u8, (s[7] % 256) as u8],
        )
    } else {
        let segs = s@;
        let z = zero_run(segs);
        if z.1 > 1 {
            hex_groups(segs.take(z.0)) + seq![':', ':'] + hex_groups(segs.skip(z.0 + z.1))
        } else {
            hex_groups(segs)
        }
    }
}

pub open spec fn ip_text(ip: IpAddress) -> Seq<char> {
    match ip {
        IpAddress::V4(a) => ipv4_text(a.spec_array()),
        IpAddress::V6(s) => ipv6_text(s.spec_array()),
    }
}

/// The text of a socket address: `a.b.c.d:port`, `[v6]:port` or `[v6%scope]:port`.
pub open spec fn socket_text(a: SocketAddress) -> Seq<char> {
    match a {
        SocketAddress::V4 { ip, port } => ipv4_text(ip.spec_array()) + seq![':'] + dec_seq(port as nat),
        SocketAddress::V6 { ip, port, scope_id, .. } => seq!['['] + ipv6_text(ip.spec_array()) + (if scope_id
            == 0 {
            Seq::empty()
        } else {
            seq!['%'] + dec_seq(scope_id as nat)
        }) + seq![']', ':'] + dec_seq(port as nat),
    }
}

fn push_ipv4(s: &mut String, a: [u8; 4])
    ensures
        final(s)@ == old(s)@ + ipv4_text(a),
{
    push_decimal(s, a[0] as u64);
    push_char(s, '.');
    push_decimal(s, a[1] as u64);
    push_char(s, '.');
    push_decimal(s, a[2] as u64);
    push_char(s, '.');
    push_decimal(s, a[3] as u64);
}

fn push_hex_nat(s: &mut String, v: u16)
    ensures
        final(s)@ == old(s)@ + hex_nat(v as nat),
    decreases v,
{
    if v >= 16 {
        push_hex_nat(s, v / 16);
    }
    push_char(s, hex_digit_exec((v % 16) as u8));
}

fn push_hex_groups(s: &mut String, segs: &[u16; 8], from: usize, to: usize)
    requires
        from <= to <= 8,
    ensures
        final(s)@ == old(s)@ + hex_groups(segs@.subrange(from as int, to as int)),
{
    let mut i = from;
    while i < to
        invariant
            from <= i <= to <= 8,
            segs@.len() == 8,
            s@ == old(s)@ + hex_groups(segs@.subrange(from as int, i as int)),
        decreases to - i,
    {
        let ghost before = s@;
        assert(segs@.subrange(from as int, i + 1).drop_last() == segs@.subrange(from as int, i as int));
        if i > from {
            push_char(s, ':');
        }
        push_hex_nat(s, segs[i]);
        i = i + 1;
    }
}

fn zero_run_exec(segs: &[u16; 8]) -> (r: (usize, usize))
    ensures
        r.0 as int == zero_run(segs@).0,
        r.1 as int == zero_run(segs@).1,
        r.0 + r.1 <= 8,
{
    let mut cur_start: usize = 0;
    let mut cur_len: usize = 0;
    let mut best_start: usize = 0;
    let mut best_len: usize = 0;
    let mut i: usize = 0;
    while i < 8
        invariant
            i <= 8,
            segs@.len() == 8,
            cur_start + cur_len <= i,
            best_start + best_len <= i,
            zero_run_from(segs@, i as int, (cur_start as int, cur_len as int), (best_start as int, best_len as int))
                == zero_run(segs@),
        decreases 8 - i,
    {
        if segs[i] == 0 {
            if cur_len == 0 {
                cur_start = i;
                cur_len = 1;
            } else {
                cur_len = cur_len + 1;
            }
            if cur_len > best_len {
                best_start = cur_start;
                best_len = cur_len;
            }
        } else {
            cur_start = 0;
            cur_len = 0;
        }
        i = i + 1;
    }
    (best_start, best_len)
}

fn push_ipv6(s: &mut String, a: &[u16; 8])
    ensures
        final(s)@ == old(s)@ + ipv6_text(*a),
{
    if a[0] == 0 && a[1] == 0 && a[2] == 0 && a[3] == 0 && a[4] == 0 && a[5] == 0xffff {
        push_char(s, ':');
        push_char(s, ':');
        push_char(s, 'f');
        push_char(s, 'f');
        push_char(s, 'f');
        push_char(s, 'f');
        push_char(s, ':');
        let v4: [u8; 4] = [(a[6] / 256) as u8, (a[6] % 256) as u8, (a[7] / 256) as u8, (a[7] % 256) as u8];
        push_ipv4(s, v4);
    } else {
        let (start, len) = zero_run_exec(a);
        assert(a@.subrange(0, 8) == a@);
        if len > 1 {
            push_hex_groups(s, a, 0, start);
            push_char(s, ':');
            push_char(s, ':');
            push_hex_groups(s, a, start + len, 8);
            assert(a@.subrange(0, start as int) == a@.take(start as int));
            assert(a@.subrange(start + len, 8) == a@.skip(start + len));
        } else {
            push_hex_groups(s, a, 0, 8);
        }
    }
}

impl IpAddress {
    /// The text of the address, as std's `Display` writes it.
    pub fn to_text(&self) -> (r: String)
        ensures
            r@ == ip_text(*self),
    {
        let mut s = String::new();
        match self {
            IpAddress::V4(a) => push_ipv4(&mut s, a.to_array()),
            IpAddress::V6(a) => push_ipv6(&mut s, &a.to_array()),
        }
        s
    }
}

/// Appends the text of a socket address.
pub fn push_socket_text(s: &mut String, addr: &SocketAddress)
    ensures
        final(s)@ == old(s)@ + socket_text(*addr),
{
    match addr {
        SocketAddress::V4 { ip, port } => {
            push_ipv4(s, ip.to_array());
            push_char(s, ':');
            push_decimal(s, *port as u64);
        },
        SocketAddress::V6 { ip, port, scope_id, .. } => {
            push_char(s, '[');
            push_ipv6(s, &ip.to_array());
            if *scope_id != 0 {
                push_char(s, '%');
                push_decimal(s, *scope_id as u64);
            }
            push_char(s, ']');
            push_char(s, ':');
            push_decimal(s, *port as u64);
        },
    }
}

impl SocketAddress {
    /// The text of the socket address, as std's `Display` writes it.
    pub fn to_text(&self) -> (r: String)
        ensures
            r@ == socket_text(*self),
    {
        let mut s = String::new();
        push_socket_text(&mut s, self);
        s
    }
}

/// The unspecified IPv4 address `0.0.0.0`.
pub open spec fn unspecified_v4() -> V4Octets {
    V4Octets(0, 0, 0, 0)
}

/// `192.168.0.0/16` contains the address.
pub open spec fn in_192_168(a: V4Octets) -> bool {
    a.0 == 192 && a.1 == 168
}

/// `172.16.0.0/12` contains the address.
pub open spec fn in_172_16(a: V4Octets) -> bool {
    a.0 == 172 && 16 <= a.1 <= 31
}

/// `10.0.0.0/8` contains the address.
pub open spec fn in_10(a: V4Octets) -> bool {
    a.0 == 10
}

/// Which private range a search looks for: 0 for 192.168/16, 1 for 172.16/12,
/// 2 for 10/8.
pub open spec fn in_range(a: V4Octets, range: int) -> bool {
    if range == 0 {
        in_192_168(a)
    } else if range == 1 {
        in_172_16(a)
    } else {
        in_10(a)
    }
}

/// The first IPv4 address of `ips` in the range.
pub open spec fn first_in_range(ips: Seq<IpAddress>, range: int) -> Option<V4Octets>
    decreases ips.len(),
{
    if ips.len() == 0 {
        None
    } else {
        match ips[0] {
            IpAddress::V4(a) => if in_range(a, range) {
                Some(a)
            } else {
                first_in_range(ips.skip(1), range)
            },
            IpAddress::V6(_) => first_in_range(ips.skip(1), range),
        }
    }
}

/// One interface's turn: a 192.168 address of it replaces the choice; while
/// nothing is chosen, a 172.16 address, then a 10 address, is taken.
pub open spec fn interface_step(cur: V4Octets, ips: Seq<IpAddress>) -> V4Octets {
    let c1 = match first_in_range(ips, 0) {
        Some(a) => a,
        None => cur,
    };
    let c2 = if c1 == unspecified_v4() {
        match first_in_range(ips, 1) {
            Some(a) => a,
            None => c1,
        }
    } else {
        c1
    };
    if c2 == unspecified_v4() {
        match first_in_range(ips, 2) {
            Some(a) => a,
            None => c2,
        }
    } else {
        c2
    }
}

/// The address chosen after going through the interfaces in order.
pub open spec fn chosen_bind_address(ifaces: Seq<Seq<IpAddress>>) -> V4Octets
    decreases ifaces.len(),
{
    if ifaces.len() == 0 {
        unspecified_v4()
    } else {
        interface_step(chosen_bind_address(ifaces.drop_last()), ifaces.last())
    }
}

fn in_range_exec(a: V4Octets, range: u8) -> (b: bool)
    ensures
        b == in_range(a, range as int),
{
    if range == 0 {
        a.0 == 192 && a.1 == 168
    } else if range == 1 {
        a.0 == 172 && 16 <= a.1 && a.1 <= 31
    } else {
        a.0 == 10
    }
}

fn find_in_range(ips: &Vec<IpAddress>, range: u8) -> (r: Option<V4Octets>)
    ensures
        r == first_in_range(ips@, range as int),
{
    let n = ips.len();
    let mut i: usize = 0;
    assert(ips@.skip(0) == ips@);
    while i < n
        invariant
            n == ips@.len(),
            i <= n,
            first_in_range(ips@.skip(i as int), range as int) == first_in_range(ips@, range as int),
        decreases n - i,
    {
        assert(ips@.skip(i as int).skip(1) == ips@.skip(i + 1));
        assert(ips@.skip(i as int)[0] == ips@[i as int]);
        match ips[i] {
            IpAddress::V4(a) => {
                if in_range_exec(a, range) {
                    return Some(a);
                }
            },
            IpAddress::V6(_) => {},
        }
        i = i + 1;
    }
    None
}

/// The IPv4 address to join the multicast group on and bind to, given the
/// addresses of each network interface in order.  The 192.168/16 range is
/// preferred, then 172.16/12, then 10/8; with none of them it is `0.0.0.0`.
pub fn choose_bind_address(interfaces: &Vec<Vec<IpAddress>>) -> (r: V4Octets)
    ensures
        r == chosen_bind_address(interfaces@.map_values(|v: Vec<IpAddress>| v@)),
{
    let ghost ifs = interfaces@.map_values(|v: Vec<IpAddress>| v@);
    let mut chosen = V4Octets(0, 0, 0, 0);
    let n = interfaces.len();
    for k in 0..n
        invariant
            n == interfaces@.len(),
            ifs == interfaces@.map_values(|v: Vec<IpAddress>| v@),
            chosen == chosen_bind_address(ifs.take(k as int)),
    {
        let ips = &interfaces[k];
        assert(ifs.take(k + 1).drop_last() == ifs.take(k as int));
        assert(ifs.take(k + 1).last() == ips@);
        match find_in_range(ips, 0) {
            Some(a) => {
                chosen = a;
            },
            None => {},
        }
        if chosen == V4Octets(0, 0, 0, 0) {
            match find_in_range(ips, 1) {
                Some(a) => {
                    chosen = a;
                },
                None => {},
            }
        }
        if chosen == V4Octets(0, 0, 0, 0) {
            match find_in_range(ips, 2) {
                Some(a) => {
                    chosen = a;
                },
                None => {},
            }
        }
    }
    assert(ifs.take(n as int) == ifs);
    chosen
}

/// The LocalSend multicast group, `224.0.0.167`.
pub fn multicast_group() -> (r: V4Octets)
    ensures
        r == V4Octets(224, 0, 0, 167),
{
    V4Octets(224, 0, 0, 167)
}


/// An address of one of the other private ranges than 10/8.
pub open spec fn in_192_or_172(ip: IpAddress) -> bool {
    ip matches IpAddress::V4(a) && ((a.0 == 192 && a.1 == 168) || (a.0 == 172 && 16 <= a.1 <= 31))
}

/// An IPv4 address whose first octet is 10.
pub open spec fn first_octet_10(ip: IpAddress) -> bool {
    ip matches IpAddress::V4(a) && a.0 == 10
}

proof fn lemma_first_in_range_none(ips: Seq<IpAddress>, range: int)
    requires
        forall|y: int| 0 <= y < ips.len() ==> !(#[trigger] ips[y] matches IpAddress::V4(a) && in_range(a, range)),
    ensures
        first_in_range(ips, range) is None,
    decreases ips.len(),
{
    if ips.len() > 0 {
        assert forall|y: int| 0 <= y < ips.skip(1).len() implies !(#[trigger] ips.skip(1)[y] matches IpAddress::V4(a)
            && in_range(a, range)) by {
            assert(ips.skip(1)[y] == ips[y + 1]);
        }
        lemma_first_in_range_none(ips.skip(1), range);
        assert(!(ips[0] matches IpAddress::V4(a) && in_range(a, range)));
    }
}

proof fn lemma_first_in_range_at(ips: Seq<IpAddress>, range: int, j: int)
    requires
        0 <= j < ips.len(),
        ips[j] matches IpAddress::V4(a) && in_range(a, range),
        forall|y: int| 0 <= y < j ==> !(#[trigger] ips[y] matches IpAddress::V4(a) && in_range(a, range)),
    ensures
        first_in_range(ips, range) == Some(ips[j]->V4_0),
    decreases j,
{
    if j > 0 {
        assert(!(ips[0] matches IpAddress::V4(a) && in_range(a, range)));
        assert forall|y: int| 0 <= y < j - 1 implies !(#[trigger] ips.skip(1)[y] matches IpAddress::V4(a) && in_range(a, range)) by {
            assert(ips.skip(1)[y] == ips[y + 1]);
        }
        assert(ips.skip(1)[j - 1] == ips[j]);
        lemma_first_in_range_at(ips.skip(1), range, j - 1);
    }
}

proof fn lemma_nothing_private_chooses_nothing(ifs: Seq<Seq<IpAddress>>)
    requires
        forall|x: int, y: int|
            0 <= x < ifs.len() && 0 <= y < ifs[x].len() ==> !in_192_or_172(#[trigger] ifs[x][y])
                && !first_octet_10(ifs[x][y]),
    ensures
        chosen_bind_address(ifs) == unspecified_v4(),
    decreases ifs.len(),
{
    if ifs.len() > 0 {
        let last = ifs.last();
        assert forall|x: int, y: int|
            0 <= x < ifs.drop_last().len() && 0 <= y < ifs.drop_last()[x].len() implies !in_192_or_172(
                #[trigger] ifs.drop_last()[x][y],
            ) && !first_octet_10(ifs.drop_last()[x][y]) by {
            assert(ifs.drop_last()[x] == ifs[x]);
            assert(ifs[x][y] == ifs.drop_last()[x][y]);
        }
        lemma_nothing_private_chooses_nothing(ifs.drop_last());
        assert forall|y: int| 0 <= y < last.len() implies !(#[trigger] last[y] matches IpAddress::V4(a) && in_range(a, 0)) by {
            assert(last[y] == ifs[ifs.len() - 1][y]);
        }
        assert forall|y: int| 0 <= y < last.len() implies !(#[trigger] last[y] matches IpAddress::V4(a) && in_range(a, 1)) by {
            assert(last[y] == ifs[ifs.len() - 1][y]);
        }
        assert forall|y: int| 0 <= y < last.len() implies !(#[trigger] last[y] matches IpAddress::V4(a) && in_range(a, 2)) by {
            assert(last[y] == ifs[ifs.len() - 1][y]);
        }
        lemma_first_in_range_none(last, 0);
        lemma_first_in_range_none(last, 1);
        lemma_first_in_range_none(last, 2);
    }
}

/// Without any 192.168/16 or 172.16/12 address, the multicast socket binds
/// to the first address, in interface order, whose first octet is 10
/// (10/8 holds every such address, whatever its other octets).
pub proof fn law_ten_net_is_chosen_without_other_private_ranges(ifs: Seq<Seq<IpAddress>>, i: int, j: int)
    requires
        forall|x: int, y: int| 0 <= x < ifs.len() && 0 <= y < ifs[x].len() ==> !in_192_or_172(#[trigger] ifs[x][y]),
        0 <= i < ifs.len(),
        0 <= j < ifs[i].len(),
        first_octet_10(ifs[i][j]),
        forall|x: int, y: int|
            ((0 <= x < i && 0 <= y < ifs[x].len()) || (x == i && 0 <= y < j)) ==> !first_octet_10(
                #[trigger] ifs[x][y],
            ),
    ensures
        IpAddress::V4(chosen_bind_address(ifs)) == ifs[i][j],
    decreases ifs.len(),
{
    let last = ifs.last();
    let pre = ifs.drop_last();
    assert forall|y: int| 0 <= y < last.len() implies !(#[trigger] last[y] matches IpAddress::V4(a) && in_range(a, 0)) by {
        assert(last[y] == ifs[ifs.len() - 1][y]);
        assert(!in_192_or_172(ifs[ifs.len() - 1][y]));
    }
    lemma_first_in_range_none(last, 0);
    if i == ifs.len() - 1 {
        assert forall|x: int, y: int|
            0 <= x < pre.len() && 0 <= y < pre[x].len() implies !in_192_or_172(#[trigger] pre[x][y])
                && !first_octet_10(pre[x][y]) by {
            assert(pre[x] == ifs[x]);
            assert(ifs[x][y] == pre[x][y]);
        }
        lemma_nothing_private_chooses_nothing(pre);
        assert forall|y: int| 0 <= y < last.len() implies !(#[trigger] last[y] matches IpAddress::V4(a) && in_range(a, 1)) by {
            assert(last[y] == ifs[ifs.len() - 1][y]);
            assert(!in_192_or_172(ifs[ifs.len() - 1][y]));
        }
        lemma_first_in_range_none(last, 1);
        assert forall|y: int| 0 <= y < j implies !(#[trigger] last[y] matches IpAddress::V4(a) && in_range(a, 2)) by {
            assert(last[y] == ifs[i][y]);
            assert(!first_octet_10(ifs[i][y]));
        }
        assert(last[j] == ifs[i][j]);
        lemma_first_in_range_at(last, 2, j);
    } else {
        assert forall|x: int, y: int| 0 <= x < pre.len() && 0 <= y < pre[x].len() implies !in_192_or_172(#[trigger] pre[x][y]) by {
            assert(pre[x] == ifs[x]);
            assert(ifs[x][y] == pre[x][y]);
        }
        assert forall|x: int, y: int|
            ((0 <= x < i && 0 <= y < pre[x].len()) || (x == i && 0 <= y < j)) implies !first_octet_10(
                #[trigger] pre[x][y],
            ) by {
            assert(pre[x] == ifs[x]);
            assert(ifs[x][y] == pre[x][y]);
        }
        assert(pre[i] == ifs[i]);
        law_ten_net_is_chosen_without_other_private_ranges(pre, i, j);
    }
}

/// An address of 192.168/16.
pub open spec fn in_192_168_block(ip: IpAddress) -> bool {
    ip matches IpAddress::V4(a) && a.0 == 192 && a.1 == 168
}

/// An address of 172.16/12: 172.16.0.0 to 172.31.255.255.
pub open spec fn in_172_16_block(ip: IpAddress) -> bool {
    ip matches IpAddress::V4(a) && a.0 == 172 && 16 <= a.1 <= 31
}

/// A 192.168/16 address wins: the socket binds to the first 192.168/16
/// address of the last interface that has one, whatever the others hold.
pub proof fn law_192_168_is_preferred(ifs: Seq<Seq<IpAddress>>, i: int, j: int)
    requires
        0 <= i < ifs.len(),
        0 <= j < ifs[i].len(),
        in_192_168_block(ifs[i][j]),
        forall|y: int| 0 <= y < j ==> !in_192_168_block(#[trigger] ifs[i][y]),
        forall|x: int, y: int| i < x < ifs.len() && 0 <= y < ifs[x].len() ==> !in_192_168_block(#[trigger] ifs[x][y]),
    ensures
        IpAddress::V4(chosen_bind_address(ifs)) == ifs[i][j],
    decreases ifs.len(),
{
    let last = ifs.last();
    let pre = ifs.drop_last();
    if i == ifs.len() - 1 {
        assert forall|y: int| 0 <= y < j implies !(#[trigger] last[y] matches IpAddress::V4(a) && in_range(a, 0)) by {
            assert(last[y] == ifs[i][y]);
        }
        assert(last[j] == ifs[i][j]);
        lemma_first_in_range_at(last, 0, j);
    } else {
        assert forall|y: int| 0 <= y < last.len() implies !(#[trigger] last[y] matches IpAddress::V4(a) && in_range(a, 0)) by {
            assert(last[y] == ifs[ifs.len() - 1][y]);
            assert(!in_192_168_block(ifs[ifs.len() - 1][y]));
        }
        lemma_first_in_range_none(last, 0);
        assert forall|y: int| 0 <= y < j implies !in_192_168_block(#[trigger] pre[i][y]) by {
            assert(pre[i] == ifs[i]);
        }
        assert forall|x: int, y: int| i < x < pre.len() && 0 <= y < pre[x].len() implies !in_192_168_block(#[trigger] pre[x][y]) by {
            assert(pre[x] == ifs[x]);
            assert(ifs[x][y] == pre[x][y]);
        }
        assert(pre[i] == ifs[i]);
        law_192_168_is_preferred(pre, i, j);
    }
}

/// Without any 192.168/16 address, the first interface that holds a
/// 172.16/12 or 10/8 address decides; when it holds a 172.16/12 address, the
/// socket binds to its first one.
pub proof fn law_172_16_is_next(ifs: Seq<Seq<IpAddress>>, i: int, j: int)
    requires
        forall|x: int, y: int| 0 <= x < ifs.len() && 0 <= y < ifs[x].len() ==> !in_192_168_block(#[trigger] ifs[x][y]),
        0 <= i < ifs.len(),
        0 <= j < ifs[i].len(),
        in_172_16_block(ifs[i][j]),
        forall|y: int| 0 <= y < j ==> !in_172_16_block(#[trigger] ifs[i][y]),
        forall|x: int, y: int|
            0 <= x < i && 0 <= y < ifs[x].len() ==> !in_172_16_block(#[trigger] ifs[x][y]) && !first_octet_10(ifs[x][y]),
    ensures
        IpAddress::V4(chosen_bind_address(ifs)) == ifs[i][j],
    decreases ifs.len(),
{
    let last = ifs.last();
    let pre = ifs.drop_last();
    assert forall|y: int| 0 <= y < last.len() implies !(#[trigger] last[y] matches IpAddress::V4(a) && in_range(a, 0)) by {
        assert(last[y] == ifs[ifs.len() - 1][y]);
        assert(!in_192_168_block(ifs[ifs.len() - 1][y]));
    }
    lemma_first_in_range_none(last, 0);
    if i == ifs.len() - 1 {
        assert forall|x: int, y: int|
            0 <= x < pre.len() && 0 <= y < pre[x].len() implies !in_192_or_172(#[trigger] pre[x][y])
                && !first_octet_10(pre[x][y]) by {
            assert(pre[x] == ifs[x]);
            assert(ifs[x][y] == pre[x][y]);
            assert(!in_192_168_block(ifs[x][y]));
            assert(!in_172_16_block(ifs[x][y]));
        }
        lemma_nothing_private_chooses_nothing(pre);
        assert forall|y: int| 0 <= y < j implies !(#[trigger] last[y] matches IpAddress::V4(a) && in_range(a, 1)) by {
            assert(last[y] == ifs[i][y]);
            assert(!in_172_16_block(ifs[i][y]));
        }
        assert(last[j] == ifs[i][j]);
        lemma_first_in_range_at(last, 1, j);
    } else {
        assert forall|x: int, y: int| 0 <= x < pre.len() && 0 <= y < pre[x].len() implies !in_192_168_block(#[trigger] pre[x][y]) by {
            assert(pre[x] == ifs[x]);
            assert(ifs[x][y] == pre[x][y]);
        }
        assert forall|y: int| 0 <= y < j implies !in_172_16_block(#[trigger] pre[i][y]) by {
            assert(pre[i] == ifs[i]);
        }
        assert forall|x: int, y: int|
            0 <= x < i && 0 <= y < pre[x].len() implies !in_172_16_block(#[trigger] pre[x][y]) && !first_octet_10(pre[x][y]) by {
            assert(pre[x] == ifs[x]);
            assert(ifs[x][y] == pre[x][y]);
        }
        assert(pre[i] == ifs[i]);
        law_172_16_is_next(pre, i, j);
    }
}
} // verus!
