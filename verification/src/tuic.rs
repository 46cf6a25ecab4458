//! Configuration of the TUIC client: relay modes, congestion controls, the
//! server address, the SOCKS5 listener's authentication, and which DER
//! certificates the root store is built from.
use vstd::prelude::*;
use crate::net::{IpAddress, SocketAddress};
use crate::text::{ascii_lower_seq, eq_ignore_ascii_case};

verus! {

/// How UDP packets are relayed.
#[derive(Clone, Copy, Debug, PartialEq, Eq, Structural)]
pub enum UdpRelayMode {
    Native,
    Quic,
}

/// The relay mode a text names, ignoring ASCII case.
pub open spec fn spec_udp_relay_mode(s: Seq<char>) -> Option<UdpRelayMode> {
    if ascii_lower_seq(s) == ascii_lower_seq("native"@) {
        Some(UdpRelayMode::Native)
    } else if ascii_lower_seq(s) == ascii_lower_seq("quic"@) {
        Some(UdpRelayMode::Quic)
    } else {
        None
    }
}

impl UdpRelayMode {
    /// Reads a relay mode; anything else is `invalid UDP relay mode`.
    pub fn parse(s: &str) -> (r: Result<UdpRelayMode, &'static str>)
        ensures
            match r {
                Ok(m) => spec_udp_relay_mode(s@) == Some(m),
                Err(e) => spec_udp_relay_mode(s@) is None && e@ == "invalid UDP relay mode"@,
            },
    {
        if eq_ignore_ascii_case(s, "native") {
            Ok(UdpRelayMode::Native)
        } else if eq_ignore_ascii_case(s, "quic") {
            Ok(UdpRelayMode::Quic)
        } else {
            Err("invalid UDP relay mode")
        }
    }
}

impl std::str::FromStr for UdpRelayMode {
    type Err = &'static str;

    fn from_str(s: &str) -> (r: Result<Self, Self::Err>)
        ensures
            match r {
                Ok(m) => spec_udp_relay_mode(s@) == Some(m),
                Err(e) => spec_udp_relay_mode(s@) is None && e@ == "invalid UDP relay mode"@,
            },
    {
        UdpRelayMode::parse(s)
    }
}

/// The congestion control algorithm.
#[derive(Clone, Copy, Debug, PartialEq, Eq, Structural)]
pub enum CongestionControl {
    Cubic,
    NewReno,
    Bbr,
}

/// The algorithm a text names, ignoring ASCII case; `new_reno` and `newreno`
/// both name New Reno.
pub open spec fn spec_congestion_control(s: Seq<char>) -> Option<CongestionControl> {
    if ascii_lower_seq(s) == ascii_lower_seq("cubic"@) {
        Some(CongestionControl::Cubic)
    } else if ascii_lower_seq(s) == ascii_lower_seq("new_reno"@) || ascii_lower_seq(s)
        == ascii_lower_seq("newreno"@) {
        Some(CongestionControl::NewReno)
    } else if ascii_lower_seq(s) == ascii_lower_seq("bbr"@) {
        Some(CongestionControl::Bbr)
    } else {
        None
    }
}

impl CongestionControl {
    /// Reads an algorithm; anything else is `invalid congestion control`.
    pub fn parse(s: &str) -> (r: Result<CongestionControl, &'static str>)
        ensures
            match r {
                Ok(c) => spec_congestion_control(s@) == Some(c),
                Err(e) => spec_congestion_control(s@) is None && e@ == "invalid congestion control"@,
            },
    {
        if eq_ignore_ascii_case(s, "cubic") {
            Ok(CongestionControl::Cubic)
        } else if eq_ignore_ascii_case(s, "new_reno") || eq_ignore_ascii_case(s, "newreno") {
            Ok(CongestionControl::NewReno)
        } else if eq_ignore_ascii_case(s, "bbr") {
            Ok(CongestionControl::Bbr)
        } else {
            Err("invalid congestion control")
        }
    }
}

impl std::str::FromStr for CongestionControl {
    type Err = &'static str;

    fn from_str(s: &str) -> (r: Result<Self, Self::Err>)
        ensures
            match r {
                Ok(c) => spec_congestion_control(s@) == Some(c),
                Err(e) => spec_congestion_control(s@) is None && e@ == "invalid congestion control"@,
            },
    {
        CongestionControl::parse(s)
    }
}

/// Texts that differ only in the case of ASCII letters name the same relay
/// mode and the same congestion control.
pub proof fn law_names_ignore_ascii_case(s: Seq<char>, t: Seq<char>)
    requires
        ascii_lower_seq(s) == ascii_lower_seq(t),
    ensures
        spec_udp_relay_mode(s) == spec_udp_relay_mode(t),
        spec_congestion_control(s) == spec_congestion_control(t),
{
}

/// The server to connect to: a domain and port, and optionally a fixed IP.
pub struct ServerAddr {
    domain: String,
    port: u16,
    ip: Option<IpAddress>,
}

impl ServerAddr {
    pub closed spec fn spec_domain(&self) -> Seq<char> {
        self.domain@
    }

    pub closed spec fn spec_port(&self) -> u16 {
        self.port
    }

    pub closed spec fn spec_ip(&self) -> Option<IpAddress> {
        self.ip
    }

    pub fn new(domain: String, port: u16, ip: Option<IpAddress>) -> (a: Self)
        ensures
            a.spec_domain() == domain@,
            a.spec_port() == port,
            a.spec_ip() == ip,
    {
        ServerAddr { domain, port, ip }
    }

    /// The name the TLS handshake checks.
    pub fn server_name(&self) -> (s: &str)
        ensures
            s@ == self.spec_domain(),
    {
        self.domain.as_str()
    }

    /// The port to connect to.
    pub fn port(&self) -> (p: u16)
        ensures
            p == self.spec_port(),
    {
        self.port
    }

    /// The addresses to connect to when the IP is fixed; without one the
    /// domain has to be looked up.
    pub fn fixed_addrs(&self) -> (r: Option<Vec<SocketAddress>>)
        ensures
            match self.spec_ip() {
                Some(ip) => r matches Some(v) && v@ == seq![SocketAddress::spec_new(ip, self.spec_port())],
                None => r is None,
            },
    {
        match self.ip {
            Some(ip) => {
                let mut v: Vec<SocketAddress> = Vec::new();
                v.push(SocketAddress::new(ip, self.port));
                Some(v)
            },
            None => None,
        }
    }
}

/// How the local SOCKS5 server authenticates clients.
pub enum Socks5Auth {
    NoAuth,
    Password { username: Vec<u8>, password: Vec<u8> },
}

/// The SOCKS5 configuration gives one of a username and a password without the other.
#[derive(Debug, PartialEq, Eq, Structural)]
pub enum Socks5ConfigError {
    InvalidSocks5Auth,
}

/// The authentication of the SOCKS5 server: none without credentials, a
/// password with both a username and a password, an error with only one.
pub fn socks5_auth(username: Option<Vec<u8>>, password: Option<Vec<u8>>) -> (r: Result<Socks5Auth, Socks5ConfigError>)
    ensures
        (username is None && password is None) <==> r matches Ok(Socks5Auth::NoAuth),
        (username is Some && password is Some) <==> r matches Ok(Socks5Auth::Password { .. }),
        r matches Ok(Socks5Auth::Password { username: u, password: p }) ==> u@ == username->0@
            && p@ == password->0@,
        (username is Some != password is Some) <==> r == Err::<Socks5Auth, Socks5ConfigError>(
            Socks5ConfigError::InvalidSocks5Auth,
        ),
{
    match (username, password) {
        (None, None) => Ok(Socks5Auth::NoAuth),
        (Some(u), Some(p)) => Ok(Socks5Auth::Password { username: u, password: p }),
        _ => Err(Socks5ConfigError::InvalidSocks5Auth),
    }
}

/// The listener socket's `IPV6_V6ONLY` setting: the opposite of the
/// dual-stack option, and left alone without it.
pub fn socks5_only_v6(dual_stack: Option<bool>) -> (r: Option<bool>)
    ensures
        match dual_stack {
            Some(d) => r == Some(!d),
            None => r is None,
        },
{
    match dual_stack {
        Some(d) => Some(!d),
        None => None,
    }
}

/// What the local SOCKS5 server keeps besides its listener: the dual-stack
/// option, the largest UDP packet it relays, and the id the next UDP
/// association gets (ids start at 0 and wrap around after 65535).
pub struct Socks5Settings {
    dual_stack: Option<bool>,
    max_pkt_size: usize,
    next_assoc_id: u16,
}

impl Socks5Settings {
    pub closed spec fn spec_dual_stack(&self) -> Option<bool> {
        self.dual_stack
    }

    pub closed spec fn spec_max_pkt_size(&self) -> usize {
        self.max_pkt_size
    }

    pub closed spec fn spec_next_assoc_id(&self) -> u16 {
        self.next_assoc_id
    }

    /// The settings of a new server: no association made yet.
    pub fn new(dual_stack: Option<bool>, max_pkt_size: usize) -> (s: Self)
        ensures
            s.spec_dual_stack() == dual_stack,
            s.spec_max_pkt_size() == max_pkt_size,
            s.spec_next_assoc_id() == 0,
    {
        Socks5Settings { dual_stack, max_pkt_size, next_assoc_id: 0 }
    }

    pub fn dual_stack(&self) -> (r: Option<bool>)
        ensures
            r == self.spec_dual_stack(),
    {
        self.dual_stack
    }

    pub fn max_pkt_size(&self) -> (r: usize)
        ensures
            r == self.spec_max_pkt_size(),
    {
        self.max_pkt_size
    }

    /// The id of a new UDP association; the next one gets the following id,
    /// wrapping around from 65535 to 0.
    pub fn next_assoc_id(&mut self) -> (id: u16)
        ensures
            id == old(self).spec_next_assoc_id(),
            final(self).spec_next_assoc_id() == (old(self).spec_next_assoc_id() + 1) % 65536,
            final(self).spec_dual_stack() == old(self).spec_dual_stack(),
            final(self).spec_max_pkt_size() == old(self).spec_max_pkt_size(),
    {
        let id = self.next_assoc_id;
        self.next_assoc_id = if id == 65535 {
            0
        } else {
            id + 1
        };
        id
    }
}

proof fn lemma_assoc_counter(counters: Seq<u16>, n: int)
    requires
        0 <= n < counters.len(),
        counters[0] == 0,
        forall|i: int| 0 <= i < counters.len() - 1 ==> #[trigger] counters[i + 1] == (counters[i] + 1) % 65536,
    ensures
        counters[n] == n % 65536,
    decreases n,
{
    if n > 0 {
        lemma_assoc_counter(counters, n - 1);
        assert(counters[(n - 1) + 1] == (counters[n - 1] + 1) % 65536);
        assert(((n - 1) % 65536 + 1) % 65536 == n % 65536) by (nonlinear_arith)
            requires
                n > 0,
        ;
    }
}

/// The associations of a fresh server get the ids 0, 1, 2, ... in turn,
/// counted modulo 65536: the `i`-th gets `i mod 65536`, so no id repeats
/// among 65536 associations.  `counters` are the settings' next ids before
/// each association and after the last, `ids` the ids handed out.
pub proof fn law_assoc_ids_count_up(counters: Seq<u16>, ids: Seq<u16>)
    requires
        counters.len() == ids.len() + 1,
        counters[0] == 0,
        forall|i: int|
            0 <= i < ids.len() ==> #[trigger] ids[i] == counters[i] && counters[i + 1] == (counters[i] + 1)
                % 65536,
    ensures
        forall|i: int| 0 <= i < ids.len() ==> #[trigger] ids[i] == i % 65536,
        ids.len() <= 65536 ==> forall|i: int, j: int| 0 <= i < j < ids.len() ==> #[trigger] ids[i] != #[trigger] ids[j],
{
    assert forall|i: int| 0 <= i < counters.len() - 1 implies #[trigger] counters[i + 1] == (counters[i] + 1) % 65536 by {
        assert(ids[i] == counters[i]);
    }
    assert forall|i: int| 0 <= i < ids.len() implies #[trigger] ids[i] == i % 65536 by {
        lemma_assoc_counter(counters, i);
    }
    if ids.len() <= 65536 {
        assert forall|i: int, j: int| 0 <= i < j < ids.len() implies #[trigger] ids[i] != #[trigger] ids[j] by {
            lemma_assoc_counter(counters, i);
            lemma_assoc_counter(counters, j);
            assert(i % 65536 == i);
            assert(j % 65536 == j);
        }
    }
}

// ---------------------------------------------------------------------------
// Root certificates
// ---------------------------------------------------------------------------

/// What `rustls_pemfile` reads first from PEM text: nothing at the end or on
/// an error, else the certificate's DER (or nothing for another kind of
/// section) and the text that follows the section.
pub uninterp spec fn pem_section(input: Seq<u8>) -> Option<(Option<Seq<u8>>, Seq<u8>)>;

pub open spec fn opt_bytes(o: Option<Vec<u8>>) -> Option<Seq<u8>> {
    match o {
        Some(v) => Some(v@),
        None => None,
    }
}

/// Trusted: `rustls_pemfile::read_one_from_slice`.  A section it returns is
/// followed by the returned remainder, a proper suffix of the input, as its
/// documentation says; the PEM grammar itself is only named.
#[verifier::external_body]
fn next_pem_section<'a>(input: &'a [u8]) -> (r: Option<(Option<Vec<u8>>, &'a [u8])>)
    ensures
        match r {
            None => pem_section(input@) is None,
            Some((c, rest)) => {
                &&& pem_section(input@) == Some((opt_bytes(c), rest@))
                &&& rest@.len() < input@.len()
                &&& rest@ == input@.skip(input@.len() - rest@.len())
            },
        },
{
    match rustls_pemfile::read_one_from_slice(input) {
        Ok(Some((rustls_pemfile::Item::X509Certificate(c), rest))) => Some((Some(c.to_vec()), rest)),
        Ok(Some((_, rest))) => Some((None, rest)),
        Ok(None) => None,
        Err(_) => None,
    }
}

/// The certificates of PEM text in order, reading sections until the text
/// ends or does not parse (at most `fuel` sections).
pub open spec fn spec_pem_certificates(input: Seq<u8>, fuel: nat) -> Seq<Seq<u8>>
    decreases fuel,
{
    if fuel == 0 {
        Seq::empty()
    } else {
        match pem_section(input) {
            None => Seq::empty(),
            Some((c, rest)) => match c {
                Some(der) => seq![der] + spec_pem_certificates(rest, (fuel - 1) as nat),
                None => spec_pem_certificates(rest, (fuel - 1) as nat),
            },
        }
    }
}

/// Reading more sections than the text has bytes changes nothing: every
/// section takes at least one byte.
pub open spec fn pem_certificates_of(input: Seq<u8>) -> Seq<Seq<u8>> {
    spec_pem_certificates(input, input.len())
}

pub open spec fn der_views(v: Seq<Vec<u8>>) -> Seq<Seq<u8>> {
    v.map_values(|d: Vec<u8>| d@)
}

/// The DER certificates in PEM text.
pub fn pem_certificates(input: &[u8]) -> (certs: Vec<Vec<u8>>)
    ensures
        der_views(certs@) == pem_certificates_of(input@),
{
    let mut certs: Vec<Vec<u8>> = Vec::new();
    let mut rest: &[u8] = input;
    let ghost mut fuel: nat = input@.len();
    loop
        invariant
            fuel >= rest@.len(),
            der_views(certs@) + spec_pem_certificates(rest@, fuel) == pem_certificates_of(input@),
        decreases rest@.len(),
    {
        let ghost before = der_views(certs@);
        match next_pem_section(rest) {
            None => {
                assert(spec_pem_certificates(rest@, fuel) =~= Seq::<Seq<u8>>::empty());
                assert(der_views(certs@) == before + Seq::<Seq<u8>>::empty());
                return certs;
            },
            Some((c, next)) => {
                assert(fuel > 0);
                match c {
                    Some(der) => {
                        let ghost d = der@;
                        certs.push(der);
                        assert(der_views(certs@) == before.push(d));
                        assert(before + (seq![d] + spec_pem_certificates(next@, (fuel - 1) as nat))
                            == before.push(d) + spec_pem_certificates(next@, (fuel - 1) as nat));
                    },
                    None => {},
                }
                proof {
                    fuel = (fuel - 1) as nat;
                }
                rest = next;
            },
        }
    }
}

/// The certificates of every text, in order.
pub open spec fn all_pem_certificates(files: Seq<Seq<u8>>) -> Seq<Seq<u8>>
    decreases files.len(),
{
    if files.len() == 0 {
        Seq::empty()
    } else {
        all_pem_certificates(files.drop_last()) + pem_certificates_of(files.last())
    }
}

/// Which DER blobs the root store is built from (before the native roots):
/// the built-in client certificate when there is one, else the files; the
/// PEM certificates they hold, or else the raw bytes as one DER each.
pub open spec fn spec_root_candidates(client_cert: Seq<u8>, files: Seq<Seq<u8>>) -> Seq<Seq<u8>> {
    if client_cert.len() > 0 {
        let c = pem_certificates_of(client_cert);
        if c.len() == 0 {
            seq![client_cert]
        } else {
            c
        }
    } else {
        let c = all_pem_certificates(files);
        if c.len() == 0 {
            files
        } else {
            c
        }
    }
}

pub fn root_cert_candidates(client_cert: &[u8], files: &Vec<Vec<u8>>) -> (r: Vec<Vec<u8>>)
    ensures
        der_views(r@) == spec_root_candidates(client_cert@, der_views(files@)),
{
    if client_cert.len() > 0 {
        let c = pem_certificates(client_cert);
        if c.len() == 0 {
            let mut r: Vec<Vec<u8>> = Vec::new();
            r.push(vstd::slice::slice_to_vec(client_cert));
            assert(der_views(r@) =~= seq![client_cert@]);
            r
        } else {
            c
        }
    } else {
        let ghost fv = der_views(files@);
        let mut all: Vec<Vec<u8>> = Vec::new();
        let n = files.len();
        for i in 0..n
            invariant
                n == files@.len(),
                fv == der_views(files@),
                der_views(all@) == all_pem_certificates(fv.take(i as int)),
        {
            assert(fv.take(i + 1).drop_last() == fv.take(i as int));
            assert(fv.take(i + 1).last() == files@[i as int]@);
            let mut c = pem_certificates(files[i].as_slice());
            let ghost a = der_views(all@);
            let ghost cv = der_views(c@);
            all.append(&mut c);
            assert(der_views(all@) =~= a + cv);
        }
        assert(fv.take(n as int) == fv);
        if all.len() == 0 {
            let mut r: Vec<Vec<u8>> = Vec::new();
            for i in 0..n
                invariant
                    n == files@.len(),
                    der_views(r@) == der_views(files@).take(i as int),
            {
                r.push(files[i].clone());
                assert(der_views(files@).take(i + 1) == der_views(files@).take(i as int).push(
                    files@[i as int]@,
                ));
            }
            assert(der_views(files@).take(n as int) == der_views(files@));
            r
        } else {
            all
        }
    }
}

} // verus!
