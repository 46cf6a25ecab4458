//! What the app's commands compute around their I/O: the greeting, the file
//! server switch, the file picker's answer, the addresses the file server is
//! reachable at, the OAuth listener's settings and the self-signed certificate.
use vstd::prelude::*;
use crate::net::{ip_text, IpAddress};
use crate::text::{concat3, push_str};

verus! {

broadcast use vstd::string::group_string_axioms;

/// The greeting of the `greet` command.
pub fn greet(name: &str) -> (s: String)
    ensures
        s@ == "Hello, "@ + name@ + "! You've been greeted from Rust!"@,
{
    concat3("Hello, ", name, "! You've been greeted from Rust!")
}

/// What toggling the file server does.
#[derive(Clone, Copy, Debug, PartialEq, Eq, Structural)]
pub enum ServerToggle {
    /// Send the shutdown signal to the running server.
    Stop,
    /// Start a server and keep its shutdown handle.
    Start,
}

/// What a toggle does to a server that runs or not: whether it runs after,
/// and the action taken.
pub open spec fn spec_toggle(running: bool) -> (bool, ServerToggle) {
    if running {
        (false, ServerToggle::Stop)
    } else {
        (true, ServerToggle::Start)
    }
}

/// Whether the file server runs.
pub struct ServerSwitch {
    running: bool,
}

impl ServerSwitch {
    pub closed spec fn spec_running(&self) -> bool {
        self.running
    }

    /// A switch for a server that does not run.
    pub fn new() -> (s: Self)
        ensures
            !s.spec_running(),
    {
        ServerSwitch { running: false }
    }

    /// Toggles the server: a running one is stopped (`stopped`), otherwise
    /// one is started (`started`).
    pub fn toggle(&mut self) -> (r: (ServerToggle, Result<String, String>))
        ensures
            (final(self).spec_running(), r.0) == spec_toggle(old(self).spec_running()),
            old(self).spec_running() ==> r.0 == ServerToggle::Stop,
            old(self).spec_running() ==> (r.1 matches Ok(t) && t@ == "stopped"@),
            !old(self).spec_running() ==> r.0 == ServerToggle::Start,
            !old(self).spec_running() ==> (r.1 matches Ok(t) && t@ == "started"@),
    {
        if self.running {
            self.running = false;
            (ServerToggle::Stop, Ok("stopped".to_owned()))
        } else {
            self.running = true;
            (ServerToggle::Start, Ok("started".to_owned()))
        }
    }
}

/// Toggling twice leaves the server as it was, and the two toggles do
/// opposite things: one starts it, the other stops it.
pub proof fn law_toggle_twice(running: bool)
    ensures
        spec_toggle(spec_toggle(running).0).0 == running,
        spec_toggle(spec_toggle(running).0).1 != spec_toggle(running).1,
{
}

/// The file picker's answer: canceled without a file, else the MIME type of
/// the last file picked.
pub fn picker_reply(mime_types: &Vec<String>) -> (r: Result<String, String>)
    ensures
        mime_types@.len() == 0 ==> (r matches Err(e) && e@ == "File picker canceled"@),
        mime_types@.len() > 0 ==> (r matches Ok(t) && t@ == "File type: "@
            + mime_types@.last()@),
{
    if mime_types.len() == 0 {
        Err("File picker canceled".to_owned())
    } else {
        let mut t = "File type: ".to_owned();
        push_str(&mut t, mime_types[mime_types.len() - 1].as_str());
        Ok(t)
    }
}

/// Where the file server listens.
pub enum BindAddr {
    IpAddr(IpAddress),
    SocketPath(String),
}

/// The URL shown for one listening address: IPv4 addresses in full, IPv6
/// ones without the address; a socket path as it is.
pub open spec fn spec_bind_url(addr: BindAddr, tls: bool, uri_prefix: Seq<char>) -> Seq<char> {
    let protocol = if tls {
        "https"@
    } else {
        "http"@
    };
    match addr {
        BindAddr::IpAddr(IpAddress::V4(a)) => protocol + "://"@ + ip_text(IpAddress::V4(a)) + uri_prefix,
        BindAddr::IpAddr(IpAddress::V6(_)) => protocol + "://"@ + uri_prefix,
        BindAddr::SocketPath(p) => p@,
    }
}

/// The shown URLs of the addresses, in order, leaving out empty ones.
pub open spec fn spec_nic_urls(addrs: Seq<BindAddr>, tls: bool, uri_prefix: Seq<char>) -> Seq<Seq<char>>
    decreases addrs.len(),
{
    if addrs.len() == 0 {
        Seq::empty()
    } else {
        let rest = spec_nic_urls(addrs.drop_last(), tls, uri_prefix);
        let u = spec_bind_url(addrs.last(), tls, uri_prefix);
        if u.len() == 0 {
            rest
        } else {
            rest.push(u)
        }
    }
}

fn bind_url(addr: &BindAddr, tls: bool, uri_prefix: &str) -> (u: String)
    ensures
        u@ == spec_bind_url(*addr, tls, uri_prefix@),
{
    let protocol = if tls {
        "https"
    } else {
        "http"
    };
    match addr {
        BindAddr::IpAddr(IpAddress::V4(a)) => {
            let mut u = protocol.to_owned();
            push_str(&mut u, "://");
            let t = IpAddress::V4(*a).to_text();
            push_str(&mut u, t.as_str());
            push_str(&mut u, uri_prefix);
            u
        },
        BindAddr::IpAddr(IpAddress::V6(_)) => concat3(protocol, "://", uri_prefix),
        BindAddr::SocketPath(p) => p.clone(),
    }
}

/// The URLs the file server is reachable at.
pub fn nic_urls(addrs: &Vec<BindAddr>, tls: bool, uri_prefix: &str) -> (urls: Vec<String>)
    ensures
        urls@.map_values(|u: String| u@) == spec_nic_urls(addrs@, tls, uri_prefix@),
{
    let mut urls: Vec<String> = Vec::new();
    let n = addrs.len();
    for i in 0..n
        invariant
            n == addrs@.len(),
            urls@.map_values(|u: String| u@) == spec_nic_urls(addrs@.take(i as int), tls, uri_prefix@),
    {
        let ghost before = urls@.map_values(|u: String| u@);
        assert(addrs@.take(i + 1).drop_last() == addrs@.take(i as int));
        assert(addrs@.take(i + 1).last() == addrs@[i as int]);
        let u = bind_url(&addrs[i], tls, uri_prefix);
        if u.as_str().is_empty() {
            assert(urls@.map_values(|u: String| u@) == before);
        } else {
            urls.push(u);
            assert(urls@.map_values(|u: String| u@) == before.push(spec_bind_url(addrs@[i as int], tls, uri_prefix@)));
        }
    }
    assert(addrs@.take(n as int) == addrs@);
    urls
}

/// The ports the OAuth callback listener tries, in order.
pub fn oauth_ports() -> (ports: Vec<u16>)
    ensures
        ports@ == seq![4810u16, 4811u16, 4812u16],
{
    let mut ports: Vec<u16> = Vec::new();
    ports.push(4810);
    ports.push(4811);
    ports.push(4812);
    ports
}

/// The page the OAuth callback answers with.
pub fn oauth_response() -> (s: String)
    ensures
        s@ == "Login successful. You can close this window."@,
{
    "Login successful. You can close this window.".to_owned()
}

/// The answer of the Android storage permission request, whatever was granted.
pub fn permission_reply() -> (r: Result<String, String>)
    ensures
        r matches Ok(t) && t@ == "done"@,
{
    Ok("done".to_owned())
}

#[verifier::external_type_specification]
#[verifier::external_body]
pub struct ExCertificate(rcgen::Certificate);

#[verifier::external_type_specification]
#[verifier::external_body]
pub struct ExKeyPair(rcgen::KeyPair);

/// Whether a text could be read as an IP address: it holds only hexadecimal
/// digits, colons and dots (the characters of IPv4 and IPv6 text).  A name
/// with any other character is never an IP address.
pub open spec fn may_be_ip_text(s: Seq<char>) -> bool {
    forall|i: int|
        0 <= i < s.len() ==> {
            let c = #[trigger] s[i];
            ('0' <= c && c <= '9') || ('a' <= c && c <= 'f') || ('A' <= c && c <= 'F') || c == ':'
                || c == '.'
        }
}

/// `needle` occurs in `hay` as a contiguous run of bytes.
pub open spec fn holds_run(hay: Seq<u8>, needle: Seq<u8>) -> bool {
    exists|i: int| 0 <= i && i + needle.len() <= hay.len() && #[trigger] hay.subrange(i, i + needle.len()) == needle
}

/// Trusted: `rcgen::generate_simple_self_signed` with the given subject
/// alternative names; with the certificate, its key pair, the certificate's
/// subject alternative names read back through `Certificate::params()` (the
/// DNS name's text for a DNS name, nothing for another kind), the
/// certificate's DER (`Certificate::der`) and the key pair's public key DER
/// (`KeyPair::public_key_der`).  rcgen makes one name per given text, in
/// order: a DNS name holding the text, unless the text parses as an IP
/// address; and it writes the key pair's public key DER into the
/// certificate as its subject public key info.  The key is random, so
/// nothing else is said of them; an error comes back as nothing.
#[verifier::external_body]
fn self_signed(
    subject_alt_names: Vec<String>,
) -> (r: Option<(rcgen::Certificate, rcgen::KeyPair, Vec<Option<String>>, Vec<u8>, Vec<u8>)>)
    ensures
        r matches Some((_, _, sans, der, public_key)) ==> {
            &&& sans@.len() == subject_alt_names@.len()
            &&& forall|i: int| 0 <= i < sans@.len() ==> (#[trigger] sans@[i] matches Some(n) ==> n@ == subject_alt_names@[i]@)
            &&& forall|i: int|
                0 <= i < sans@.len() && !may_be_ip_text(subject_alt_names@[i]@) ==> #[trigger] sans@[i] is Some
            &&& holds_run(der@, public_key@)
        },
{
    match rcgen::generate_simple_self_signed(subject_alt_names) {
        Ok(ck) => {
            let sans = ck.cert.params().subject_alt_names.iter().map(|san| match san {
                rcgen::SanType::DnsName(n) => Some(n.as_str().to_owned()),
                _ => None,
            }).collect();
            let (der, public_key) = (ck.cert.der().to_vec(), ck.key_pair.public_key_der());
            Some((ck.cert, ck.key_pair, sans, der, public_key))
        },
        Err(_) => None,
    }
}

/// A self-signed certificate with its key pair, the DNS names the
/// certificate holds (in order), the certificate's DER, and the DER of the
/// key pair's public key.
pub struct CertifiedKey {
    pub cert: rcgen::Certificate,
    pub key_pair: rcgen::KeyPair,
    pub dns_names: Vec<String>,
    pub cert_der: Vec<u8>,
    pub public_key_der: Vec<u8>,
}

/// The names the self-signed certificate is valid for.
pub fn cert_subject_alt_names() -> (names: Vec<String>)
    ensures
        names@.len() == 2,
        names@[0]@ == "hello.world.example"@,
        names@[1]@ == "localhost"@,
{
    let mut names: Vec<String> = Vec::new();
    names.push("hello.world.example".to_owned());
    names.push("localhost".to_owned());
    names
}

/// A fresh self-signed certificate for `hello.world.example` and
/// `localhost`, with its key pair.  The key pair is random, and whether rcgen
/// succeeds is rcgen's to decide (`None` when it fails); a certificate that
/// comes back holds exactly the two names, in that order, and carries the
/// returned key pair's public key.
pub fn generate_cert_key() -> (r: Option<CertifiedKey>)
    ensures
        r matches Some(ck) ==> {
            &&& ck.dns_names@.len() == 2
            &&& ck.dns_names@[0]@ == "hello.world.example"@
            &&& ck.dns_names@[1]@ == "localhost"@
            &&& holds_run(ck.cert_der@, ck.public_key_der@)
        },
{
    let wanted = cert_subject_alt_names();
    proof {
        reveal_strlit("hello.world.example");
        reveal_strlit("localhost");
        assert(!may_be_ip_text(wanted@[0]@)) by {
            assert(wanted@[0]@[0] == 'h');
        }
        assert(!may_be_ip_text(wanted@[1]@)) by {
            assert(wanted@[1]@[0] == 'l');
        }
    }
    let ghost w = wanted@;
    match self_signed(wanted) {
        None => None,
        Some((cert, key_pair, sans, cert_der, public_key_der)) => {
            let mut names: Vec<String> = Vec::new();
            let n = sans.len();
            for i in 0..n
                invariant
                    n == sans@.len(),
                    n == w.len(),
                    names@.len() == i,
                    forall|j: int| 0 <= j < i ==> #[trigger] names@[j]@ == w[j]@,
                    forall|j: int| 0 <= j < n ==> (#[trigger] sans@[j] matches Some(m) ==> m@ == w[j]@),
                    forall|j: int| 0 <= j < n && !may_be_ip_text(w[j]@) ==> #[trigger] sans@[j] is Some,
                    !may_be_ip_text(w[0]@),
                    !may_be_ip_text(w[1]@),
                    w.len() == 2,
            {
                match &sans[i] {
                    Some(name) => names.push(name.clone()),
                    None => {
                        assert(sans@[i as int] is Some);
                    },
                }
            }
            Some(CertifiedKey { cert, key_pair, dns_names: names, cert_der, public_key_der })
        },
    }
}

} // verus!
