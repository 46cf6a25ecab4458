//! The LocalSend protocol (v2.1) data types, the peer record, the chat
//! records, and the random and hashed identifiers the app hands out.
use vstd::prelude::*;
use std::collections::VecDeque;
use crate::net::SocketAddress;
use crate::strmap::StrMap;
use crate::text::{hex_byte, hex_seq, hex_encode, push_char, push_hex_byte, is_hex_char, lemma_hex_seq_len};

verus! {

/// Bytes of randomness in a device fingerprint.
pub const FINGERPRINT_LENGTH: u16 = 32;

/// Bytes of randomness in an upload session id.
pub const SESSION_LENGTH: u16 = 32;

/// Bytes of randomness in a file token.
pub const FILE_TOKEN_LENGTH: u16 = 32;

/// Bytes of randomness in a file id.
pub const FILEID_LENGTH: u16 = 32;

/// The most remote addresses kept for one peer.
pub const MAX_REMOTE_ADDRS: usize = 6;

/// A device's announcement and registration message.
pub struct Message {
    pub alias: String,
    /// protocol version (major.minor)
    pub version: String,
    pub device_model: Option<String>,
    /// mobile | desktop | web | headless | server
    pub device_type: Option<String>,
    /// ignored in HTTPS mode
    pub fingerprint: String,
    pub port: u16,
    pub protocol: String,
    /// whether the download API is active
    pub download: Option<bool>,
    pub announce: Option<bool>,
}

pub fn clone_opt_string(o: &Option<String>) -> (r: Option<String>)
    ensures
        r == *o,
{
    match o {
        Some(s) => Some(s.clone()),
        None => None,
    }
}

impl Clone for Message {
    fn clone(&self) -> (r: Self)
        ensures
            r == *self,
    {
        Message {
            alias: self.alias.clone(),
            version: self.version.clone(),
            device_model: clone_opt_string(&self.device_model),
            device_type: clone_opt_string(&self.device_type),
            fingerprint: self.fingerprint.clone(),
            port: self.port,
            protocol: self.protocol.clone(),
            download: self.download,
            announce: self.announce,
        }
    }
}

/// Query parameters of a prepare-upload request.
pub struct PrepareUploadParams {
    pin: Option<String>,
}

/// An absent or empty query value counts as absent.
pub open spec fn spec_empty_string_as_none(opt: Option<Seq<char>>) -> Option<Seq<char>> {
    match opt {
        Some(s) => if s.len() == 0 {
            None
        } else {
            Some(s)
        },
        None => None,
    }
}

pub open spec fn opt_view(o: Option<String>) -> Option<Seq<char>> {
    match o {
        Some(s) => Some(s@),
        None => None,
    }
}

/// Reads an optional query value, treating an empty one as absent.
pub fn empty_string_as_none(opt: Option<String>) -> (r: Option<String>)
    ensures
        opt_view(r) == spec_empty_string_as_none(opt_view(opt)),
{
    match opt {
        Some(s) => if s.as_str().is_empty() {
            None
        } else {
            Some(s)
        },
        None => None,
    }
}

impl PrepareUploadParams {
    pub closed spec fn spec_pin(&self) -> Option<Seq<char>> {
        opt_view(self.pin)
    }

    /// The parameters of a request whose `pin` query value is `pin`.
    pub fn from_query(pin: Option<String>) -> (p: Self)
        ensures
            p.spec_pin() == spec_empty_string_as_none(opt_view(pin)),
    {
        PrepareUploadParams { pin: empty_string_as_none(pin) }
    }

    pub fn pin(&self) -> (r: Option<String>)
        ensures
            opt_view(r) == self.spec_pin(),
    {
        clone_opt_string(&self.pin)
    }
}

/// A point in time as seconds and nanoseconds relative to the Unix epoch (the
/// seconds may be negative; the nanoseconds are added to them).
#[derive(Clone, Copy, Debug, PartialEq, Eq, Structural)]
pub struct Timestamp {
    pub secs: i64,
    pub nanos: u32,
}

/// What `chrono`'s RFC 3339 parser gives for a text: the instant as seconds
/// since the epoch and sub-second nanoseconds, or the error's message.
pub uninterp spec fn rfc3339_instant(s: Seq<char>) -> Result<(i64, u32), Seq<char>>;

/// Trusted: `chrono::DateTime::parse_from_rfc3339`, with the result's
/// `timestamp()` and `timestamp_subsec_nanos()`, or the error's text.  The
/// contract only names the result: the text format is chrono's.
#[verifier::external_body]
fn parse_rfc3339(s: &str) -> (r: Result<(i64, u32), String>)
    ensures
        match r {
            Ok(v) => rfc3339_instant(s@) == Ok::<(i64, u32), Seq<char>>(v),
            Err(e) => rfc3339_instant(s@) == Err::<(i64, u32), Seq<char>>(e@),
        },
{
    match chrono::DateTime::parse_from_rfc3339(s) {
        Ok(d) => Ok((d.timestamp(), d.timestamp_subsec_nanos())),
        Err(e) => Err(e.to_string()),
    }
}

/// The time of a LocalSend metadata field (ISO 8601 / RFC 3339, such as
/// `2024-06-06T15:25:34.000Z`): absent stays absent, a text is parsed.
pub open spec fn spec_system_time(opt: Option<Seq<char>>) -> Result<Option<Timestamp>, Seq<char>> {
    match opt {
        None => Ok(None),
        Some(s) => match rfc3339_instant(s) {
            Ok((secs, nanos)) => Ok(Some(Timestamp { secs, nanos })),
            Err(e) => Err(e),
        },
    }
}

/// Reads a metadata time; the error is the parser's message.
pub fn deserialize_system_time(opt: Option<String>) -> (r: Result<Option<Timestamp>, String>)
    ensures
        match r {
            Ok(t) => spec_system_time(opt_view(opt)) == Ok::<Option<Timestamp>, Seq<char>>(t),
            Err(e) => spec_system_time(opt_view(opt)) == Err::<Option<Timestamp>, Seq<char>>(e@),
        },
{
    match opt {
        None => Ok(None),
        Some(s) => match parse_rfc3339(s.as_str()) {
            Ok((secs, nanos)) => Ok(Some(Timestamp { secs, nanos })),
            Err(e) => Err(e),
        },
    }
}

/// A peer and the addresses it was last seen at, oldest first.
pub struct PeerInfo {
    pub message: Message,
    pub remote_addrs: VecDeque<SocketAddress>,
}

/// The addresses after `addr` is added: with six already kept, the oldest leaves.
pub open spec fn spec_add_remote_addr(addrs: Seq<SocketAddress>, addr: SocketAddress) -> Seq<SocketAddress> {
    if addrs.len() == MAX_REMOTE_ADDRS {
        addrs.drop_first().push(addr)
    } else {
        addrs.push(addr)
    }
}

impl PeerInfo {
    /// A new peer seen at one address.
    pub fn new(message: Message, addr: SocketAddress) -> (p: Self)
        ensures
            p.message == message,
            p.remote_addrs@ == seq![addr],
    {
        let mut remote_addrs: VecDeque<SocketAddress> = VecDeque::new();
        remote_addrs.push_back(addr);
        PeerInfo { message, remote_addrs }
    }

    /// Records `addr` as the newest address of the peer, forgetting the oldest
    /// one when six are kept already.
    pub fn add_remote_addr(&mut self, addr: SocketAddress)
        ensures
            final(self).message == old(self).message,
            final(self).remote_addrs@ == spec_add_remote_addr(old(self).remote_addrs@, addr),
    {
        if self.remote_addrs.len() == MAX_REMOTE_ADDRS {
            self.remote_addrs.pop_front();
        }
        self.remote_addrs.push_back(addr);
        assert(self.remote_addrs@ == spec_add_remote_addr(old(self).remote_addrs@, addr));
    }

    /// Whether the peer was seen at `addr`.
    pub fn has_remote_addr(&self, addr: &SocketAddress) -> (b: bool)
        ensures
            b == self.remote_addrs@.contains(*addr),
    {
        let n = self.remote_addrs.len();
        for i in 0..n
            invariant
                n == self.remote_addrs@.len(),
                forall|j: int| 0 <= j < i ==> self.remote_addrs@[j] != *addr,
        {
            if self.remote_addrs[i] == *addr {
                assert(self.remote_addrs@[i as int] == *addr);
                return true;
            }
        }
        false
    }
}

/// Optional file metadata.
#[derive(Clone, Copy, Debug, PartialEq, Eq, Structural)]
pub struct Metadata {
    pub modified: Option<Timestamp>,
    pub accessed: Option<Timestamp>,
}

/// A file offered in a prepare-upload request.
#[allow(non_snake_case)]
pub struct UploadFile {
    pub id: String,
    pub fileName: String,
    /// bytes
    pub size: u64,
    pub fileType: String,
    pub sha256: Option<String>,
    pub preview: Option<Vec<u8>>,
    pub metadata: Option<Metadata>,
}

/// The files of a prepare-upload request, by file id.
pub struct Files {
    pub files: StrMap<UploadFile>,
}

/// A prepare-upload request: the sender and its files.
pub struct PrepareUploadRequest {
    pub info: Message,
    pub files: Files,
}

/// A prepare-upload request as shown to the user, with its session id.
#[allow(non_snake_case)]
pub struct PrepareUploadRequestAndSessionId {
    pub sessionId: String,
    pub prepareUploadRequest: PrepareUploadRequest,
}

/// The token a file is uploaded with, and the file.
#[allow(non_snake_case)]
pub struct TokenAndUploadFile {
    pub token: String,
    pub uploadFile: UploadFile,
}

/// An upload session: whether the user answered, whether the answer was yes,
/// and the tokens issued per file id.
#[allow(non_snake_case)]
pub struct Session {
    pub accepted: bool,
    pub userFeedback: bool,
    pub finished: bool,
    pub fileIdtoTokenAndUploadFile: StrMap<TokenAndUploadFile>,
}

/// Upload sessions by session id.
pub struct Sessions {
    pub sessions: StrMap<Session>,
}

/// The query of an upload request.
#[allow(non_snake_case)]
pub struct UploadQuery {
    pub sessionId: String,
    pub fileId: String,
    pub token: String,
}

/// A chat message.
pub struct ChatMessage {
    pub id: String,
    pub sender_fingerprint: String,
    pub sender_alias: String,
    pub receiver_fingerprint: String,
    pub content: String,
    pub timestamp: Timestamp,
    pub read: bool,
}

impl Clone for ChatMessage {
    fn clone(&self) -> (r: Self)
        ensures
            r == *self,
    {
        ChatMessage {
            id: self.id.clone(),
            sender_fingerprint: self.sender_fingerprint.clone(),
            sender_alias: self.sender_alias.clone(),
            receiver_fingerprint: self.receiver_fingerprint.clone(),
            content: self.content.clone(),
            timestamp: self.timestamp,
            read: self.read,
        }
    }
}

/// The messages exchanged with one peer, oldest first.
pub struct ChatHistory {
    pub messages: Vec<ChatMessage>,
}

/// The chat with one peer as the chat list shows it.
pub struct ChatSession {
    pub peer_fingerprint: String,
    pub peer_alias: String,
    pub last_message: Option<ChatMessage>,
    pub unread_count: u32,
    /// background color of this chat
    pub color: String,
}

/// Chat sessions by peer fingerprint.
pub struct ChatSessions {
    pub sessions: StrMap<ChatSession>,
}

impl ChatHistory {
    pub fn new() -> (h: Self)
        ensures
            h.messages@.len() == 0,
    {
        ChatHistory { messages: Vec::new() }
    }
}

impl ChatSessions {
    pub fn new() -> (s: Self)
        ensures
            s.sessions@ == Map::<Seq<char>, ChatSession>::empty(),
    {
        ChatSessions { sessions: StrMap::new() }
    }
}

impl Sessions {
    pub fn new() -> (s: Self)
        ensures
            s.sessions@ == Map::<Seq<char>, Session>::empty(),
    {
        Sessions { sessions: StrMap::new() }
    }
}

// ---------------------------------------------------------------------------
// Random and hashed identifiers
// ---------------------------------------------------------------------------

/// Trusted: one value drawn by `rand::rng().random_range(lo..=hi)`; it lies in
/// the range, which is all that can be said of it.
#[verifier::external_body]
fn random_between(lo: u8, hi: u8) -> (r: u8)
    requires
        lo <= hi,
    ensures
        lo <= r <= hi,
{
    rand::Rng::random_range(&mut rand::rng(), lo..=hi)
}

/// A random identifier: `length` random bytes in lower-case hexadecimal.
pub fn generate_random_string(length: u16) -> (s: String)
    ensures
        s@.len() == 2 * length,
        exists|bytes: Seq<u8>| bytes.len() == length && s@ == hex_seq(bytes),
        forall|i: int| 0 <= i < s@.len() ==> #[trigger] is_hex_char(s@[i]),
{
    let mut s = String::new();
    let ghost mut bytes: Seq<u8> = Seq::empty();
    for _i in 0..length
        invariant
            s@ == hex_seq(bytes),
            bytes.len() == _i,
    {
        let b = random_between(0, 255);
        push_hex_byte(&mut s, b);
        proof {
            assert(bytes.push(b).drop_last() == bytes);
            bytes = bytes.push(b);
        }
    }
    proof {
        lemma_hex_seq_len(bytes);
    }
    s
}

/// `#rrggbb` of three color components.
pub open spec fn color_text(r: u8, g: u8, b: u8) -> Seq<char> {
    seq!['#'] + hex_byte(r) + hex_byte(g) + hex_byte(b)
}

/// A pastel color: each component between 180 and 240.
pub open spec fn is_pastel_color(c: Seq<char>) -> bool {
    exists|r: u8, g: u8, b: u8|
        180 <= r <= 240 && 180 <= g <= 240 && 180 <= b <= 240 && c == color_text(r, g, b)
}

/// The `#rrggbb` text of a color.
pub fn color_string(r: u8, g: u8, b: u8) -> (s: String)
    ensures
        s@ == color_text(r, g, b),
{
    let mut s = String::new();
    push_char(&mut s, '#');
    push_hex_byte(&mut s, r);
    push_hex_byte(&mut s, g);
    push_hex_byte(&mut s, b);
    s
}

/// A random pastel color for a chat background.
pub fn generate_random_color() -> (s: String)
    ensures
        is_pastel_color(s@),
{
    let r = random_between(180, 240);
    let g = random_between(180, 240);
    let b = random_between(180, 240);
    color_string(r, g, b)
}

/// What SHA-256 gives for the bytes.
pub uninterp spec fn sha256_digest(data: Seq<u8>) -> Seq<u8>;

/// Trusted: `sha2::Sha256::digest`; the digest of SHA-256 is 32 bytes.
#[verifier::external_body]
fn sha256(data: &[u8]) -> (r: Vec<u8>)
    ensures
        r@ == sha256_digest(data@),
        r@.len() == 32,
{
    <sha2::Sha256 as sha2::Digest>::digest(data).to_vec()
}

/// The fingerprint of some bytes: their SHA-256 digest in lower-case hexadecimal.
pub fn fingerprint_of_bytes(data: &[u8]) -> (s: String)
    ensures
        s@ == hex_seq(sha256_digest(data@)),
        s@.len() == 64,
{
    let d = sha256(data);
    hex_encode(d.as_slice())
}

/// The fingerprint of a certificate given by its DER bytes: their SHA-256
/// digest in lower-case hexadecimal (the PEM text is not what is hashed).
pub fn generate_fingerprint_cert(der: &[u8]) -> (s: String)
    ensures
        s@ == hex_seq(sha256_digest(der@)),
        s@.len() == 64,
{
    fingerprint_of_bytes(der)
}

} // verus!
