//! Device discovery and transfers of the LocalSend protocol: registering the
//! peers that announce themselves, the device's own announcement, file
//! synchronisation with another LocalShare device, and sending files.
use vstd::prelude::*;
use vstd::string::StringSliceAdditionalSpecFns;
use vstd::utf8::{encode_utf8, is_char_boundary};
use crate::chat::{peer_not_found, spec_delivery_targets, Delivery};
use crate::common::{
    clone_opt_string, generate_random_string, spec_add_remote_addr, Files, Message, PeerInfo,
    PrepareUploadRequest, UploadFile, FILEID_LENGTH,
};
use crate::net::{socket_text, SocketAddress, push_socket_text};
use crate::strmap::StrMap;
use crate::text::{concat2, dec_seq, is_hex_text, push_char, push_decimal, push_str};

verus! {

broadcast use vstd::string::group_string_axioms;

/// What an announcement or registration from a peer does to the peers store.
pub enum RegisterOutcome {
    /// The device's own message: nothing changes.
    OwnMessage,
    /// The peer is known at this address already: nothing changes.
    AlreadyKnown,
    /// The peer record to store under the message's fingerprint.
    Store(PeerInfo),
}

/// Registers a peer that was heard from at `remote`.  A new peer is stored
/// with its message; a known peer keeps its message and gains the address.
pub fn register_peer(
    my_fingerprint: &String,
    message: Message,
    remote: SocketAddress,
    known: Option<PeerInfo>,
) -> (r: RegisterOutcome)
    ensures
        message.fingerprint@ == my_fingerprint@ ==> r is OwnMessage,
        message.fingerprint@ != my_fingerprint@ ==> match known {
            None => r matches RegisterOutcome::Store(p) && p.message == message
                && p.remote_addrs@ == seq![remote],
            Some(k) => if k.remote_addrs@.contains(remote) {
                r is AlreadyKnown
            } else {
                r matches RegisterOutcome::Store(p) && p.message == k.message && p.remote_addrs@
                    == spec_add_remote_addr(k.remote_addrs@, remote)
            },
        },
{
    if message.fingerprint == *my_fingerprint {
        return RegisterOutcome::OwnMessage;
    }
    match known {
        None => RegisterOutcome::Store(PeerInfo::new(message, remote)),
        Some(k) => {
            if k.has_remote_addr(&remote) {
                RegisterOutcome::AlreadyKnown
            } else {
                let mut k = k;
                k.add_remote_addr(remote);
                RegisterOutcome::Store(k)
            }
        },
    }
}

/// An address added to a peer is known afterwards, it is the newest one, at
/// most six are kept when at most six were, and the others keep their order.
pub proof fn law_added_address_is_kept(addrs: Seq<SocketAddress>, remote: SocketAddress)
    ensures
        spec_add_remote_addr(addrs, remote).contains(remote),
        spec_add_remote_addr(addrs, remote).last() == remote,
        addrs.len() <= 6 ==> spec_add_remote_addr(addrs, remote).len() <= 6,
        spec_add_remote_addr(addrs, remote).drop_last() == (if addrs.len() == 6 {
            addrs.drop_first()
        } else {
            addrs
        }),
{
    let r = spec_add_remote_addr(addrs, remote);
    assert(r[r.len() - 1] == remote);
    assert(r.drop_last() =~= (if addrs.len() == 6 {
        addrs.drop_first()
    } else {
        addrs
    }));
}

/// Hearing the same peer at the same address twice stores it once: the
/// second time it is known.
pub proof fn law_register_idempotent(known: Option<Seq<SocketAddress>>, remote: SocketAddress)
    ensures
        ({
            let stored = match known {
                None => seq![remote],
                Some(a) => if a.contains(remote) {
                    a
                } else {
                    spec_add_remote_addr(a, remote)
                },
            };
            stored.contains(remote)
        }),
{
    assert(seq![remote][0] == remote);
    match known {
        None => {},
        Some(a) => {
            law_added_address_is_kept(a, remote);
        },
    }
}

/// The device's announcement: its own message with the announce flag set.
pub fn announcement(my_response: &Message) -> (m: Message)
    ensures
        m == (Message { announce: Some(true), ..*my_response }),
{
    let mut m = my_response.clone();
    m.announce = Some(true);
    m
}

/// The fingerprint the device presents: the stored one, or else the hash of
/// its certificate, which then has to be stored.
pub fn choose_fingerprint(stored: Option<String>, cert_hash: String) -> (r: (String, bool))
    ensures
        match stored {
            Some(s) => r.0 == s && !r.1,
            None => r.0 == cert_hash && r.1,
        },
{
    match stored {
        Some(s) => (s, false),
        None => (cert_hash, true),
    }
}

/// The device's own message: the alias is the first six bytes of the
/// fingerprint; LocalSend 2.1 over HTTP on port 53317, downloads on.
pub fn local_device_message(fingerprint: &String) -> (m: Message)
    requires
        is_char_boundary(encode_utf8(fingerprint@), 6),
    ensures
        encode_utf8(m.alias@) == encode_utf8(fingerprint@).subrange(0, 6),
        m.version@ == "2.1"@,
        m.device_model matches Some(d) && d@ == "localshare"@,
        m.device_type is None,
        m.fingerprint == *fingerprint,
        m.port == 53317,
        m.protocol@ == "http"@,
        m.download == Some(true),
        m.announce is None,
{
    let (head, _) = fingerprint.as_str().split_at(6);
    Message {
        alias: head.to_owned(),
        version: "2.1".to_owned(),
        device_model: Some("localshare".to_owned()),
        device_type: None,
        fingerprint: fingerprint.clone(),
        port: 53317,
        protocol: "http".to_owned(),
        download: Some(true),
        announce: None,
    }
}

// ---------------------------------------------------------------------------
// File synchronisation with another LocalShare device
// ---------------------------------------------------------------------------

/// The base URL of a LocalShare peer that announced itself, if it is one.
pub open spec fn spec_sync_peer_address(message: Message, remote: SocketAddress) -> Option<Seq<char>> {
    if message.device_model matches Some(d) && d@ == "localshare_device"@ {
        Some(message.protocol@ + "://"@ + socket_text(remote) + seq![':'] + dec_seq(message.port as nat))
    } else {
        None
    }
}

pub fn sync_peer_address(message: &Message, remote: &SocketAddress) -> (r: Option<String>)
    ensures
        match r {
            Some(s) => spec_sync_peer_address(*message, *remote) == Some(s@),
            None => spec_sync_peer_address(*message, *remote) is None,
        },
{
    let model = clone_opt_string(&message.device_model);
    let wanted = "localshare_device".to_owned();
    match model {
        Some(d) => {
            if d == wanted {
                let mut s = message.protocol.clone();
                push_str(&mut s, "://");
                push_socket_text(&mut s, remote);
                push_char(&mut s, ':');
                push_decimal(&mut s, message.port as u64);
                Some(s)
            } else {
                None
            }
        },
        None => None,
    }
}

pub open spec fn names(v: Seq<String>) -> Seq<Seq<char>> {
    v.map_values(|s: String| s@)
}

/// The names of `list` that `other` lacks, in the order of `list`.
pub open spec fn spec_missing_from(list: Seq<Seq<char>>, other: Seq<Seq<char>>) -> Seq<Seq<char>>
    decreases list.len(),
{
    if list.len() == 0 {
        Seq::empty()
    } else if other.contains(list.last()) {
        spec_missing_from(list.drop_last(), other)
    } else {
        spec_missing_from(list.drop_last(), other).push(list.last())
    }
}

fn contains_name(v: &Vec<String>, name: &String) -> (b: bool)
    ensures
        b == names(v@).contains(name@),
{
    let n = v.len();
    for i in 0..n
        invariant
            n == v@.len(),
            forall|j: int| 0 <= j < i ==> v@[j]@ != name@,
    {
        if v[i] == *name {
            assert(names(v@)[i as int] == name@);
            return true;
        }
    }
    assert(!names(v@).contains(name@)) by {
        if names(v@).contains(name@) {
            let j = choose|j: int| 0 <= j < names(v@).len() && names(v@)[j] == name@;
            assert(v@[j]@ == name@);
        }
    }
    false
}

/// The names of `list` that `other` lacks: the files to fetch from a peer
/// (the peer's list against the local one) or to upload to it (the other way).
pub fn missing_from(list: &Vec<String>, other: &Vec<String>) -> (r: Vec<String>)
    ensures
        names(r@) == spec_missing_from(names(list@), names(other@)),
{
    let mut r: Vec<String> = Vec::new();
    let n = list.len();
    for i in 0..n
        invariant
            n == list@.len(),
            names(r@) == spec_missing_from(names(list@).take(i as int), names(other@)),
    {
        let ghost before = r@;
        assert(names(list@).take(i + 1).drop_last() == names(list@).take(i as int));
        assert(names(list@).take(i + 1).last() == list@[i as int]@);
        if !contains_name(other, &list[i]) {
            r.push(list[i].clone());
            assert(names(r@) == names(before).push(list@[i as int]@));
        } else {
            assert(r@ == before);
        }
    }
    assert(names(list@).take(n as int) == names(list@));
    r
}

/// A file is to be transferred exactly when one side has it and the other lacks it.
pub proof fn law_missing_from(list: Seq<Seq<char>>, other: Seq<Seq<char>>, f: Seq<char>)
    ensures
        spec_missing_from(list, other).contains(f) <==> list.contains(f) && !other.contains(f),
    decreases list.len(),
{
    if list.len() > 0 {
        law_missing_from(list.drop_last(), other, f);
        let r = spec_missing_from(list, other);
        let rp = spec_missing_from(list.drop_last(), other);
        if list.contains(f) && !list.drop_last().contains(f) {
            let i = choose|i: int| 0 <= i < list.len() && list[i] == f;
            if i < list.len() - 1 {
                assert(list.drop_last()[i] == f);
            }
        }
        if list.drop_last().contains(f) {
            let i = choose|i: int| 0 <= i < list.drop_last().len() && list.drop_last()[i] == f;
            assert(list[i] == f);
        }
        if !other.contains(list.last()) {
            assert(r == rp.push(list.last()));
            if rp.contains(f) {
                let i = choose|i: int| 0 <= i < rp.len() && rp[i] == f;
                assert(r[i] == f);
            }
            if r.contains(f) && f != list.last() {
                let i = choose|i: int| 0 <= i < r.len() && r[i] == f;
                assert(i < rp.len());
                assert(rp[i] == f);
            }
            assert(r[rp.len() as int] == list.last());
        }
    } else {
        assert(!spec_missing_from(list, other).contains(f));
    }
}

/// The URL of a peer's file list.
pub fn files_list_url(peer: &str) -> (u: String)
    ensures
        u@ == peer@ + "/api/files"@,
{
    concat2(peer, "/api/files")
}

/// The URL a file is downloaded from.
pub fn file_download_url(peer: &str, file: &str) -> (u: String)
    ensures
        u@ == peer@ + "/api/files/download/"@ + file@,
{
    let mut u = peer.to_owned();
    push_str(&mut u, "/api/files/download/");
    push_str(&mut u, file);
    u
}

/// The URL a file is uploaded to.
pub fn file_upload_url(peer: &str) -> (u: String)
    ensures
        u@ == peer@ + "/api/files/upload"@,
{
    concat2(peer, "/api/files/upload")
}

// ---------------------------------------------------------------------------
// Sending files
// ---------------------------------------------------------------------------

/// The size to offer for a file whose size may be unknown.
pub fn file_size_or_default(size: Option<u64>) -> (r: u64)
    ensures
        r == match size {
            Some(s) => s,
            None => 9999,
        },
{
    match size {
        Some(s) => s,
        None => 9999,
    }
}

/// A file to offer, of unknown type and without checksum, preview or metadata.
#[allow(non_snake_case)]
pub fn upload_file_entry(id: String, fileName: String, size: u64) -> (f: UploadFile)
    ensures
        f.id == id,
        f.fileName == fileName,
        f.size == size,
        f.fileType@ == "application/octet-stream"@,
        f.sha256 is None,
        f.preview is None,
        f.metadata is None,
{
    UploadFile {
        id,
        fileName,
        size,
        fileType: "application/octet-stream".to_owned(),
        sha256: None,
        preview: None,
        metadata: None,
    }
}

/// The prepare-upload request for the files: the device's message without
/// the announce flag.
pub fn prepare_upload_request(my_response: &Message, files: Files) -> (r: PrepareUploadRequest)
    ensures
        r.info == (Message { announce: None, ..*my_response }),
        r.files.files@ == files.files@,
{
    let mut info = my_response.clone();
    info.announce = None;
    PrepareUploadRequest { info, files }
}

/// The URL a prepare-upload request is posted to.
pub fn prepare_upload_url(protocol: &str, addr: &SocketAddress) -> (u: String)
    ensures
        u@ == protocol@ + "://"@ + socket_text(*addr) + "/api/localsend/v2/prepare-upload"@,
{
    let mut u = protocol.to_owned();
    push_str(&mut u, "://");
    push_socket_text(&mut u, addr);
    push_str(&mut u, "/api/localsend/v2/prepare-upload");
    u
}

pub open spec fn spec_upload_url(
    protocol: Seq<char>,
    addr: SocketAddress,
    session_id: Seq<char>,
    file_id: Seq<char>,
    token: Seq<char>,
) -> Seq<char> {
    protocol + "://"@ + socket_text(addr) + "/api/localsend/v2/upload?sessionId="@ + session_id
        + "&fileId="@ + file_id + "&token="@ + token
}

/// The URL one file is uploaded to.
pub fn upload_url(protocol: &str, addr: &SocketAddress, session_id: &str, file_id: &str, token: &str) -> (u: String)
    ensures
        u@ == spec_upload_url(protocol@, *addr, session_id@, file_id@, token@),
{
    let mut u = protocol.to_owned();
    push_str(&mut u, "://");
    push_socket_text(&mut u, addr);
    push_str(&mut u, "/api/localsend/v2/upload?sessionId=");
    push_str(&mut u, session_id);
    push_str(&mut u, "&fileId=");
    push_str(&mut u, file_id);
    push_str(&mut u, "&token=");
    push_str(&mut u, token);
    u
}

/// The upload of each offered file after the peer accepted: the file id and
/// the URL with the token the peer gave for it.
pub fn upload_plan(
    protocol: &str,
    addr: &SocketAddress,
    session_id: &str,
    file_ids: &Vec<String>,
    tokens: &StrMap<String>,
) -> (plan: Vec<(String, String)>)
    requires
        forall|i: int| 0 <= i < file_ids@.len() ==> tokens@.dom().contains(#[trigger] file_ids@[i]@),
    ensures
        plan@.len() == file_ids@.len(),
        forall|i: int|
            0 <= i < plan@.len() ==> (#[trigger] plan@[i]).0 == file_ids@[i] && plan@[i].1@
                == spec_upload_url(
                protocol@,
                *addr,
                session_id@,
                file_ids@[i]@,
                tokens@[file_ids@[i]@]@,
            ),
{
    let mut plan: Vec<(String, String)> = Vec::new();
    let n = file_ids.len();
    for i in 0..n
        invariant
            n == file_ids@.len(),
            forall|j: int| 0 <= j < file_ids@.len() ==> tokens@.dom().contains(#[trigger] file_ids@[j]@),
            plan@.len() == i,
            forall|j: int|
                0 <= j < i ==> (#[trigger] plan@[j]).0 == file_ids@[j] && plan@[j].1@
                    == spec_upload_url(
                    protocol@,
                    *addr,
                    session_id@,
                    file_ids@[j]@,
                    tokens@[file_ids@[j]@]@,
                ),
    {
        let fid = &file_ids[i];
        let token = tokens.get(fid).unwrap();
        let url = upload_url(protocol, addr, session_id, fid.as_str(), token.as_str());
        plan.push((fid.clone(), url));
    }
    plan
}

/// The answer of a file transfer that found its peer.
pub fn send_file_reply() -> (r: Result<String, String>)
    ensures
        r matches Ok(t) && t@ == "ok"@,
{
    Ok("ok".to_owned())
}

/// The answer of the one-off announcement.
pub fn announce_reply() -> (r: Result<String, String>)
    ensures
        r matches Ok(t) && t@ == "announced"@,
{
    Ok("announced".to_owned())
}

} // verus!

verus! {

/// A file chosen for sending: its path, its name, and its size if it could
/// be read.
pub struct LocalFile {
    pub path: String,
    pub name: String,
    pub size: Option<u64>,
}

/// The offer of a chosen file under a file id.
pub open spec fn offered(f: UploadFile, id: String, lf: LocalFile) -> bool {
    &&& f.id == id
    &&& f.fileName == lf.name
    &&& f.size == (match lf.size {
        Some(s) => s,
        None => 9999,
    })
    &&& f.fileType@ == "application/octet-stream"@
    &&& f.sha256 is None
    &&& f.preview is None
    &&& f.metadata is None
}

/// No later file has the same id.
pub open spec fn last_with_id(ids: Seq<String>, i: int) -> bool {
    forall|j: int| i < j < ids.len() ==> (#[trigger] ids[j])@ != ids[i]@
}

/// The offer of entry `k` and its path come from the file `lf` under `id`.
pub open spec fn from_file(
    offer: Map<Seq<char>, UploadFile>,
    paths: Map<Seq<char>, String>,
    k: Seq<char>,
    id: String,
    lf: LocalFile,
) -> bool {
    offered(offer[k], id, lf) && paths[k] == lf.path
}

/// `offer` and `paths` offer file `i` under `ids[i]` (a later file with the
/// same id replaces it), and nothing else.
pub open spec fn is_offer_of(
    ids: Seq<String>,
    files: Seq<LocalFile>,
    offer: Map<Seq<char>, UploadFile>,
    paths: Map<Seq<char>, String>,
) -> bool {
    &&& offer.dom() == paths.dom()
    &&& forall|k: Seq<char>| #[trigger] offer.dom().contains(k) ==> exists|i: int|
        0 <= i < ids.len() && ids[i]@ == k && #[trigger] from_file(offer, paths, k, ids[i], files[i])
    &&& forall|i: int| 0 <= i < ids.len() ==> offer.dom().contains(#[trigger] ids[i]@)
    &&& forall|i: int|
        0 <= i < ids.len() && #[trigger] last_with_id(ids, i) ==> from_file(offer, paths, ids[i]@, ids[i], files[i])
}

/// The offered files and the path of each, by file id.
pub fn build_file_offer(ids: &Vec<String>, files: &Vec<LocalFile>) -> (r: (Files, StrMap<String>))
    requires
        ids@.len() == files@.len(),
    ensures
        is_offer_of(ids@, files@, r.0.files@, r.1@),
{
    let n = ids.len();
    let mut offer: StrMap<UploadFile> = StrMap::new();
    let mut paths: StrMap<String> = StrMap::new();
    for m in 0..n
        invariant
            n == ids@.len(),
            n == files@.len(),
            offer@.dom() == paths@.dom(),
            forall|i: int| 0 <= i < m ==> offer@.dom().contains(#[trigger] ids@[i]@),
            forall|i: int|
                0 <= i < m && (forall|j: int| i < j < m ==> (#[trigger] ids@[j])@ != ids@[i]@) ==> #[trigger] from_file(
                    offer@,
                    paths@,
                    ids@[i]@,
                    ids@[i],
                    files@[i],
                ),
            forall|k: Seq<char>| #[trigger] offer@.dom().contains(k) ==> exists|i: int|
                0 <= i < m && ids@[i]@ == k && #[trigger] from_file(offer@, paths@, k, ids@[i], files@[i]),
    {
        let id = ids[m].clone();
        let lf = &files[m];
        let ghost k = id@;
        let ghost old_offer = offer@;
        let ghost old_paths = paths@;
        let entry = upload_file_entry(id.clone(), lf.name.clone(), file_size_or_default(lf.size));
        offer.insert(id.clone(), entry);
        paths.insert(id, lf.path.clone());
        assert(offer@.dom() =~= paths@.dom());
        assert(from_file(offer@, paths@, k, ids@[m as int], files@[m as int]));
        assert forall|i: int|
            0 <= i < m + 1 && (forall|j: int| i < j < m + 1 ==> (#[trigger] ids@[j])@ != ids@[i]@) implies #[trigger] from_file(
                offer@,
                paths@,
                ids@[i]@,
                ids@[i],
                files@[i],
            ) by {
            if i < m {
                assert(ids@[m as int]@ != ids@[i]@);
                assert(from_file(old_offer, old_paths, ids@[i]@, ids@[i], files@[i]));
            }
        }
        assert forall|kk: Seq<char>| #[trigger] offer@.dom().contains(kk) implies exists|i: int|
            0 <= i < m + 1 && ids@[i]@ == kk && #[trigger] from_file(offer@, paths@, kk, ids@[i], files@[i]) by {
            if kk == k {
                assert(from_file(offer@, paths@, kk, ids@[m as int], files@[m as int]));
            } else {
                assert(old_offer.dom().contains(kk));
                let i = choose|i: int|
                    0 <= i < m && ids@[i]@ == kk && #[trigger] from_file(old_offer, old_paths, kk, ids@[i], files@[i]);
                assert(from_file(offer@, paths@, kk, ids@[i], files@[i]));
            }
        }
    }
    proof {
        assert forall|i: int|
            0 <= i < n && #[trigger] last_with_id(ids@, i) implies from_file(offer@, paths@, ids@[i]@, ids@[i], files@[i]) by {
            assert(forall|j: int| i < j < n ==> (#[trigger] ids@[j])@ != ids@[i]@);
        }
    }
    let r = (Files { files: offer }, paths);
    assert forall|k: Seq<char>| #[trigger] r.0.files@.dom().contains(k) implies exists|i: int|
        0 <= i < ids@.len() && ids@[i]@ == k && #[trigger] from_file(r.0.files@, r.1@, k, ids@[i], files@[i]) by {
        let i = choose|i: int|
            0 <= i < n && ids@[i]@ == k && #[trigger] from_file(offer@, paths@, k, ids@[i], files@[i]);
        assert(from_file(r.0.files@, r.1@, k, ids@[i], files@[i]));
    }
    r
}

} // verus!

verus! {

/// Files on their way to a peer: the prepare-upload request, the path of
/// each offered file id, the scheme to use, and the addresses to try.
pub struct FileSend {
    pub request: PrepareUploadRequest,
    pub paths: StrMap<String>,
    pub protocol: String,
    pub delivery: Delivery,
}

/// The first part of sending files: with the peer unknown, the answer is
/// that it is not found; otherwise each file gets a random id (32 bytes in
/// hexadecimal) and the request and the delivery to the peer are set up.
pub fn begin_file_send(
    peer: Option<PeerInfo>,
    peer_fingerprint: &str,
    my_response: &Message,
    files: Vec<LocalFile>,
) -> (r: Result<FileSend, String>)
    requires
        peer matches Some(p) ==> p.remote_addrs@.len() > 0,
    ensures
        peer is None ==> (r matches Err(e) && e@ == "peer "@ + peer_fingerprint@ + " not found in peers store"@),
        peer matches Some(p) ==> {
            &&& r matches Ok(send)
            &&& send.request.info == (Message { announce: None, ..*my_response })
            &&& exists|ids: Seq<String>|
                #![trigger is_offer_of(ids, files@, send.request.files.files@, send.paths@)]
                ids.len() == files@.len() && (forall|i: int| 0 <= i < ids.len() ==> (#[trigger] ids[i])@.len() == 64 && is_hex_text(ids[i]@))
                    && is_offer_of(ids, files@, send.request.files.files@, send.paths@)
            &&& send.protocol == p.message.protocol
            &&& send.delivery.wf()
            &&& send.delivery.spec_targets() == spec_delivery_targets(p.remote_addrs@)
            &&& send.delivery.spec_tried() == 0
            &&& !send.delivery.spec_delivered()
        },
{
    match peer {
        None => Err(peer_not_found(peer_fingerprint)),
        Some(p) => {
            let n = files.len();
            let mut ids: Vec<String> = Vec::new();
            for _i in 0..n
                invariant
                    ids@.len() == _i,
                    forall|j: int| 0 <= j < ids@.len() ==> (#[trigger] ids@[j])@.len() == 64 && is_hex_text(ids@[j]@),
            {
                ids.push(generate_random_string(FILEID_LENGTH));
            }
            let (offer, paths) = build_file_offer(&ids, &files);
            let request = prepare_upload_request(my_response, offer);
            let delivery = Delivery::start(&p.remote_addrs);
            let protocol = p.message.protocol.clone();
            let send = FileSend { request, paths, protocol, delivery };
            assert(is_offer_of(ids@, files@, send.request.files.files@, send.paths@));
            Ok(send)
        },
    }
}

} // verus!
