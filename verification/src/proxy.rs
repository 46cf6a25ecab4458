//! The proxies in front of the forum site: the reverse proxy that rewrites
//! page links to the local address, the cached uploads, the file-upload
//! endpoint's name check, and the plain-HTTP-to-SOCKS bridge.
use vstd::prelude::*;
use vstd::string::{StringSliceAdditionalSpecFns, StrSliceExecFns};
use vstd::utf8::valid_utf8;
use crate::text::{
    chars_of, concat2, dec_seq, has_prefix, push_char, push_decimal, push_str, replace_all,
    replace_bytes, starts_with, string_from_chars, trim_end_char, trim_end_matches_char,
};

verus! {

broadcast use vstd::string::group_string_axioms;

/// The site behind the proxies.
pub open spec fn spec_backend() -> Seq<char> {
    "https://xjtu.app"@
}

/// The URL a proxied request goes to: the site, a slash, and the request's path.
pub fn proxy_target_url(path: &str) -> (u: String)
    ensures
        u@ == trim_end_char(spec_backend(), '/') + "/"@ + path@,
{
    let mut u = trim_end_matches_char("https://xjtu.app", '/');
    push_str(&mut u, "/");
    push_str(&mut u, path);
    u
}

/// Whether a response's content type is text, whose links are rewritten.
pub fn is_text_content(content_type: &Option<String>) -> (b: bool)
    ensures
        b == match content_type {
            Some(ct) => has_prefix(ct@, "text/"@),
            None => false,
        },
{
    match content_type {
        Some(ct) => starts_with(ct.as_str(), "text/"),
        None => false,
    }
}

/// What `String::from_utf8_lossy` makes of the bytes, as UTF-8 bytes again.
pub uninterp spec fn utf8_lossy(bytes: Seq<u8>) -> Seq<u8>;

/// Trusted: `String::from_utf8_lossy`, turned back into bytes.  Valid UTF-8
/// comes back unchanged, as its documentation says; invalid sequences become
/// the replacement character, which the contract only names.
#[verifier::external_body]
fn lossy_utf8(bytes: &[u8]) -> (r: Vec<u8>)
    ensures
        r@ == utf8_lossy(bytes@),
        valid_utf8(bytes@) ==> r@ == bytes@,
{
    String::from_utf8_lossy(bytes).into_owned().into_bytes()
}

/// `http://xjtu.app` in ASCII.
pub open spec fn site_http() -> Seq<u8> {
    seq![104u8, 116, 116, 112, 58, 47, 47, 120, 106, 116, 117, 46, 97, 112, 112]
}

/// `https://xjtu.app` in ASCII.
pub open spec fn site_https() -> Seq<u8> {
    seq![104u8, 116, 116, 112, 115, 58, 47, 47, 120, 106, 116, 117, 46, 97, 112, 112]
}

/// `http://127.0.0.1:4805`, the local proxy, in ASCII.
pub open spec fn local_proxy() -> Seq<u8> {
    seq![104u8, 116, 116, 112, 58, 47, 47, 49, 50, 55, 46, 48, 46, 48, 46, 49, 58, 52, 56, 48, 53]
}

fn site_http_exec() -> (v: Vec<u8>)
    ensures
        v@ == site_http(),
{
    let v: Vec<u8> = vec![104u8, 116, 116, 112, 58, 47, 47, 120, 106, 116, 117, 46, 97, 112, 112];
    v
}

fn site_https_exec() -> (v: Vec<u8>)
    ensures
        v@ == site_https(),
{
    let v: Vec<u8> = vec![104u8, 116, 116, 112, 115, 58, 47, 47, 120, 106, 116, 117, 46, 97, 112, 112];
    v
}

fn local_proxy_exec() -> (v: Vec<u8>)
    ensures
        v@ == local_proxy(),
{
    let v: Vec<u8> = vec![104u8, 116, 116, 112, 58, 47, 47, 49, 50, 55, 46, 48, 46, 48, 46, 49, 58, 52, 56, 48, 53];
    v
}

/// The body of a proxied text response: links to the site, over HTTP and
/// then over HTTPS, point to the local proxy instead.
pub open spec fn spec_rewritten(body: Seq<u8>) -> Seq<u8> {
    replace_all(replace_all(utf8_lossy(body), site_http(), local_proxy()), site_https(), local_proxy())
}

/// The body relayed to the client: text is rewritten, anything else is kept.
pub fn relay_body(body: &Vec<u8>, is_text: bool) -> (r: Vec<u8>)
    ensures
        is_text ==> r@ == spec_rewritten(body@),
        !is_text ==> r@ == body@,
{
    if is_text {
        let text = lossy_utf8(body.as_slice());
        let local = local_proxy_exec();
        let plain = site_http_exec();
        let secure = site_https_exec();
        let once = replace_bytes(&text, &plain, &local);
        replace_bytes(&once, &secure, &local)
    } else {
        body.clone()
    }
}

/// Header names that are not relayed: the proxy sets its own CORS header.
pub open spec fn is_dropped_header(name: Seq<char>) -> bool {
    name == "access-control-allow-origin"@ || name == "alt-svc"@
}

/// The upstream headers that are relayed, in order: those that carry a name
/// (the later values of a repeated name carry none) and are not dropped.
pub open spec fn spec_relayed_headers(headers: Seq<(Option<Seq<char>>, Seq<u8>)>) -> Seq<(Seq<char>, Seq<u8>)>
    decreases headers.len(),
{
    if headers.len() == 0 {
        Seq::empty()
    } else {
        let rest = spec_relayed_headers(headers.drop_last());
        match headers.last().0 {
            Some(name) => if is_dropped_header(name) {
                rest
            } else {
                rest.push((name, headers.last().1))
            },
            None => rest,
        }
    }
}

pub open spec fn header_views(h: Seq<(Option<String>, Vec<u8>)>) -> Seq<(Option<Seq<char>>, Seq<u8>)> {
    h.map_values(
        |e: (Option<String>, Vec<u8>)|
            (
                match e.0 {
                    Some(n) => Some(n@),
                    None => None,
                },
                e.1@,
            ),
    )
}

pub open spec fn out_views(h: Seq<(String, Vec<u8>)>) -> Seq<(Seq<char>, Seq<u8>)> {
    h.map_values(|e: (String, Vec<u8>)| (e.0@, e.1@))
}

/// The upstream headers the proxy relays are exactly its named headers other
/// than `access-control-allow-origin` and `alt-svc`: each such header comes
/// through with its value (a redirect's `location` included), and nothing
/// else does.  Together with `relayed_headers`, which puts
/// `Access-Control-Allow-Origin: *` first, this is what the client sees.
pub proof fn law_relayed_headers_keep_all_other_headers(h: Seq<(Option<Seq<char>>, Seq<u8>)>)
    ensures
        forall|i: int|
            0 <= i < h.len() && (#[trigger] h[i]).0 is Some && h[i].0->0 != "access-control-allow-origin"@
                && h[i].0->0 != "alt-svc"@ ==> spec_relayed_headers(h).contains((h[i].0->0, h[i].1)),
        forall|j: int|
            0 <= j < spec_relayed_headers(h).len() ==> {
                let (n, v) = #[trigger] spec_relayed_headers(h)[j];
                &&& n != "access-control-allow-origin"@
                &&& n != "alt-svc"@
                &&& exists|i: int| 0 <= i < h.len() && #[trigger] h[i] == (Some(n), v)
            },
        spec_relayed_headers(h).len() <= h.len(),
    decreases h.len(),
{
    if h.len() > 0 {
        let t = h.drop_last();
        law_relayed_headers_keep_all_other_headers(t);
        let rest = spec_relayed_headers(t);
        let r = spec_relayed_headers(h);
        assert forall|i: int|
            0 <= i < h.len() && (#[trigger] h[i]).0 is Some && h[i].0->0 != "access-control-allow-origin"@
                && h[i].0->0 != "alt-svc"@ implies r.contains((h[i].0->0, h[i].1)) by {
            let n = h[i].0->0;
            if i < h.len() - 1 {
                assert(t[i] == h[i]);
                assert(rest.contains((n, t[i].1)));
                let k = choose|k: int| 0 <= k < rest.len() && rest[k] == (n, t[i].1);
                assert(r[k] == rest[k]);
            } else {
                assert(r[r.len() - 1] == (n, h[i].1));
            }
        }
        assert forall|j: int| 0 <= j < r.len() implies {
            let (n, v) = #[trigger] r[j];
            &&& n != "access-control-allow-origin"@
            &&& n != "alt-svc"@
            &&& exists|i: int| 0 <= i < h.len() && #[trigger] h[i] == (Some(n), v)
        } by {
            if j < rest.len() {
                assert(r[j] == rest[j]);
                let (n, v) = rest[j];
                let i = choose|i: int| 0 <= i < t.len() && #[trigger] t[i] == (Some(n), v);
                assert(h[i] == t[i]);
            } else {
                assert(h[h.len() - 1] == (Some(r[j].0), r[j].1));
            }
        }
    }
}

/// The headers of the relayed response: `Access-Control-Allow-Origin: *`
/// first, then the relayed upstream headers.
pub fn relayed_headers(headers: &Vec<(Option<String>, Vec<u8>)>) -> (r: Vec<(String, Vec<u8>)>)
    ensures
        out_views(r@) == seq![("Access-Control-Allow-Origin"@, "*".spec_bytes())]
            + spec_relayed_headers(header_views(headers@)),
{
    let mut r: Vec<(String, Vec<u8>)> = Vec::new();
    r.push(("Access-Control-Allow-Origin".to_owned(), "*".as_bytes_vec()));
    let acao = "access-control-allow-origin".to_owned();
    let alt = "alt-svc".to_owned();
    let n = headers.len();
    for i in 0..n
        invariant
            n == headers@.len(),
            acao@ == "access-control-allow-origin"@,
            alt@ == "alt-svc"@,
            out_views(r@) == seq![("Access-Control-Allow-Origin"@, "*".spec_bytes())]
                + spec_relayed_headers(header_views(headers@).take(i as int)),
    {
        let ghost before = r@;
        let ghost hv = header_views(headers@);
        assert(hv.take(i + 1).drop_last() == hv.take(i as int));
        assert(hv.take(i + 1).last() == hv[i as int]);
        match &headers[i].0 {
            Some(name) => {
                if *name != acao && *name != alt {
                    r.push((name.clone(), headers[i].1.clone()));
                    assert(out_views(r@) == out_views(before).push((name@, headers@[i as int].1@)));
                } else {
                    assert(r@ == before);
                }
            },
            None => {
                assert(r@ == before);
            },
        }
    }
    assert(header_views(headers@).take(n as int) == header_views(headers@));
    r
}

/// The answer when the site cannot be reached: status 502 and `Bad Gateway`.
pub fn bad_gateway_reply() -> (r: (u16, String))
    ensures
        r.0 == 502,
        r.1@ == "Bad Gateway"@,
{
    (502, "Bad Gateway".to_owned())
}

// ---------------------------------------------------------------------------
// Cached uploads
// ---------------------------------------------------------------------------

/// The URL an upload is fetched from when it is not cached.
pub fn uploads_target_url(path: &str) -> (u: String)
    ensures
        u@ == "https://xjtu.app/uploads/"@ + path@,
{
    concat2("https://xjtu.app/uploads/", path)
}

/// The pieces of `s` between the occurrences of `c` or `d` (as `str::split`
/// with the two characters; `c` twice for one).
pub open spec fn split_on(s: Seq<char>, c: char, d: char) -> Seq<Seq<char>>
    decreases s.len(),
{
    if s.len() == 0 {
        seq![Seq::<char>::empty()]
    } else {
        let rest = split_on(s.drop_last(), c, d);
        if s.last() == c || s.last() == d {
            rest.push(Seq::empty())
        } else {
            rest.update(rest.len() - 1, rest.last().push(s.last()))
        }
    }
}

proof fn lemma_split_nonempty(s: Seq<char>, c: char, d: char)
    ensures
        split_on(s, c, d).len() >= 1,
    decreases s.len(),
{
    if s.len() > 0 {
        lemma_split_nonempty(s.drop_last(), c, d);
    }
}

pub open spec fn piece_views(v: Seq<Vec<char>>) -> Seq<Seq<char>> {
    v.map_values(|p: Vec<char>| p@)
}

fn split_chars(cs: &Vec<char>, c: char, d: char) -> (r: Vec<Vec<char>>)
    ensures
        piece_views(r@) == split_on(cs@, c, d),
        r@.len() >= 1,
{
    let mut r: Vec<Vec<char>> = Vec::new();
    r.push(Vec::new());
    let n = cs.len();
    assert(cs@.take(0) =~= Seq::<char>::empty());
    for i in 0..n
        invariant
            n == cs@.len(),
            r@.len() >= 1,
            piece_views(r@) == split_on(cs@.take(i as int), c, d),
    {
        let ghost before = piece_views(r@);
        assert(cs@.take(i + 1).drop_last() == cs@.take(i as int));
        assert(cs@.take(i + 1).last() == cs@[i as int]);
        if cs[i] == c || cs[i] == d {
            r.push(Vec::new());
            assert(piece_views(r@) == before.push(Seq::<char>::empty()));
        } else {
            let mut piece = r.pop().unwrap();
            piece.push(cs[i]);
            r.push(piece);
            assert(piece_views(r@) == before.update(before.len() - 1, before.last().push(cs@[i as int])));
        }
    }
    assert(cs@.take(n as int) == cs@);
    r
}

/// The directories an upload's cache path passes through: every piece of
/// the path but the last, in order.
pub fn cache_subdirs(path: &str) -> (dirs: Vec<String>)
    ensures
        dirs@.map_values(|d: String| d@) == split_on(path@, '/', '/').drop_last(),
{
    let cs = chars_of(path);
    let pieces = split_chars(&cs, '/', '/');
    let mut dirs: Vec<String> = Vec::new();
    let n = pieces.len() - 1;
    for i in 0..n
        invariant
            n + 1 == pieces@.len(),
            piece_views(pieces@) == split_on(path@, '/', '/'),
            dirs@.map_values(|d: String| d@) == split_on(path@, '/', '/').take(i as int),
    {
        let ghost before = dirs@.map_values(|d: String| d@);
        let d = string_from_chars(&pieces[i]);
        dirs.push(d);
        assert(split_on(path@, '/', '/').take(i + 1) == split_on(path@, '/', '/').take(i as int).push(
            piece_views(pieces@)[i as int],
        ));
        assert(dirs@.map_values(|d: String| d@) == before.push(d@));
    }
    assert(split_on(path@, '/', '/').take(n as int) == split_on(path@, '/', '/').drop_last());
    dirs
}

// ---------------------------------------------------------------------------
// Uploaded file names
// ---------------------------------------------------------------------------

/// The last piece of a path that names something: empty pieces and `.`
/// pieces name nothing.
pub open spec fn last_named_piece(pieces: Seq<Seq<char>>) -> Option<Seq<char>>
    decreases pieces.len(),
{
    if pieces.len() == 0 {
        None
    } else if pieces.last().len() == 0 || pieces.last() == seq!['.'] {
        last_named_piece(pieces.drop_last())
    } else {
        Some(pieces.last())
    }
}

/// The second separator of paths: the backslash on Windows, none beyond `/`
/// elsewhere.
pub open spec fn second_separator(windows: bool) -> char {
    if windows {
        '\\'
    } else {
        '/'
    }
}

/// Whether a path starts with a Windows drive, such as `C:`.
pub open spec fn has_drive(s: Seq<char>) -> bool {
    s.len() >= 2 && (('a' <= s[0] && s[0] <= 'z') || ('A' <= s[0] && s[0] <= 'Z')) && s[1] == ':'
}

/// The path without its leading drive, on Windows.
pub open spec fn strip_drive(s: Seq<char>, windows: bool) -> Seq<char> {
    if windows && has_drive(s) {
        s.skip(2)
    } else {
        s
    }
}

/// The name a file is stored under: the final component of the path, as
/// `Path::file_name` gives it (components are separated by `/`, and on
/// Windows also by backslashes, after a leading drive such as `C:`), none when the
/// path ends in `..` or names nothing.  On Windows a final component that
/// still holds a `:` is refused too: such a name is no plain file name there.
pub open spec fn spec_file_name(path: Seq<char>, windows: bool) -> Option<Seq<char>> {
    match last_named_piece(split_on(strip_drive(path, windows), '/', second_separator(windows))) {
        Some(p) => if p == seq!['.', '.'] || (windows && p.contains(':')) {
            None
        } else {
            Some(p)
        },
        None => None,
    }
}

fn has_drive_exec(cs: &Vec<char>) -> (b: bool)
    ensures
        b == has_drive(cs@),
{
    cs.len() >= 2 && (('a' <= cs[0] && cs[0] <= 'z') || ('A' <= cs[0] && cs[0] <= 'Z')) && cs[1] == ':'
}

fn contains_char(cs: &Vec<char>, c: char) -> (b: bool)
    ensures
        b == cs@.contains(c),
{
    let n = cs.len();
    for i in 0..n
        invariant
            n == cs@.len(),
            forall|j: int| 0 <= j < i ==> cs@[j] != c,
    {
        if cs[i] == c {
            assert(cs@[i as int] == c);
            return true;
        }
    }
    false
}

/// The name an uploaded file is stored under, or none for a name that
/// would leave the cache directory or names nothing.  `windows` says
/// whether paths are Windows paths (where backslashes separate too).
pub fn sanitize_filename(filename: &str, windows: bool) -> (r: Option<String>)
    ensures
        match r {
            Some(s) => spec_file_name(filename@, windows) == Some(s@),
            None => spec_file_name(filename@, windows) is None,
        },
{
    let all = chars_of(filename);
    let cs = if windows && has_drive_exec(&all) {
        let mut rest: Vec<char> = Vec::new();
        let n = all.len();
        for i in 2..n
            invariant
                n == all@.len(),
                2 <= n,
                rest@ == all@.subrange(2, i as int),
        {
            rest.push(all[i]);
            assert(all@.subrange(2, i + 1) == all@.subrange(2, i as int).push(all@[i as int]));
        }
        assert(rest@ == all@.skip(2));
        rest
    } else {
        all
    };
    let sep = if windows {
        '\\'
    } else {
        '/'
    };
    let pieces = split_chars(&cs, '/', sep);
    let mut k = pieces.len();
    let ghost pv = piece_views(pieces@);
    assert(pv.take(k as int) == pv);
    while k > 0 && (pieces[k - 1].len() == 0 || (pieces[k - 1].len() == 1 && pieces[k - 1][0] == '.'))
        invariant
            k <= pieces@.len(),
            pv == piece_views(pieces@),
            pv == split_on(strip_drive(filename@, windows), '/', second_separator(windows)),
            last_named_piece(pv.take(k as int)) == last_named_piece(pv),
        decreases k,
    {
        assert(pv.take(k as int).drop_last() == pv.take(k - 1));
        assert(pv.take(k as int).last() == pieces@[k - 1]@);
        assert(pieces@[k - 1]@.len() == 1 ==> pieces@[k - 1]@ =~= seq![pieces@[k - 1]@[0]]);
        k = k - 1;
    }
    if k == 0 {
        return None;
    }
    let last = &pieces[k - 1];
    assert(pv.take(k as int).last() == last@);
    assert(last@.len() == 1 ==> last@ =~= seq![last@[0]]);
    assert(last@.len() == 2 ==> last@ =~= seq![last@[0], last@[1]]);
    if last.len() == 2 && last[0] == '.' && last[1] == '.' {
        return None;
    }
    if windows && contains_char(last, ':') {
        return None;
    }
    Some(string_from_chars(last))
}

/// The replies of the file-upload endpoint.
pub fn invalid_filename_message() -> (m: String)
    ensures
        m@ == "Invalid filename"@,
{
    "Invalid filename".to_owned()
}

pub fn upload_success_message() -> (m: String)
    ensures
        m@ == "File uploaded successfully"@,
{
    "File uploaded successfully".to_owned()
}

// ---------------------------------------------------------------------------
// The HTTP-to-SOCKS bridge
// ---------------------------------------------------------------------------

/// What `httparse` reads from the head of an HTTP request: nothing unless the
/// head is complete and well formed, else its method and path.
pub uninterp spec fn http_request_head(bytes: Seq<u8>) -> Option<(Option<Seq<char>>, Option<Seq<char>>)>;

pub open spec fn opt_chars(o: Option<String>) -> Option<Seq<char>> {
    match o {
        Some(s) => Some(s@),
        None => None,
    }
}

/// Trusted: `httparse::Request::parse` with room for 16 headers; a complete
/// head gives its method and path, a partial head or an error gives nothing.
/// The contract only names the result: the grammar is httparse's.
#[verifier::external_body]
fn parse_request_head(bytes: &[u8]) -> (r: Option<(Option<String>, Option<String>)>)
    ensures
        match r {
            Some((m, p)) => http_request_head(bytes@) == Some((opt_chars(m), opt_chars(p))),
            None => http_request_head(bytes@) is None,
        },
{
    let mut headers = [httparse::EMPTY_HEADER; 16];
    let mut req = httparse::Request::new(&mut headers);
    match req.parse(bytes) {
        Ok(httparse::Status::Complete(_)) => Some((req.method.map(|m| m.to_owned()), req.path.map(|p| p.to_owned()))),
        Ok(httparse::Status::Partial) => None,
        Err(_) => None,
    }
}

/// What the bridge does with the first bytes a client sends.
pub enum BridgeAction {
    /// A `CONNECT`: answer that the connection is established and tunnel to
    /// the host through the SOCKS proxy, on port 443.
    Tunnel { host: String },
    /// Any other method: fetch the URL over HTTPS and relay the response.
    Forward { method: String, url: String },
    /// Nothing usable was read.
    Ignore,
}

/// The URL a bridged request is fetched from.
pub open spec fn spec_forward_url(path: Seq<char>) -> Seq<char> {
    "https://"@ + "xjtu.app"@ + path
}

/// Decides what to do with a client's first read.
pub fn bridge_action(request: &[u8]) -> (a: BridgeAction)
    ensures
        match a {
            BridgeAction::Ignore => request@.len() == 0 || !(http_request_head(request@) matches Some(
                (Some(_), Some(_)),
            )),
            BridgeAction::Tunnel { host } => {
                &&& request@.len() > 0
                &&& http_request_head(request@) matches Some((Some(m), Some(p)))
                &&& m == "CONNECT"@
                &&& host@ == p
            },
            BridgeAction::Forward { method, url } => {
                &&& request@.len() > 0
                &&& http_request_head(request@) matches Some((Some(m), Some(p)))
                &&& m != "CONNECT"@
                &&& method@ == m
                &&& url@ == spec_forward_url(p)
            },
        },
{
    if request.len() == 0 {
        return BridgeAction::Ignore;
    }
    match parse_request_head(request) {
        Some((Some(method), Some(path))) => {
            let connect = "CONNECT".to_owned();
            if method == connect {
                BridgeAction::Tunnel { host: path }
            } else {
                let mut url = "https://".to_owned();
                push_str(&mut url, "xjtu.app");
                push_str(&mut url, path.as_str());
                BridgeAction::Forward { method, url }
            }
        },
        _ => BridgeAction::Ignore,
    }
}

/// The port a tunnel connects to.
pub const TUNNEL_PORT: u16 = 443;

/// The head of a relayed response: the status line (the reason may be
/// missing), one line per header, and an empty line.
pub open spec fn spec_response_head(code: u16, reason: Seq<char>, headers: Seq<(Seq<char>, Seq<char>)>) -> Seq<char> {
    "HTTP/1.1 "@ + dec_seq(code as nat) + seq![' '] + reason + seq!['\r', '\n'] + header_lines(headers)
        + seq!['\r', '\n']
}

pub open spec fn header_lines(headers: Seq<(Seq<char>, Seq<char>)>) -> Seq<char>
    decreases headers.len(),
{
    if headers.len() == 0 {
        Seq::empty()
    } else {
        header_lines(headers.drop_last()) + headers.last().0 + seq![':', ' '] + headers.last().1
            + seq!['\r', '\n']
    }
}

pub fn response_head(code: u16, reason: &Option<String>, headers: &Vec<(String, String)>) -> (h: String)
    ensures
        h@ == spec_response_head(
            code,
            match reason {
                Some(r) => r@,
                None => Seq::empty(),
            },
            headers@.map_values(|e: (String, String)| (e.0@, e.1@)),
        ),
{
    let mut h = "HTTP/1.1 ".to_owned();
    push_decimal(&mut h, code as u64);
    push_char(&mut h, ' ');
    match reason {
        Some(r) => push_str(&mut h, r.as_str()),
        None => {},
    }
    push_char(&mut h, '\r');
    push_char(&mut h, '\n');
    let ghost start = h@;
    let ghost hv = headers@.map_values(|e: (String, String)| (e.0@, e.1@));
    let n = headers.len();
    for i in 0..n
        invariant
            n == headers@.len(),
            hv == headers@.map_values(|e: (String, String)| (e.0@, e.1@)),
            h@ == start + header_lines(hv.take(i as int)),
    {
        assert(hv.take(i + 1).drop_last() == hv.take(i as int));
        assert(hv.take(i + 1).last() == hv[i as int]);
        push_str(&mut h, headers[i].0.as_str());
        push_char(&mut h, ':');
        push_char(&mut h, ' ');
        push_str(&mut h, headers[i].1.as_str());
        push_char(&mut h, '\r');
        push_char(&mut h, '\n');
    }
    assert(hv.take(n as int) == hv);
    push_char(&mut h, '\r');
    push_char(&mut h, '\n');
    h
}

/// The reply to a tunnel request.
pub fn connection_established() -> (r: String)
    ensures
        r@ == "HTTP/1.1 200 Connection Established\r\n\r\n"@,
{
    "HTTP/1.1 200 Connection Established\r\n\r\n".to_owned()
}

/// The reply when the site cannot be reached.
pub fn bridge_error_reply() -> (r: String)
    ensures
        r@ == "HTTP/1.1 500 Internal Server Error\r\n\r\n"@,
{
    "HTTP/1.1 500 Internal Server Error\r\n\r\n".to_owned()
}

} // verus!

verus! {

proof fn lemma_split_pieces_lack_separator(s: Seq<char>, c: char, d: char)
    ensures
        forall|i: int|
            0 <= i < split_on(s, c, d).len() ==> !(#[trigger] split_on(s, c, d)[i]).contains(c)
                && !split_on(s, c, d)[i].contains(d),
    decreases s.len(),
{
    if s.len() > 0 {
        let rest = split_on(s.drop_last(), c, d);
        lemma_split_pieces_lack_separator(s.drop_last(), c, d);
        lemma_split_nonempty(s.drop_last(), c, d);
        let r = split_on(s, c, d);
        if s.last() != c && s.last() != d {
            assert forall|i: int| 0 <= i < r.len() implies !(#[trigger] r[i]).contains(c) && !r[i].contains(d) by {
                if i == r.len() - 1 {
                    let p = rest.last().push(s.last());
                    assert(r[i] == p);
                    if p.contains(c) || p.contains(d) {
                        let j = choose|j: int| 0 <= j < p.len() && (p[j] == c || p[j] == d);
                        if j < rest.last().len() {
                            assert(rest[rest.len() - 1][j] == p[j]);
                            assert(rest[rest.len() - 1].contains(p[j]));
                        }
                    }
                } else {
                    assert(r[i] == rest[i]);
                }
            }
        } else {
            assert forall|i: int| 0 <= i < r.len() implies !(#[trigger] r[i]).contains(c) && !r[i].contains(d) by {
                if i < rest.len() {
                    assert(r[i] == rest[i]);
                } else {
                    assert(r[i] =~= Seq::<char>::empty());
                }
            }
        }
    }
}

proof fn lemma_last_named_piece_is_a_piece(pieces: Seq<Seq<char>>)
    ensures
        last_named_piece(pieces) matches Some(p) ==> {
            &&& p.len() > 0
            &&& p != seq!['.']
            &&& exists|i: int| 0 <= i < pieces.len() && pieces[i] == p
        },
    decreases pieces.len(),
{
    if pieces.len() > 0 {
        lemma_last_named_piece_is_a_piece(pieces.drop_last());
        if let Some(p) = last_named_piece(pieces.drop_last()) {
            if pieces.last().len() == 0 || pieces.last() == seq!['.'] {
                let i = choose|i: int| 0 <= i < pieces.drop_last().len() && pieces.drop_last()[i] == p;
                assert(pieces[i] == p);
            }
        }
        if !(pieces.last().len() == 0 || pieces.last() == seq!['.']) {
            assert(pieces[pieces.len() - 1] == pieces.last());
        }
    }
}

proof fn lemma_split_append_plain(s: Seq<char>, p: Seq<char>, c: char, d: char)
    requires
        !p.contains(c),
        !p.contains(d),
    ensures
        split_on(s + p, c, d).len() >= 1,
        split_on(s + p, c, d).last() == split_on(s, c, d).last() + p,
    decreases p.len(),
{
    lemma_split_nonempty(s + p, c, d);
    lemma_split_nonempty(s, c, d);
    if p.len() == 0 {
        assert(s + p == s);
    } else {
        let q = p.drop_last();
        assert(!q.contains(c) && !q.contains(d)) by {
            if q.contains(c) || q.contains(d) {
                let j = choose|j: int| 0 <= j < q.len() && (q[j] == c || q[j] == d);
                assert(p[j] == q[j]);
            }
        }
        lemma_split_append_plain(s, q, c, d);
        assert((s + p).drop_last() == s + q);
        assert((s + p).last() == p.last());
        assert(p.last() != c && p.last() != d) by {
            assert(p[p.len() - 1] == p.last());
        }
        assert(split_on(s, c, d).last() + q.push(p.last()) == (split_on(s, c, d).last() + q).push(p.last()));
        assert(q.push(p.last()) == p);
    }
}

/// A plain file name is stored as it is: a name that is not empty, not `.`
/// or `..`, and holds no separator (`/`, and on Windows neither a backslash
/// nor `:`) is kept whole, whatever its other characters (spaces
/// included), whether it comes alone or as the last component of a path.
pub proof fn law_plain_names_are_kept(dir: Seq<char>, p: Seq<char>, windows: bool)
    requires
        p.len() > 0,
        p != seq!['.'],
        p != seq!['.', '.'],
        !p.contains('/'),
        windows ==> !p.contains('\\') && !p.contains(':'),
    ensures
        spec_file_name(p, windows) == Some(p),
        spec_file_name(dir + seq!['/'] + p, windows) == Some(p),
{
    let sep = second_separator(windows);
    assert(!p.contains(sep));
    // alone
    assert(!(windows && has_drive(p))) by {
        if windows && has_drive(p) {
            assert(p[1] == ':');
        }
    }
    assert(strip_drive(p, windows) == p);
    lemma_split_append_plain(Seq::<char>::empty(), p, '/', sep);
    assert(Seq::<char>::empty() + p == p);
    assert(split_on(Seq::<char>::empty(), '/', sep).last() == Seq::<char>::empty());
    assert(split_on(p, '/', sep).last() == p);
    // after a directory
    let whole = dir + seq!['/'] + p;
    let t = if windows && has_drive(whole) {
        dir.skip(2)
    } else {
        dir
    };
    assert(strip_drive(whole, windows) == t + seq!['/'] + p) by {
        if windows && has_drive(whole) {
            assert(dir.len() >= 2) by {
                if dir.len() < 2 {
                    if dir.len() == 1 {
                        assert(whole[1] == '/');
                    } else {
                        assert(whole[0] == '/');
                    }
                }
            }
            assert(whole.skip(2) =~= dir.skip(2) + seq!['/'] + p);
        }
    }
    let tp = t.push('/');
    assert(t + seq!['/'] + p == tp + p);
    lemma_split_append_plain(tp, p, '/', sep);
    assert(tp.drop_last() == t);
    assert(split_on(tp, '/', sep) == split_on(t, '/', sep).push(Seq::<char>::empty()));
    assert(Seq::<char>::empty() + p == p);
    assert(split_on(tp + p, '/', sep).last() == p);
}

/// A stored upload's name stays inside the cache directory: it holds no
/// `/` (and on Windows no backslash and no `:`), is not empty, and is neither
/// `.` nor `..`.
pub proof fn law_sanitized_name_stays_inside(path: Seq<char>, windows: bool)
    ensures
        spec_file_name(path, windows) matches Some(n) ==> {
            &&& !n.contains('/')
            &&& windows ==> !n.contains('\\') && !n.contains(':')
            &&& n.len() > 0
            &&& n != seq!['.']
            &&& n != seq!['.', '.']
        },
{
    let stripped = strip_drive(path, windows);
    let sep = second_separator(windows);
    lemma_split_pieces_lack_separator(stripped, '/', sep);
    lemma_last_named_piece_is_a_piece(split_on(stripped, '/', sep));
    if let Some(n) = spec_file_name(path, windows) {
        let i = choose|i: int|
            0 <= i < split_on(stripped, '/', sep).len() && split_on(stripped, '/', sep)[i] == n;
        assert(!split_on(stripped, '/', sep)[i].contains('/'));
        assert(!split_on(stripped, '/', sep)[i].contains(sep));
    }
}

} // verus!

verus! {

/// `p` occurs in `s` at index `i`.
pub open spec fn occurs_at(s: Seq<u8>, p: Seq<u8>, i: int) -> bool {
    0 <= i && i + p.len() <= s.len() && s.subrange(i, i + p.len()) == p
}

proof fn lemma_replace_without_occurrence(s: Seq<u8>, p: Seq<u8>, r: Seq<u8>)
    requires
        forall|i: int| !#[trigger] occurs_at(s, p, i),
    ensures
        replace_all(s, p, r) == s,
    decreases s.len(),
{
    if p.len() == 0 || s.len() < p.len() {
    } else {
        assert(!occurs_at(s, p, 0));
        assert(s.subrange(0, p.len() as int) == s.take(p.len() as int));
        let t = s.skip(1);
        assert forall|i: int| !#[trigger] occurs_at(t, p, i) by {
            if occurs_at(t, p, i) {
                assert(t.subrange(i, i + p.len()) == s.subrange(i + 1, i + 1 + p.len()));
                assert(occurs_at(s, p, i + 1));
            }
        }
        lemma_replace_without_occurrence(t, p, r);
        assert(seq![s[0]] + t == s);
    }
}

/// A text page that links nowhere on the site, and that the lossy UTF-8
/// reading leaves as it is (as it does every valid UTF-8 page), is relayed
/// unchanged.
pub proof fn law_pages_without_site_links_pass_unchanged(body: Seq<u8>)
    requires
        utf8_lossy(body) == body,
        forall|i: int| !#[trigger] occurs_at(body, site_http(), i),
        forall|i: int| !#[trigger] occurs_at(body, site_https(), i),
    ensures
        spec_rewritten(body) == body,
{
    lemma_replace_without_occurrence(body, site_http(), local_proxy());
    lemma_replace_without_occurrence(body, site_https(), local_proxy());
}

} // verus!

verus! {

/// `q` starts with a byte that it and `r` hold nowhere else, `r` starts with
/// that byte too, and `r` and `q` differ before either ends.
pub open spec fn head_unique(q: Seq<u8>, r: Seq<u8>) -> bool {
    &&& q.len() > 0
    &&& r.len() > 0
    &&& r[0] == q[0]
    &&& forall|j: int| 1 <= j < q.len() ==> #[trigger] q[j] != q[0]
    &&& forall|j: int| 1 <= j < r.len() ==> #[trigger] r[j] != q[0]
    &&& exists|k: int| 0 <= k < q.len() && k < r.len() && #[trigger] q[k] != r[k]
}

proof fn lemma_skip_occurs(s: Seq<u8>, q: Seq<u8>, n: int, i: int)
    requires
        0 <= n <= s.len(),
        occurs_at(s.skip(n), q, i),
    ensures
        occurs_at(s, q, i + n),
{
    assert(s.skip(n).subrange(i, i + q.len()) =~= s.subrange(i + n, i + n + q.len()));
}

proof fn lemma_skip_occurs_back(s: Seq<u8>, q: Seq<u8>, n: int, i: int)
    requires
        0 <= n <= s.len(),
        0 <= i,
        occurs_at(s, q, i + n),
    ensures
        occurs_at(s.skip(n), q, i),
{
    assert(s.skip(n).subrange(i, i + q.len()) =~= s.subrange(i + n, i + n + q.len()));
}

/// A prefix of the replaced text either is the same prefix of the input text,
/// or holds the first byte of the replacement.
proof fn lemma_prefix_or_head(s: Seq<u8>, p: Seq<u8>, r: Seq<u8>, l: int)
    requires
        p.len() > 0,
        r.len() > 0,
        0 <= l <= replace_all(s, p, r).len(),
    ensures
        (l <= s.len() && replace_all(s, p, r).take(l) == s.take(l)) || exists|m: int|
            0 <= m < l && #[trigger] replace_all(s, p, r)[m] == r[0],
    decreases s.len(),
{
    let t = replace_all(s, p, r);
    if s.len() < p.len() {
    } else if s.take(p.len() as int) == p {
        if l == 0 {
            assert(t.take(0) =~= s.take(0));
        } else {
            assert(t[0] == r[0]);
        }
    } else {
        let t1 = replace_all(s.skip(1), p, r);
        assert(t == seq![s[0]] + t1);
        if l == 0 {
            assert(t.take(0) =~= s.take(0));
        } else {
            lemma_prefix_or_head(s.skip(1), p, r, l - 1);
            if l - 1 <= s.skip(1).len() && t1.take(l - 1) == s.skip(1).take(l - 1) {
                assert(t.take(l) =~= s.take(l)) by {
                    assert forall|k: int| 0 <= k < l implies t.take(l)[k] == s.take(l)[k] by {
                        if k > 0 {
                            assert(t1.take(l - 1)[k - 1] == s.skip(1).take(l - 1)[k - 1]);
                        }
                    }
                }
            } else {
                let m = choose|m: int| 0 <= m < l - 1 && #[trigger] t1[m] == r[0];
                assert(t[m + 1] == r[0]);
            }
        }
    }
}

/// Greedy replacement of `p` by `r` leaves no occurrence of `q` behind when
/// every occurrence of `q` in the text is one of `p`.
proof fn lemma_no_occurrence_after_replace(s: Seq<u8>, p: Seq<u8>, r: Seq<u8>, q: Seq<u8>)
    requires
        p.len() > 0,
        head_unique(q, r),
        forall|i: int| #[trigger] occurs_at(s, q, i) ==> occurs_at(s, p, i),
    ensures
        forall|i: int| !#[trigger] occurs_at(replace_all(s, p, r), q, i),
    decreases s.len(),
{
    let t = replace_all(s, p, r);
    if s.len() < p.len() {
        assert forall|i: int| !#[trigger] occurs_at(t, q, i) by {
            if occurs_at(s, q, i) {
                assert(occurs_at(s, p, i));
            }
        }
    } else if s.take(p.len() as int) == p {
        let rest = s.skip(p.len() as int);
        let t1 = replace_all(rest, p, r);
        assert forall|i: int| #[trigger] occurs_at(rest, q, i) implies occurs_at(rest, p, i) by {
            lemma_skip_occurs(s, q, p.len() as int, i);
            lemma_skip_occurs_back(s, p, p.len() as int, i);
        }
        lemma_no_occurrence_after_replace(rest, p, r, q);
        assert(t == r + t1);
        assert forall|i: int| !#[trigger] occurs_at(t, q, i) by {
            if occurs_at(t, q, i) {
                if i >= r.len() {
                    assert(t.subrange(i, i + q.len()) =~= t1.subrange(i - r.len(), i - r.len() + q.len()));
                    assert(occurs_at(t1, q, i - r.len()));
                } else if i > 0 {
                    assert(t.subrange(i, i + q.len())[0] == t[i]);
                    assert(t[i] == r[i]);
                    assert(r[i] != q[0]);
                } else {
                    let k = choose|k: int| 0 <= k < q.len() && k < r.len() && #[trigger] q[k] != r[k];
                    assert(t.subrange(0, q.len() as int)[k] == t[k]);
                }
            }
        }
    } else {
        let rest = s.skip(1);
        let t1 = replace_all(rest, p, r);
        assert forall|i: int| #[trigger] occurs_at(rest, q, i) implies occurs_at(rest, p, i) by {
            lemma_skip_occurs(s, q, 1, i);
            lemma_skip_occurs_back(s, p, 1, i);
        }
        lemma_no_occurrence_after_replace(rest, p, r, q);
        assert(t == seq![s[0]] + t1);
        assert forall|i: int| !#[trigger] occurs_at(t, q, i) by {
            if occurs_at(t, q, i) {
                if i >= 1 {
                    assert(t.subrange(i, i + q.len()) =~= t1.subrange(i - 1, i - 1 + q.len()));
                    assert(occurs_at(t1, q, i - 1));
                } else {
                    lemma_prefix_or_head(rest, p, r, q.len() - 1);
                    if q.len() - 1 <= rest.len() && t1.take(q.len() - 1) == rest.take(q.len() - 1) {
                        assert(s.subrange(0, q.len() as int) =~= t.subrange(0, q.len() as int)) by {
                            assert forall|k: int| 0 <= k < q.len() implies s.subrange(0, q.len() as int)[k]
                                == t.subrange(0, q.len() as int)[k] by {
                                if k > 0 {
                                    assert(t1.take(q.len() - 1)[k - 1] == rest.take(q.len() - 1)[k - 1]);
                                }
                            }
                        }
                        assert(occurs_at(s, q, 0));
                        assert(occurs_at(s, p, 0));
                        assert(s.subrange(0, p.len() as int) =~= s.take(p.len() as int));
                    } else {
                        let m = choose|m: int| 0 <= m < q.len() - 1 && #[trigger] t1[m] == r[0];
                        assert(t[m + 1] == r[0]);
                        assert(t.subrange(0, q.len() as int)[m + 1] == t[m + 1]);
                        assert(q[m + 1] != q[0]);
                    }
                }
            }
        }
    }
}

/// A relayed text page links nowhere on the site any more: neither
/// `http://xjtu.app` nor `https://xjtu.app` occurs in it.
pub proof fn law_rewritten_pages_have_no_site_links(body: Seq<u8>)
    ensures
        forall|i: int| !#[trigger] occurs_at(spec_rewritten(body), site_http(), i),
        forall|i: int| !#[trigger] occurs_at(spec_rewritten(body), site_https(), i),
{
    let r = local_proxy();
    let p1 = site_http();
    let p2 = site_https();
    assert(head_unique(p1, r)) by {
        assert(p1[7] != r[7]);
    }
    assert(head_unique(p2, r)) by {
        assert(p2[4] != r[4]);
    }
    let u = utf8_lossy(body);
    lemma_no_occurrence_after_replace(u, p1, r, p1);
    let t1 = replace_all(u, p1, r);
    lemma_no_occurrence_after_replace(t1, p2, r, p2);
    lemma_no_occurrence_after_replace(t1, p2, r, p1);
}

} // verus!
