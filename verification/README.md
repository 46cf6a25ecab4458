# localshare

The core of LocalShare, a LocalSend (protocol v2.1) peer with chat, a proxy
in front of the forum site and a TUIC client configuration, written as a
Verus library: Verus verifies every function in `src/` against its contract,
except the few trusted wrappers around outside crates (marked `external_body`),
whose contracts are taken from those crates' sources and documentation.

## Layout

- `src/text.rs` – hexadecimal and decimal rendering, trimming, ASCII case
  folding, byte-level replacement.
- `src/strmap.rs` – a string-keyed map with distinct keys, modelled as a `Map`.
- `src/net.rs` – IP and socket addresses as values, their text form, and the
  address the multicast socket binds to.
- `src/common.rs` – protocol records, the peer record, chat records, random
  identifiers and SHA-256 fingerprints.
- `src/sessions.rs` – upload sessions: opening, answering, issuing tokens,
  admitting uploads.
- `src/chat.rs` – chat history, the chat list with unread counters, and the
  order in which a peer's addresses are tried.
- `src/localsend.rs` – peer registration, announcements, file
  synchronisation between devices, sending files.
- `src/proxy.rs` – the reverse proxy's rewriting, the upload cache, file-name
  sanitising and the HTTP-to-SOCKS bridge's decisions.
- `src/tuic.rs` – relay modes, congestion controls, the server address, the
  SOCKS5 listener's authentication and the root certificates.
- `src/commands.rs` – what the app's commands compute around their I/O.
- `tests/` – tests of the library on concrete values.
- `app/` – the Tauri shell: commands, HTTP servers, sockets and stores, which
  hand plain values to the library and act on what it returns.

The public `law_*` proof functions state properties that span several
operations (a token issued on acceptance admits its upload, a rejected session
admits none, rewritten pages no longer link to the site, and so on).
