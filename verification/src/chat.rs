//! Chat between peers: the history kept per peer, the chat list with its
//! unread counters, and the order in which a peer's addresses are tried.
use vstd::prelude::*;
use std::collections::VecDeque;
use crate::common::{
    generate_random_color, generate_random_string, is_pastel_color, ChatHistory, ChatMessage,
    ChatSession, ChatSessions, Message, PeerInfo, Timestamp,
};
use crate::net::{socket_text, SocketAddress, push_socket_text};
use crate::text::{concat2, is_hex_text, push_str};

verus! {

/// The store key of the history with a peer.
pub open spec fn spec_chat_history_key(peer_fingerprint: Seq<char>) -> Seq<char> {
    "history_"@ + peer_fingerprint
}

pub fn chat_history_key(peer_fingerprint: &str) -> (k: String)
    ensures
        k@ == spec_chat_history_key(peer_fingerprint@),
{
    concat2("history_", peer_fingerprint)
}

/// The message as stored on arrival: unread.
pub open spec fn unread(m: ChatMessage) -> ChatMessage {
    ChatMessage { read: false, ..m }
}

/// The chat-list entry after a message arrives from its peer.
pub open spec fn session_after_incoming(
    old: Option<ChatSession>,
    m: ChatMessage,
    color: String,
) -> ChatSession {
    match old {
        None => ChatSession {
            peer_fingerprint: m.sender_fingerprint,
            peer_alias: m.sender_alias,
            last_message: Some(unread(m)),
            unread_count: 1,
            color,
        },
        Some(s) => ChatSession {
            last_message: Some(unread(m)),
            unread_count: (s.unread_count + 1) as u32,
            ..s
        },
    }
}

/// The chat-list entry after a message is sent to its peer.
pub open spec fn session_after_outgoing(
    old: Option<ChatSession>,
    peer_fingerprint: String,
    peer_alias: String,
    m: ChatMessage,
    color: String,
) -> ChatSession {
    match old {
        None => ChatSession {
            peer_fingerprint,
            peer_alias,
            last_message: Some(m),
            unread_count: 0,
            color,
        },
        Some(s) => ChatSession { last_message: Some(m), ..s },
    }
}

pub open spec fn lookup(sessions: Map<Seq<char>, ChatSession>, k: Seq<char>) -> Option<ChatSession> {
    if sessions.dom().contains(k) {
        Some(sessions[k])
    } else {
        None
    }
}

/// The counter of a known session can still grow by one.
pub open spec fn can_count_one_more(sessions: Map<Seq<char>, ChatSession>, k: Seq<char>) -> bool {
    sessions.dom().contains(k) ==> sessions[k].unread_count < u32::MAX
}

/// Stores an arriving message as unread and updates the sender's chat-list
/// entry; a new entry gets `color`.
pub fn record_incoming_with_color(
    history: &mut ChatHistory,
    sessions: &mut ChatSessions,
    message: ChatMessage,
    color: String,
)
    requires
        can_count_one_more(old(sessions).sessions@, message.sender_fingerprint@),
    ensures
        final(history).messages@ == old(history).messages@.push(unread(message)),
        final(sessions).sessions@ == old(sessions).sessions@.insert(
            message.sender_fingerprint@,
            session_after_incoming(
                lookup(old(sessions).sessions@, message.sender_fingerprint@),
                message,
                color,
            ),
        ),
{
    let peer = message.sender_fingerprint.clone();
    let mut m = message.clone();
    m.read = false;
    history.messages.push(m.clone());
    let updated = match sessions.sessions.remove(&peer) {
        None => ChatSession {
            peer_fingerprint: message.sender_fingerprint.clone(),
            peer_alias: message.sender_alias.clone(),
            last_message: Some(m),
            unread_count: 1,
            color,
        },
        Some(s) => ChatSession {
            peer_fingerprint: s.peer_fingerprint,
            peer_alias: s.peer_alias,
            last_message: Some(m),
            unread_count: s.unread_count + 1,
            color: s.color,
        },
    };
    sessions.sessions.insert(peer, updated);
    assert(sessions.sessions@ =~= old(sessions).sessions@.insert(
        message.sender_fingerprint@,
        session_after_incoming(
            lookup(old(sessions).sessions@, message.sender_fingerprint@),
            message,
            color,
        ),
    ));
}

/// A chat message that arrived: it is stored unread, the sender's entry
/// counts one more unread message (a new entry gets a random pastel color),
/// and the reply is `Message received`.
pub fn handle_incoming_chat_message(
    history: &mut ChatHistory,
    sessions: &mut ChatSessions,
    chat_message: ChatMessage,
) -> (r: Result<String, String>)
    requires
        can_count_one_more(old(sessions).sessions@, chat_message.sender_fingerprint@),
    ensures
        r matches Ok(t) && t@ == "Message received"@,
        final(history).messages@ == old(history).messages@.push(unread(chat_message)),
        exists|color: String|
            #![trigger session_after_incoming(lookup(old(sessions).sessions@, chat_message.sender_fingerprint@), chat_message, color)]
            (lookup(old(sessions).sessions@, chat_message.sender_fingerprint@) is None
                ==> is_pastel_color(color@)) && final(sessions).sessions@
                == old(sessions).sessions@.insert(
                chat_message.sender_fingerprint@,
                session_after_incoming(
                    lookup(old(sessions).sessions@, chat_message.sender_fingerprint@),
                    chat_message,
                    color,
                ),
            ),
{
    let color = if sessions.sessions.contains_key(&chat_message.sender_fingerprint) {
        String::new()
    } else {
        generate_random_color()
    };
    let ghost c = color;
    record_incoming_with_color(history, sessions, chat_message, color);
    Ok("Message received".to_owned())
}

/// A message this device sends to a peer: it is already read.
pub fn new_outgoing_message(
    id: String,
    my_response: &Message,
    peer_fingerprint: String,
    content: String,
    timestamp: Timestamp,
) -> (m: ChatMessage)
    ensures
        m.id == id,
        m.sender_fingerprint == my_response.fingerprint,
        m.sender_alias == my_response.alias,
        m.receiver_fingerprint == peer_fingerprint,
        m.content == content,
        m.timestamp == timestamp,
        m.read,
{
    ChatMessage {
        id,
        sender_fingerprint: my_response.fingerprint.clone(),
        sender_alias: my_response.alias.clone(),
        receiver_fingerprint: peer_fingerprint,
        content,
        timestamp,
        read: true,
    }
}

/// Stores a sent message and updates the peer's chat-list entry; a new entry
/// gets `color` and no unread messages.
pub fn record_outgoing_with_color(
    history: &mut ChatHistory,
    sessions: &mut ChatSessions,
    peer_fingerprint: &String,
    peer_alias: String,
    message: ChatMessage,
    color: String,
)
    ensures
        final(history).messages@ == old(history).messages@.push(message),
        final(sessions).sessions@ == old(sessions).sessions@.insert(
            peer_fingerprint@,
            session_after_outgoing(
                lookup(old(sessions).sessions@, peer_fingerprint@),
                *peer_fingerprint,
                peer_alias,
                message,
                color,
            ),
        ),
{
    history.messages.push(message.clone());
    let updated = match sessions.sessions.remove(peer_fingerprint) {
        None => ChatSession {
            peer_fingerprint: peer_fingerprint.clone(),
            peer_alias,
            last_message: Some(message),
            unread_count: 0,
            color,
        },
        Some(s) => ChatSession {
            peer_fingerprint: s.peer_fingerprint,
            peer_alias: s.peer_alias,
            last_message: Some(message),
            unread_count: s.unread_count,
            color: s.color,
        },
    };
    sessions.sessions.insert(peer_fingerprint.clone(), updated);
    assert(sessions.sessions@ =~= old(sessions).sessions@.insert(
        peer_fingerprint@,
        session_after_outgoing(
            lookup(old(sessions).sessions@, peer_fingerprint@),
            *peer_fingerprint,
            peer_alias,
            message,
            color,
        ),
    ));
}

/// Stores a sent message; a new chat-list entry gets a random pastel color.
pub fn record_outgoing(
    history: &mut ChatHistory,
    sessions: &mut ChatSessions,
    peer_fingerprint: &String,
    peer_alias: String,
    message: ChatMessage,
)
    ensures
        final(history).messages@ == old(history).messages@.push(message),
        exists|color: String|
            #![trigger session_after_outgoing(lookup(old(sessions).sessions@, peer_fingerprint@), *peer_fingerprint, peer_alias, message, color)]
            (lookup(old(sessions).sessions@, peer_fingerprint@) is None ==> is_pastel_color(color@))
                && final(sessions).sessions@ == old(sessions).sessions@.insert(
                peer_fingerprint@,
                session_after_outgoing(
                    lookup(old(sessions).sessions@, peer_fingerprint@),
                    *peer_fingerprint,
                    peer_alias,
                    message,
                    color,
                ),
            ),
{
    let color = if sessions.sessions.contains_key(peer_fingerprint) {
        String::new()
    } else {
        generate_random_color()
    };
    let ghost c = color;
    record_outgoing_with_color(history, sessions, peer_fingerprint, peer_alias, message, color);
}

/// A message after the chat with `peer` is read: its own messages are read.
pub open spec fn read_if_from(m: ChatMessage, peer: Seq<char>) -> ChatMessage {
    if m.sender_fingerprint@ == peer {
        ChatMessage { read: true, ..m }
    } else {
        m
    }
}

/// Marks every message from `peer` as read; the others are kept as they are.
pub fn mark_history_read(history: &mut ChatHistory, peer: &String)
    ensures
        final(history).messages@.len() == old(history).messages@.len(),
        forall|i: int|
            0 <= i < old(history).messages@.len() ==> #[trigger] final(history).messages@[i]
                == read_if_from(old(history).messages@[i], peer@),
{
    let n = history.messages.len();
    let mut out: Vec<ChatMessage> = Vec::new();
    let mut old_msgs: Vec<ChatMessage> = Vec::new();
    std::mem::swap(&mut history.messages, &mut old_msgs);
    let ghost orig = old_msgs@;
    for i in 0..n
        invariant
            n == orig.len(),
            old_msgs@ == orig,
            out@.len() == i,
            forall|j: int| 0 <= j < i ==> #[trigger] out@[j] == read_if_from(orig[j], peer@),
    {
        let mut m = old_msgs[i].clone();
        if m.sender_fingerprint == *peer {
            m.read = true;
        }
        out.push(m);
    }
    history.messages = out;
}

/// The chat-list entry of `peer` with no unread messages.
pub fn clear_unread(sessions: &mut ChatSessions, peer: &String)
    ensures
        !old(sessions).sessions@.dom().contains(peer@) ==> final(sessions).sessions@
            == old(sessions).sessions@,
        old(sessions).sessions@.dom().contains(peer@) ==> final(sessions).sessions@
            == old(sessions).sessions@.insert(
            peer@,
            ChatSession { unread_count: 0, ..old(sessions).sessions@[peer@] },
        ),
{
    match sessions.sessions.remove(peer) {
        Some(s) => {
            let cleared = ChatSession {
                peer_fingerprint: s.peer_fingerprint,
                peer_alias: s.peer_alias,
                last_message: s.last_message,
                unread_count: 0,
                color: s.color,
            };
            sessions.sessions.insert(peer.clone(), cleared);
            assert(sessions.sessions@ =~= old(sessions).sessions@.insert(
                peer@,
                ChatSession { unread_count: 0, ..old(sessions).sessions@[peer@] },
            ));
        },
        None => {
            assert(sessions.sessions@ =~= old(sessions).sessions@);
        },
    }
}

/// Marks the chat with `peer` read, in whichever of the two records is kept.
pub fn mark_messages_as_read(
    history: &mut Option<ChatHistory>,
    sessions: &mut Option<ChatSessions>,
    peer_fingerprint: &String,
) -> (r: Result<String, String>)
    ensures
        r matches Ok(t) && t@ == "Messages marked as read"@,
        *old(history) is None <==> *final(history) is None,
        *old(sessions) is None <==> *final(sessions) is None,
        *final(history) matches Some(h) ==> {
            &&& h.messages@.len() == (*old(history))->0.messages@.len()
            &&& forall|i: int|
                0 <= i < h.messages@.len() ==> #[trigger] h.messages@[i] == read_if_from(
                    (*old(history))->0.messages@[i],
                    peer_fingerprint@,
                )
        },
        *final(sessions) matches Some(s) ==> {
            let o = (*old(sessions))->0.sessions@;
            &&& !o.dom().contains(peer_fingerprint@) ==> s.sessions@ == o
            &&& o.dom().contains(peer_fingerprint@) ==> s.sessions@ == o.insert(
                peer_fingerprint@,
                ChatSession { unread_count: 0, ..o[peer_fingerprint@] },
            )
        },
{
    match history {
        Some(h) => mark_history_read(h, peer_fingerprint),
        None => {},
    }
    match sessions {
        Some(s) => clear_unread(s, peer_fingerprint),
        None => {},
    }
    Ok("Messages marked as read".to_owned())
}

// ---------------------------------------------------------------------------
// Delivery to a peer's addresses
// ---------------------------------------------------------------------------

/// The LocalSend port.
pub const LOCALSEND_PORT: u16 = 53317;

/// The addresses a message or a transfer is tried at, in order: the first
/// known address's IP at the LocalSend port, then every known address.
pub open spec fn spec_delivery_targets(remote_addrs: Seq<SocketAddress>) -> Seq<SocketAddress> {
    seq![SocketAddress::spec_new(remote_addrs[0].spec_ip(), LOCALSEND_PORT)] + remote_addrs
}

pub fn delivery_targets(remote_addrs: &VecDeque<SocketAddress>) -> (r: Vec<SocketAddress>)
    requires
        remote_addrs@.len() > 0,
    ensures
        r@ == spec_delivery_targets(remote_addrs@),
{
    let first = remote_addrs[0];
    let mut r: Vec<SocketAddress> = Vec::new();
    r.push(SocketAddress::new(first.ip(), LOCALSEND_PORT));
    let n = remote_addrs.len();
    for i in 0..n
        invariant
            n == remote_addrs@.len(),
            n > 0,
            first == remote_addrs@[0],
            r@ == seq![SocketAddress::spec_new(first.spec_ip(), LOCALSEND_PORT)]
                + remote_addrs@.take(i as int),
    {
        r.push(remote_addrs[i]);
        assert(remote_addrs@.take(i + 1) == remote_addrs@.take(i as int).push(remote_addrs@[i as int]));
    }
    assert(remote_addrs@.take(n as int) == remote_addrs@);
    r
}

/// Trying addresses one after the other until one of them takes the message.
pub struct Delivery {
    targets: Vec<SocketAddress>,
    tried: usize,
    delivered: bool,
}

impl Delivery {
    pub closed spec fn spec_targets(&self) -> Seq<SocketAddress> {
        self.targets@
    }

    /// How many addresses were handed out so far.
    pub closed spec fn spec_tried(&self) -> nat {
        self.tried as nat
    }

    pub closed spec fn spec_delivered(&self) -> bool {
        self.delivered
    }

    pub closed spec fn wf(&self) -> bool {
        self.tried <= self.targets@.len()
    }

    /// A delivery to the targets of a peer's known addresses.
    pub fn start(remote_addrs: &VecDeque<SocketAddress>) -> (d: Self)
        requires
            remote_addrs@.len() > 0,
        ensures
            d.wf(),
            d.spec_targets() == spec_delivery_targets(remote_addrs@),
            d.spec_tried() == 0,
            !d.spec_delivered(),
    {
        Delivery { targets: delivery_targets(remote_addrs), tried: 0, delivered: false }
    }

    /// The next address to try: none once the message was taken or every
    /// address was tried.
    pub fn next_target(&mut self) -> (r: Option<SocketAddress>)
        requires
            old(self).wf(),
        ensures
            final(self).wf(),
            final(self).spec_targets() == old(self).spec_targets(),
            final(self).spec_delivered() == old(self).spec_delivered(),
            (old(self).spec_delivered() || old(self).spec_tried() == old(self).spec_targets().len())
                ==> r is None && final(self).spec_tried() == old(self).spec_tried(),
            !(old(self).spec_delivered() || old(self).spec_tried() == old(self).spec_targets().len())
                ==> r == Some(old(self).spec_targets()[old(self).spec_tried() as int])
                && final(self).spec_tried() == old(self).spec_tried() + 1,
    {
        if self.delivered || self.tried == self.targets.len() {
            None
        } else {
            let t = self.targets[self.tried];
            self.tried = self.tried + 1;
            Some(t)
        }
    }

    /// The last address handed out took the message.
    pub fn mark_delivered(&mut self)
        requires
            old(self).wf(),
        ensures
            final(self).wf(),
            final(self).spec_targets() == old(self).spec_targets(),
            final(self).spec_tried() == old(self).spec_tried(),
            final(self).spec_delivered(),
    {
        self.delivered = true;
    }

    pub fn delivered(&self) -> (b: bool)
        ensures
            b == self.spec_delivered(),
    {
        self.delivered
    }
}

/// The URL a chat message is posted to.
pub open spec fn spec_chat_url(protocol: Seq<char>, addr: SocketAddress) -> Seq<char> {
    protocol + "://"@ + socket_text(addr) + "/api/localsend/v2/chat"@
}

pub fn chat_url(protocol: &str, addr: &SocketAddress) -> (u: String)
    ensures
        u@ == spec_chat_url(protocol@, *addr),
{
    let mut u = protocol.to_owned();
    push_str(&mut u, "://");
    push_socket_text(&mut u, addr);
    push_str(&mut u, "/api/localsend/v2/chat");
    u
}

/// The answer to a peer that is not in the peers store.
pub fn peer_not_found(peer_fingerprint: &str) -> (m: String)
    ensures
        m@ == "peer "@ + peer_fingerprint@ + " not found in peers store"@,
{
    let mut m = "peer ".to_owned();
    push_str(&mut m, peer_fingerprint);
    push_str(&mut m, " not found in peers store");
    m
}

/// The answer of a chat message send: delivered or not.
pub fn chat_send_reply(delivered: bool) -> (r: Result<String, String>)
    ensures
        delivered ==> (r matches Ok(t) && t@ == "Message sent successfully"@),
        !delivered ==> (r matches Err(e) && e@ == "Failed to send message to peer"@),
{
    if delivered {
        Ok("Message sent successfully".to_owned())
    } else {
        Err("Failed to send message to peer".to_owned())
    }
}

} // verus!

verus! {

/// An arriving message adds exactly one to its chat's unread counter (a new
/// chat starts at one), and it becomes the chat's last message, unread.
pub proof fn law_incoming_counts_one_more(old: Option<ChatSession>, m: ChatMessage, color: String)
    requires
        old matches Some(s) ==> s.unread_count < u32::MAX,
    ensures
        session_after_incoming(old, m, color).unread_count == (match old {
            Some(s) => s.unread_count + 1,
            None => 1,
        }),
        session_after_incoming(old, m, color).last_message == Some(unread(m)),
        !unread(m).read,
{
}

/// After the chat is marked read, the next arriving message leaves exactly
/// one unread message.
pub proof fn law_read_then_incoming_counts_one(s: ChatSession, m: ChatMessage, color: String)
    ensures
        session_after_incoming(Some(ChatSession { unread_count: 0, ..s }), m, color).unread_count
            == 1,
{
}

/// Sending a message leaves the chat's unread counter as it was (a new chat
/// has none), and the sent message becomes the chat's last message.
pub proof fn law_outgoing_keeps_unread(
    old: Option<ChatSession>,
    peer_fingerprint: String,
    peer_alias: String,
    m: ChatMessage,
    color: String,
)
    ensures
        session_after_outgoing(old, peer_fingerprint, peer_alias, m, color).unread_count == (
        match old {
            Some(s) => s.unread_count,
            None => 0,
        }),
        session_after_outgoing(old, peer_fingerprint, peer_alias, m, color).last_message == Some(
            m,
        ),
{
}

/// Marking a chat read leaves no unread message from that peer and changes
/// nothing but the read flag.
pub proof fn law_marked_read(m: ChatMessage, peer: Seq<char>)
    ensures
        m.sender_fingerprint@ == peer ==> read_if_from(m, peer).read,
        read_if_from(m, peer).id == m.id,
        read_if_from(m, peer).content == m.content,
        read_if_from(m, peer).sender_fingerprint == m.sender_fingerprint,
        m.sender_fingerprint@ != peer ==> read_if_from(m, peer) == m,
{
}


/// Every chat-list entry names the peer it is kept under.
pub open spec fn entries_named(sessions: Map<Seq<char>, ChatSession>) -> bool {
    forall|k: Seq<char>| #[trigger] sessions.dom().contains(k) ==> sessions[k].peer_fingerprint@ == k
}

/// The chat list's entries name their peers, and every operation keeps it
/// so: after a message from `m`'s sender arrives, after a message is sent to
/// `peer`, and after the chat with `peer` is marked read.  In particular the
/// entry a first message creates names its sender (or, when sending, the
/// peer it was sent to), never this device.
pub proof fn law_chat_entries_name_their_peer(
    sessions: Map<Seq<char>, ChatSession>,
    m: ChatMessage,
    peer: String,
    peer_alias: String,
    color: String,
)
    ensures
        entries_named(sessions) ==> entries_named(
            sessions.insert(m.sender_fingerprint@, session_after_incoming(lookup(sessions, m.sender_fingerprint@), m, color)),
        ),
        entries_named(sessions) ==> entries_named(
            sessions.insert(peer@, session_after_outgoing(lookup(sessions, peer@), peer, peer_alias, m, color)),
        ),
        entries_named(sessions) && sessions.dom().contains(peer@) ==> entries_named(
            sessions.insert(peer@, ChatSession { unread_count: 0, ..sessions[peer@] }),
        ),
        !sessions.dom().contains(m.sender_fingerprint@) ==> session_after_incoming(None, m, color).peer_fingerprint
            == m.sender_fingerprint,
        !sessions.dom().contains(peer@) ==> session_after_outgoing(None, peer, peer_alias, m, color).peer_fingerprint
            == peer,
{
}

} // verus!

verus! {

/// The number of unread messages from `fp` in a history.
pub open spec fn unread_from(msgs: Seq<ChatMessage>, fp: Seq<char>) -> nat
    decreases msgs.len(),
{
    if msgs.len() == 0 {
        0
    } else {
        unread_from(msgs.drop_last(), fp) + (if msgs.last().sender_fingerprint@ == fp
            && !msgs.last().read {
            1nat
        } else {
            0nat
        })
    }
}

/// The unread counter the chat list shows for `fp`: none without an entry.
pub open spec fn counter_of(sessions: Map<Seq<char>, ChatSession>, fp: Seq<char>) -> nat {
    if sessions.dom().contains(fp) {
        sessions[fp].unread_count as nat
    } else {
        0
    }
}

/// The chat list's counter for `fp` is the number of unread messages from
/// `fp` in the history kept with `fp`.
pub open spec fn counter_agrees(msgs: Seq<ChatMessage>, sessions: Map<Seq<char>, ChatSession>, fp: Seq<char>) -> bool {
    counter_of(sessions, fp) == unread_from(msgs, fp)
}

proof fn lemma_unread_from_push(msgs: Seq<ChatMessage>, m: ChatMessage, fp: Seq<char>)
    ensures
        unread_from(msgs.push(m), fp) == unread_from(msgs, fp) + (if m.sender_fingerprint@ == fp
            && !m.read {
            1nat
        } else {
            0nat
        }),
{
    assert(msgs.push(m).drop_last() == msgs);
}

proof fn lemma_unread_after_marking(msgs: Seq<ChatMessage>, after: Seq<ChatMessage>, fp: Seq<char>)
    requires
        after.len() == msgs.len(),
        forall|i: int| 0 <= i < msgs.len() ==> #[trigger] after[i] == read_if_from(msgs[i], fp),
    ensures
        unread_from(after, fp) == 0,
    decreases msgs.len(),
{
    if msgs.len() > 0 {
        lemma_unread_after_marking(msgs.drop_last(), after.drop_last(), fp);
        assert(after.last() == read_if_from(msgs.last(), fp));
    }
}

/// Each chat's unread counter counts the unread messages received from its
/// peer, and every chat operation keeps it so: a message that arrives from
/// `fp` (while its counter can still grow), a message sent to `fp`, and
/// marking the chat with `fp` read (after which both are zero).
pub proof fn law_unread_counter_counts_unread_messages(
    msgs: Seq<ChatMessage>,
    sessions: Map<Seq<char>, ChatSession>,
    fp: String,
    incoming: ChatMessage,
    outgoing: ChatMessage,
    peer_alias: String,
    color: String,
    marked: Seq<ChatMessage>,
)
    ensures
        counter_agrees(msgs, sessions, incoming.sender_fingerprint@) && can_count_one_more(
            sessions,
            incoming.sender_fingerprint@,
        ) ==> counter_agrees(
            msgs.push(unread(incoming)),
            sessions.insert(
                incoming.sender_fingerprint@,
                session_after_incoming(lookup(sessions, incoming.sender_fingerprint@), incoming, color),
            ),
            incoming.sender_fingerprint@,
        ),
        counter_agrees(msgs, sessions, fp@) && outgoing.read ==> counter_agrees(
            msgs.push(outgoing),
            sessions.insert(fp@, session_after_outgoing(lookup(sessions, fp@), fp, peer_alias, outgoing, color)),
            fp@,
        ),
        marked.len() == msgs.len() && (forall|i: int|
            0 <= i < msgs.len() ==> #[trigger] marked[i] == read_if_from(msgs[i], fp@)) ==> {
            &&& unread_from(marked, fp@) == 0
            &&& counter_agrees(
                marked,
                if sessions.dom().contains(fp@) {
                    sessions.insert(fp@, ChatSession { unread_count: 0, ..sessions[fp@] })
                } else {
                    sessions
                },
                fp@,
            )
        },
{
    lemma_unread_from_push(msgs, unread(incoming), incoming.sender_fingerprint@);
    lemma_unread_from_push(msgs, outgoing, fp@);
    if marked.len() == msgs.len() && (forall|i: int|
        0 <= i < msgs.len() ==> #[trigger] marked[i] == read_if_from(msgs[i], fp@)) {
        lemma_unread_after_marking(msgs, marked, fp@);
    }
}

} // verus!

verus! {

/// A chat message on its way: the message, the scheme to post it with, and
/// the addresses to try.
pub struct ChatSend {
    pub message: ChatMessage,
    pub protocol: String,
    pub delivery: Delivery,
}

/// The first part of sending a chat message: with the peer unknown, the
/// answer is that it is not found; otherwise the message (a random id of 16
/// bytes in hexadecimal, read) is stored in the history and the chat list,
/// and the delivery to the peer's addresses is set up.
pub fn begin_chat_send(
    peer: Option<PeerInfo>,
    my_response: &Message,
    peer_fingerprint: String,
    content: String,
    timestamp: Timestamp,
    history: &mut ChatHistory,
    sessions: &mut ChatSessions,
) -> (r: Result<ChatSend, String>)
    requires
        peer matches Some(p) ==> p.remote_addrs@.len() > 0,
    ensures
        peer is None ==> {
            &&& r matches Err(e) && e@ == "peer "@ + peer_fingerprint@ + " not found in peers store"@
            &&& final(history).messages@ == old(history).messages@
            &&& final(sessions).sessions@ == old(sessions).sessions@
        },
        peer matches Some(p) ==> {
            &&& r matches Ok(send)
            &&& send.message.id@.len() == 32
            &&& is_hex_text(send.message.id@)
            &&& send.message.sender_fingerprint == my_response.fingerprint
            &&& send.message.sender_alias == my_response.alias
            &&& send.message.receiver_fingerprint == peer_fingerprint
            &&& send.message.content == content
            &&& send.message.timestamp == timestamp
            &&& send.message.read
            &&& send.protocol == p.message.protocol
            &&& send.delivery.wf()
            &&& send.delivery.spec_targets() == spec_delivery_targets(p.remote_addrs@)
            &&& send.delivery.spec_tried() == 0
            &&& !send.delivery.spec_delivered()
            &&& final(history).messages@ == old(history).messages@.push(send.message)
            &&& exists|color: String|
                #![trigger session_after_outgoing(lookup(old(sessions).sessions@, peer_fingerprint@), peer_fingerprint, p.message.alias, send.message, color)]
                (lookup(old(sessions).sessions@, peer_fingerprint@) is None ==> is_pastel_color(color@))
                    && final(sessions).sessions@ == old(sessions).sessions@.insert(
                    peer_fingerprint@,
                    session_after_outgoing(
                        lookup(old(sessions).sessions@, peer_fingerprint@),
                        peer_fingerprint,
                        p.message.alias,
                        send.message,
                        color,
                    ),
                )
        },
{
    match peer {
        None => Err(peer_not_found(peer_fingerprint.as_str())),
        Some(p) => {
            let id = generate_random_string(16);
            let message = new_outgoing_message(id, my_response, peer_fingerprint.clone(), content, timestamp);
            let delivery = Delivery::start(&p.remote_addrs);
            let protocol = p.message.protocol.clone();
            record_outgoing(history, sessions, &peer_fingerprint, p.message.alias.clone(), message.clone());
            Ok(ChatSend { message, protocol, delivery })
        },
    }
}

} // verus!
