//! The messages that travel between sessions and the coordinator.

use vstd::prelude::*;
use std::ops::Range;
use crate::live_coding::RemoteVersion;

verus! {

/// A live client session.
pub type ConnId = u64;

/// A room's name, as its creator chose it.
pub type RoomId = String;

/// What the coordinator sends to a session, as a reply or on its own account.
#[derive(Debug, PartialEq, Eq)]
pub enum FkResponse {
    Create { room_id: RoomId },
    Join {
        room_id: RoomId,
        base_version: Vec<u8>,
        agent_id: String,
        error: Option<String>,
        agent_name: String,
    },
    Insert { version: Option<String>, error: Option<String> },
    Delete { version: Option<String>, error: Option<String> },
    Upstream { remote_version: RemoteVersion, patch: Vec<u8> },
    System { message: String },
}

/// A response as a plain value: strings as sequences of characters, byte
/// buffers as sequences of bytes.
pub enum ResponseView {
    Create { room_id: Seq<char> },
    Join {
        room_id: Seq<char>,
        base_version: Seq<u8>,
        agent_id: Seq<char>,
        error: Option<Seq<char>>,
        agent_name: Seq<char>,
    },
    Insert { version: Option<Seq<char>>, error: Option<Seq<char>> },
    Delete { version: Option<Seq<char>>, error: Option<Seq<char>> },
    Upstream { remote_version: Seq<(Seq<char>, usize)>, patch: Seq<u8> },
    System { message: Seq<char> },
}

/// An optional string as a plain value.
pub open spec fn text_view(s: Option<String>) -> Option<Seq<char>> {
    match s {
        Some(s) => Some(s@),
        None => None,
    }
}

/// A remote version as a plain value.
pub open spec fn remote_view(ids: Seq<(String, usize)>) -> Seq<(Seq<char>, usize)> {
    Seq::new(ids.len(), |i: int| (ids[i].0@, ids[i].1))
}

impl View for FkResponse {
    type V = ResponseView;

    open spec fn view(&self) -> ResponseView {
        match *self {
            FkResponse::Create { room_id } => ResponseView::Create { room_id: room_id@ },
            FkResponse::Join { room_id, base_version, agent_id, error, agent_name } => {
                ResponseView::Join {
                    room_id: room_id@,
                    base_version: base_version@,
                    agent_id: agent_id@,
                    error: text_view(error),
                    agent_name: agent_name@,
                }
            },
            FkResponse::Insert { version, error } => ResponseView::Insert {
                version: text_view(version),
                error: text_view(error),
            },
            FkResponse::Delete { version, error } => ResponseView::Delete {
                version: text_view(version),
                error: text_view(error),
            },
            FkResponse::Upstream { remote_version, patch } => ResponseView::Upstream {
                remote_version: remote_view(remote_version@),
                patch: patch@,
            },
            FkResponse::System { message } => ResponseView::System { message: message@ },
        }
    }
}

impl FkResponse {
    /// The acknowledgement of a created room.
    pub fn create(room_id: RoomId) -> (r: FkResponse)
        ensures
            r@ == (ResponseView::Create { room_id: room_id@ }),
    {
        FkResponse::Create { room_id }
    }

    /// The acknowledgement of a join: the room, the history to start from, the
    /// id the replica gave, and the error if the join failed.
    pub fn join(
        room_id: RoomId,
        base_version: Vec<u8>,
        agent_id: String,
        error: Option<String>,
        agent_name: String,
    ) -> (r: FkResponse)
        ensures
            r@ == (ResponseView::Join {
                room_id: room_id@,
                base_version: base_version@,
                agent_id: agent_id@,
                error: text_view(error),
                agent_name: agent_name@,
            }),
    {
        FkResponse::Join { room_id, base_version, agent_id, error, agent_name }
    }

    /// The acknowledgement of an insert.
    pub fn insert(version: Option<String>, error: Option<String>) -> (r: FkResponse)
        ensures
            r@ == (ResponseView::Insert { version: text_view(version), error: text_view(error) }),
    {
        FkResponse::Insert { version, error }
    }

    /// The acknowledgement of a delete.
    pub fn delete(version: Option<String>, error: Option<String>) -> (r: FkResponse)
        ensures
            r@ == (ResponseView::Delete { version: text_view(version), error: text_view(error) }),
    {
        FkResponse::Delete { version, error }
    }

    /// A patch on its way to the other members of a room.
    pub fn upstream(remote_version: RemoteVersion, patch: Vec<u8>) -> (r: FkResponse)
        ensures
            r@ == (ResponseView::Upstream {
                remote_version: remote_view(remote_version@),
                patch: patch@,
            }),
    {
        FkResponse::Upstream { remote_version, patch }
    }

    /// A notice from the coordinator itself.
    pub fn system_message(message: String) -> (r: FkResponse)
        ensures
            r@ == (ResponseView::System { message: message@ }),
    {
        FkResponse::System { message }
    }

    /// A second response that says the same.
    pub fn replicate(&self) -> (r: FkResponse)
        ensures
            r@ == self@,
    {
        match self {
            FkResponse::Create { room_id } => FkResponse::Create { room_id: room_id.clone() },
            FkResponse::Join { room_id, base_version, agent_id, error, agent_name } => {
                FkResponse::Join {
                    room_id: room_id.clone(),
                    base_version: copy_bytes(base_version),
                    agent_id: agent_id.clone(),
                    error: copy_text(error),
                    agent_name: agent_name.clone(),
                }
            },
            FkResponse::Insert { version, error } => FkResponse::Insert {
                version: copy_text(version),
                error: copy_text(error),
            },
            FkResponse::Delete { version, error } => FkResponse::Delete {
                version: copy_text(version),
                error: copy_text(error),
            },
            FkResponse::Upstream { remote_version, patch } => FkResponse::Upstream {
                remote_version: copy_remote(remote_version),
                patch: copy_bytes(patch),
            },
            FkResponse::System { message } => FkResponse::System { message: message.clone() },
        }
    }
}

/// A message and the session whose outbound channel it is for.
#[derive(Debug, PartialEq, Eq)]
pub struct Outbound {
    pub to: ConnId,
    pub message: FkResponse,
}

/// An outbound message as a plain value.
pub struct OutboundView {
    pub to: ConnId,
    pub message: ResponseView,
}

impl View for Outbound {
    type V = OutboundView;

    open spec fn view(&self) -> OutboundView {
        OutboundView { to: self.to, message: self.message@ }
    }
}

/// Outbound messages as plain values, in order.
pub open spec fn outbound_views(s: Seq<Outbound>) -> Seq<OutboundView> {
    Seq::new(s.len(), |i: int| s[i]@)
}

/// The sessions that a message from `skip` to a room goes to: the members
/// other than `skip` whose session is known, in the order of `members`.
pub open spec fn recipients(members: Seq<ConnId>, sessions: Set<ConnId>, skip: ConnId) -> Seq<ConnId>
    decreases members.len(),
{
    if members.len() == 0 {
        Seq::empty()
    } else {
        let rest = recipients(members.drop_last(), sessions, skip);
        let m = members.last();
        if m != skip && sessions.contains(m) {
            rest.push(m)
        } else {
            rest
        }
    }
}

/// A message to a room reaches exactly the members other than `skip` whose
/// session is known, each of them once if no member occurs twice.
pub proof fn lemma_recipients(members: Seq<ConnId>, sessions: Set<ConnId>, skip: ConnId)
    ensures
        forall|x: ConnId| #[trigger]
            recipients(members, sessions, skip).contains(x) <==> (x != skip && sessions.contains(x)
                && members.contains(x)),
        members.no_duplicates() ==> recipients(members, sessions, skip).no_duplicates(),
        recipients(members, sessions, skip).len() <= members.len(),
    decreases members.len(),
{
    let to = recipients(members, sessions, skip);
    if members.len() == 0 {
        assert forall|x: ConnId| #[trigger] to.contains(x) <==> (x != skip && sessions.contains(x)
            && members.contains(x)) by {}
    } else {
        let front = members.drop_last();
        let m = members.last();
        let rest = recipients(front, sessions, skip);
        lemma_recipients(front, sessions, skip);
        assert forall|x: ConnId| #[trigger] to.contains(x) <==> (x != skip && sessions.contains(x)
            && members.contains(x)) by {
            if to.contains(x) {
                let j = choose|j: int| 0 <= j < to.len() && to[j] == x;
                if j < rest.len() {
                    assert(rest[j] == x);
                    assert(rest.contains(x));
                    let k = choose|k: int| 0 <= k < front.len() && front[k] == x;
                    assert(members[k] == x);
                } else {
                    assert(x == m);
                    assert(members[members.len() - 1] == x);
                }
            }
            if x != skip && sessions.contains(x) && members.contains(x) {
                let k = choose|k: int| 0 <= k < members.len() && members[k] == x;
                if k < front.len() {
                    assert(front[k] == x);
                    assert(rest.contains(x));
                    let j = choose|j: int| 0 <= j < rest.len() && rest[j] == x;
                    assert(to[j] == x);
                } else {
                    assert(to[rest.len() as int] == x);
                }
            }
        }
        if members.no_duplicates() {
            assert(front.no_duplicates());
            if m != skip && sessions.contains(m) {
                assert(!rest.contains(m)) by {
                    if rest.contains(m) {
                        assert(front.contains(m));
                        let k = choose|k: int| 0 <= k < front.len() && front[k] == m;
                        assert(members[k] == members[members.len() - 1]);
                    }
                }
                assert forall|a: int, b: int| 0 <= a < to.len() && 0 <= b < to.len() && a != b implies to[a]
                    != to[b] by {
                    if a < rest.len() {
                        assert(rest.contains(rest[a]));
                    }
                    if b < rest.len() {
                        assert(rest.contains(rest[b]));
                    }
                }
            }
        }
    }
}

/// One copy of `message` for each session in `to`.
pub open spec fn fanout(to: Seq<ConnId>, message: ResponseView) -> Seq<OutboundView> {
    Seq::new(to.len(), |i: int| OutboundView { to: to[i], message })
}

/// A copy of a remote version.
pub fn copy_remote(ids: &RemoteVersion) -> (copy: RemoteVersion)
    ensures
        remote_view(copy@) == remote_view(ids@),
{
    let mut copy: RemoteVersion = Vec::new();
    let mut i: usize = 0;
    while i < ids.len()
        invariant
            i <= ids@.len(),
            copy@.len() == i,
            forall|j: int| 0 <= j < i ==> copy@[j].0@ == ids@[j].0@ && copy@[j].1 == ids@[j].1,
        decreases ids@.len() - i,
    {
        copy.push((ids[i].0.clone(), ids[i].1));
        i += 1;
    }
    assert(remote_view(copy@) =~= remote_view(ids@));
    copy
}

/// A copy of a byte buffer.
pub fn copy_bytes(bytes: &Vec<u8>) -> (copy: Vec<u8>)
    ensures
        copy@ == bytes@,
{
    let mut copy: Vec<u8> = Vec::new();
    let mut i: usize = 0;
    while i < bytes.len()
        invariant
            i <= bytes@.len(),
            copy@ == bytes@.take(i as int),
        decreases bytes@.len() - i,
    {
        copy.push(bytes[i]);
        assert(bytes@.take(i as int).push(bytes@[i as int]) =~= bytes@.take(i + 1));
        i += 1;
    }
    assert(bytes@.take(bytes@.len() as int) =~= bytes@);
    copy
}

fn copy_text(s: &Option<String>) -> (copy: Option<String>)
    ensures
        text_view(copy) == text_view(*s),
{
    match s {
        Some(t) => Some(t.clone()),
        None => None,
    }
}

/// A request to the coordinator.
#[derive(Debug, PartialEq, Eq)]
pub enum Command {
    Connect,
    Disconnect { conn: ConnId },
    Create { conn: ConnId, room_id: RoomId, content: String, agent_name: String },
    Join { conn: ConnId, room_id: RoomId, agent_name: String },
    Insert { conn: ConnId, content: String, pos: usize, room_id: RoomId },
    Delete { conn: ConnId, room_id: RoomId, range: Range<usize> },
    List,
    ListAgents,
    Content { room_id: RoomId },
}

/// The coordinator's answer to the session that sent a command.
#[derive(Debug, PartialEq, Eq)]
pub enum Reply {
    Connected(ConnId),
    Disconnected,
    Response(FkResponse),
    Rooms(Vec<String>),
    Agents(Vec<String>),
    Content(String),
}

/// A reply as a plain value.
pub enum ReplyView {
    Connected(ConnId),
    Disconnected,
    Response(ResponseView),
    Rooms(Seq<Seq<char>>),
    Agents(Seq<Seq<char>>),
    Content(Seq<char>),
}

impl View for Reply {
    type V = ReplyView;

    open spec fn view(&self) -> ReplyView {
        match *self {
            Reply::Connected(conn) => ReplyView::Connected(conn),
            Reply::Disconnected => ReplyView::Disconnected,
            Reply::Response(r) => ReplyView::Response(r@),
            Reply::Rooms(names) => ReplyView::Rooms(Seq::new(names@.len(), |i: int| names@[i]@)),
            Reply::Agents(names) => ReplyView::Agents(Seq::new(names@.len(), |i: int| names@[i]@)),
            Reply::Content(text) => ReplyView::Content(text@),
        }
    }
}

/// What a command leads to: the answer for its sender, and the messages for
/// other sessions, in the order in which they are to be sent.
#[derive(Debug, PartialEq, Eq)]
pub struct Reaction {
    pub reply: Reply,
    pub outbound: Vec<Outbound>,
}

} // verus!
