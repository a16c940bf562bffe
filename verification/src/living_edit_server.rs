//! The room coordinator: the one owner of every room's replica and members,
//! of the registered sessions and of their agent labels.
//!
//! The coordinator does no I/O. Each command changes its state and yields the
//! reply for the sender and the messages for other sessions; whoever drives it
//! delivers them.

use vstd::prelude::*;
use std::collections::HashSet;
use vstd::string::StringExecFns;
use std::ops::Range;
use crate::agents::{
    agent_views, agents_with, agents_without, conns_of, drop_agent, labels_of,
    lemma_agents_with, lemma_agents_without, put_agent,
};
use crate::ident::{
    IdGenerator, decimal, lemma_never_root, pronounceable, random_name, to_decimal,
};
use crate::live_coding::{
    AUTHOR_LIMIT, EditError, LiveCoding, Version, admits, agent_id, deleted, error_text,
    inserted, joined, lemma_insert_then_delete, name_views,
};
use crate::model::{
    Command, ConnId, FkResponse, Outbound, OutboundView, Reaction, Reply, ReplyView,
    ResponseView, RoomId, fanout, lemma_recipients, outbound_views, recipients, remote_view,
};
use crate::seqs::{
    add_item, lemma_index_unique, lemma_with_item, lemma_without_item, remove_item, with_item,
    without_item,
};

verus! {

broadcast use vstd::std_specs::hash::group_hash_axioms;

/// A room: its name, its members in the order in which they came, its
/// replica, and the version that the last edit left.
struct Room {
    id: String,
    members: Vec<ConnId>,
    coding: LiveCoding,
    version: Version,
}

/// The coordinator's state: the registered sessions, the rooms, the agent
/// labels, and the two generators for connection ids and for the names of
/// the first authors of new replicas.
pub struct LivingEditServer {
    sessions: HashSet<ConnId>,
    rooms: Vec<Room>,
    agents: Vec<(ConnId, String)>,
    ids: IdGenerator,
    seeds: u64,
}

/// The seed that follows `seed`.
pub open spec fn next_seed(seed: u64) -> u64 {
    if seed == u64::MAX {
        0
    } else {
        (seed + 1) as u64
    }
}

/// What a join to a room that does not exist is told.
pub open spec fn room_not_found(id: Seq<char>) -> Seq<char> {
    "room \""@ + id + "\" not found"@
}

/// The acknowledgement of a join that failed.
pub open spec fn join_refused(error: Seq<char>, agent_name: Seq<char>) -> ResponseView {
    ResponseView::Join {
        room_id: Seq::empty(),
        base_version: Seq::empty(),
        agent_id: Seq::empty(),
        error: Some(error),
        agent_name,
    }
}

/// The acknowledgement of a join that the replica answered with `r`.
pub open spec fn join_ack(
    r: Result<u32, EditError>,
    id: Seq<char>,
    base_version: Seq<u8>,
    agent_name: Seq<char>,
) -> ResponseView {
    match r {
        Ok(n) => ResponseView::Join {
            room_id: id,
            base_version,
            agent_id: decimal(n as nat),
            error: None,
            agent_name,
        },
        Err(e) => join_refused(error_text(e), agent_name),
    }
}

/// One copy of `message` for every member other than `skip` whose session is
/// known.
fn fan_out(members: &Vec<ConnId>, sessions: &HashSet<ConnId>, skip: ConnId, message: &FkResponse) -> (out:
    Vec<Outbound>)
    ensures
        outbound_views(out@) == fanout(recipients(members@, sessions@, skip), message@),
{
    let mut out: Vec<Outbound> = Vec::new();
    let mut i: usize = 0;
    assert(outbound_views(out@) =~= fanout(
        recipients(members@.take(0), sessions@, skip),
        message@,
    ));
    while i < members.len()
        invariant
            i <= members@.len(),
            outbound_views(out@) == fanout(
                recipients(members@.take(i as int), sessions@, skip),
                message@,
            ),
        decreases members@.len() - i,
    {
        let m = members[i];
        let ghost sent = out@;
        proof {
            assert(members@.take(i + 1).drop_last() =~= members@.take(i as int));
            assert(members@.take(i + 1).last() == m);
        }
        if m != skip && sessions.contains(&m) {
            out.push(Outbound { to: m, message: message.replicate() });
            proof {
                let prev = recipients(members@.take(i as int), sessions@, skip);
                let next = recipients(members@.take(i + 1), sessions@, skip);
                assert(next == prev.push(m));
                assert(outbound_views(sent).len() == prev.len());
                assert forall|k: int| 0 <= k < next.len() implies outbound_views(out@)[k] == fanout(
                    next,
                    message@,
                )[k] by {
                    if k < prev.len() {
                        assert(outbound_views(sent)[k] == fanout(prev, message@)[k]);
                        assert(out@[k] == sent[k]);
                    }
                }
                assert(outbound_views(out@) =~= fanout(next, message@));
            }
        }
        i += 1;
    }
    assert(members@.take(members@.len() as int) =~= members@);
    out
}

/// The acknowledgement of an edit that the coordinator answered with `r`: the
/// post-state if there is one, the error in words if there is one.
pub open spec fn edit_ack(r: Result<Option<String>, EditError>) -> (Option<Seq<char>>, Option<Seq<char>>) {
    match r {
        Ok(Some(text)) => (Some(text@), None),
        Ok(None) => (None, None),
        Err(e) => (None, Some(error_text(e))),
    }
}

/// Whether an edit that was answered with `r` changed a room, so that its
/// members are owed a patch.
pub open spec fn took_effect(r: Result<Option<String>, EditError>) -> bool {
    r matches Ok(Some(_))
}

/// What the members of a room are told when one of them has gone.
pub open spec fn disconnect_notice() -> Seq<char> {
    "Someone disconnected"@
}

/// The id that comes `j` steps after `start` in the round of the ids from 1
/// to the largest.
pub open spec fn cycle(start: ConnId, j: int) -> ConnId {
    if start + j <= u64::MAX {
        (start + j) as u64
    } else {
        (start + j - u64::MAX) as u64
    }
}

impl LivingEditServer {
    /// The sessions whose outbound channel is known.
    pub closed spec fn sessions(&self) -> Set<ConnId> {
        self.sessions@
    }

    /// The names of the rooms, in the order in which they were created.
    pub closed spec fn room_ids(&self) -> Seq<Seq<char>> {
        Seq::new(self.rooms@.len(), |i: int| self.rooms@[i].id@)
    }

    /// Whether there is a room of this name.
    pub open spec fn has_room(&self, id: Seq<char>) -> bool {
        self.room_ids().contains(id)
    }

    spec fn slot(&self, id: Seq<char>) -> int {
        self.room_ids().index_of(id)
    }

    /// The members of the room `id`, in the order in which they came.
    pub closed spec fn members(&self, id: Seq<char>) -> Seq<ConnId> {
        self.rooms@[self.slot(id)].members@
    }

    /// The replica of the room `id`.
    pub closed spec fn coding(&self, id: Seq<char>) -> LiveCoding {
        self.rooms@[self.slot(id)].coding
    }

    /// The version recorded for the room `id`.
    pub closed spec fn version(&self, id: Seq<char>) -> Version {
        self.rooms@[self.slot(id)].version
    }

    /// The agent label of each labelled connection, in the order in which the
    /// connections first got one.
    pub closed spec fn agents(&self) -> Seq<(ConnId, Seq<char>)> {
        agent_views(self.agents@)
    }

    /// The id that the next connection gets, unless a live session holds it.
    pub closed spec fn upcoming_conn(&self) -> ConnId {
        self.ids.upcoming()
    }

    /// The seed from which the next new replica's first author is named.
    pub closed spec fn upcoming_seed(&self) -> u64 {
        self.seeds
    }

    spec fn room_ok(&self, r: Room) -> bool {
        &&& r.members@.no_duplicates()
        &&& r.coding.wf()
        &&& r.version == r.coding.frontier()
        &&& forall|m: ConnId| #[trigger]
            r.members@.contains(m) ==> self.sessions@.contains(m) && conns_of(
                self.agents(),
            ).contains(m)
    }

    /// The sessions are finitely many; no room name and no labelled
    /// connection occurs twice; no room has a member twice; every room's
    /// replica is sound and its recorded version is the replica's frontier;
    /// every member of a room has a session and a label.
    pub closed spec fn wf(&self) -> bool {
        &&& self.ids.wf()
        &&& self.sessions@.finite()
        &&& self.room_ids().no_duplicates()
        &&& conns_of(self.agents()).no_duplicates()
        &&& forall|i: int| 0 <= i < self.rooms@.len() ==> #[trigger] self.room_ok(self.rooms@[i])
    }

    /// Every room but `id` that `before` had is still there, with the same
    /// members, replica and version.
    pub open spec fn same_rooms_except(&self, before: &Self, id: Seq<char>) -> bool {
        forall|r: Seq<char>|
            r != id && #[trigger] before.has_room(r) ==> self.has_room(r) && self.members(r)
                == before.members(r) && self.coding(r) == before.coding(r) && self.version(r)
                == before.version(r)
    }

    /// Sessions, labels and both generators are as in `before`.
    pub open spec fn same_registry(&self, before: &Self) -> bool {
        &&& self.sessions() == before.sessions()
        &&& self.agents() == before.agents()
        &&& self.upcoming_conn() == before.upcoming_conn()
        &&& self.upcoming_seed() == before.upcoming_seed()
    }

    proof fn lemma_slot(&self, i: int)
        requires
            self.room_ids().no_duplicates(),
            0 <= i < self.rooms@.len(),
        ensures
            self.has_room(self.rooms@[i].id@),
            self.slot(self.rooms@[i].id@) == i,
    {
        assert(self.room_ids()[i] == self.rooms@[i].id@);
        lemma_index_unique(self.room_ids(), i, self.rooms@[i].id@);
    }

    proof fn lemma_slot_of(&self, id: Seq<char>)
        requires
            self.has_room(id),
        ensures
            0 <= self.slot(id) < self.rooms@.len(),
            self.rooms@[self.slot(id)].id@ == id,
    {
        let j = self.slot(id);
        assert(0 <= j < self.room_ids().len() && self.room_ids()[j] == id);
    }

    /// Rooms that stand at the same place in `before` and in `self` and are
    /// equal there are the rooms that `same_rooms_except` speaks of.
    proof fn lemma_frame(&self, before: &Self, i: int, id: Seq<char>)
        requires
            before.room_ids().no_duplicates(),
            self.room_ids().no_duplicates(),
            before.rooms@.len() <= self.rooms@.len(),
            0 <= i < self.rooms@.len(),
            self.rooms@[i].id@ == id,
            i < before.rooms@.len() ==> before.rooms@[i].id@ == id,
            forall|j: int| 0 <= j < before.rooms@.len() && j != i ==> self.rooms@[j] == before.rooms@[j],
        ensures
            self.same_rooms_except(before, id),
    {
        assert forall|r: Seq<char>| r != id && #[trigger] before.has_room(r) implies self.has_room(r)
            && self.members(r) == before.members(r) && self.coding(r) == before.coding(r)
            && self.version(r) == before.version(r) by {
            before.lemma_slot_of(r);
            let j = before.slot(r);
            assert(j != i);
            assert(self.rooms@[j] == before.rooms@[j]);
            self.lemma_slot(j);
        }
    }

    /// A coordinator without rooms, sessions or agents.
    pub fn new() -> (server: LivingEditServer)
        ensures
            server.wf(),
            server.sessions() == Set::<ConnId>::empty(),
            server.room_ids() == Seq::<Seq<char>>::empty(),
            server.agents() == Seq::<(ConnId, Seq<char>)>::empty(),
            server.upcoming_conn() == 1,
            server.upcoming_seed() == 0,
    {
        let server = LivingEditServer {
            sessions: HashSet::new(),
            rooms: Vec::with_capacity(4),
            agents: Vec::new(),
            ids: IdGenerator::new(),
            seeds: 0,
        };
        assert(server.room_ids() =~= Seq::<Seq<char>>::empty());
        assert(server.agents() =~= Seq::<(ConnId, Seq<char>)>::empty());
        server
    }

    fn find_room(&self, id: &String) -> (found: Option<usize>)
        ensures
            match found {
                Some(i) => i < self.rooms@.len() && self.rooms@[i as int].id@ == id@,
                None => !self.has_room(id@),
            },
    {
        let mut i: usize = 0;
        while i < self.rooms.len()
            invariant
                i <= self.rooms@.len(),
                forall|j: int| 0 <= j < i ==> self.rooms@[j].id@ != id@,
            decreases self.rooms@.len() - i,
        {
            if self.rooms[i].id == *id {
                return Some(i);
            }
            i += 1;
        }
        proof {
            let ids = self.room_ids();
            if ids.contains(id@) {
                let j = choose|j: int| 0 <= j < ids.len() && ids[j] == id@;
                assert(self.rooms@[j].id@ == id@);
            }
        }
        None
    }

    /// The names of all rooms.
    pub fn list_rooms(&self) -> (names: Vec<String>)
        ensures
            name_views(names@) == self.room_ids(),
    {
        let mut names: Vec<String> = Vec::new();
        let mut i: usize = 0;
        while i < self.rooms.len()
            invariant
                i <= self.rooms@.len(),
                names@.len() == i,
                forall|j: int| 0 <= j < i ==> names@[j]@ == self.rooms@[j].id@,
            decreases self.rooms@.len() - i,
        {
            names.push(self.rooms[i].id.clone());
            i += 1;
        }
        assert(name_views(names@) =~= self.room_ids());
        names
    }

    /// The labels of all agents.
    pub fn list_agents(&self) -> (labels: Vec<String>)
        ensures
            name_views(labels@) == labels_of(self.agents()),
    {
        let mut labels: Vec<String> = Vec::new();
        let mut i: usize = 0;
        while i < self.agents.len()
            invariant
                i <= self.agents@.len(),
                labels@.len() == i,
                forall|j: int| 0 <= j < i ==> labels@[j]@ == self.agents@[j].1@,
            decreases self.agents@.len() - i,
        {
            labels.push(self.agents[i].1.clone());
            i += 1;
        }
        assert(name_views(labels@) =~= labels_of(self.agents()));
        labels
    }

    /// The text of the room, if there is such a room.
    pub fn content(&self, room_id: RoomId) -> (text: Option<String>)
        requires
            self.wf(),
        ensures
            text is Some <==> self.has_room(room_id@),
            text is Some ==> text->0@ == self.coding(room_id@).text(),
    {
        match self.find_room(&room_id) {
            Some(i) => {
                proof {
                    self.lemma_slot(i as int);
                }
                Some(self.rooms[i].coding.content())
            },
            None => None,
        }
    }

    /// What a create leaves behind: the session and its label are registered,
    /// `conn` is a member of the room, and the room has a new replica that
    /// holds `content`, written by a first author named from the seed, of which
    /// nothing has been handed out yet.
    pub open spec fn create_done(
        &self,
        before: &Self,
        id: Seq<char>,
        conn: ConnId,
        content: Seq<char>,
        agent_name: Seq<char>,
    ) -> bool {
        &&& self.wf()
        &&& self.sessions() == before.sessions().insert(conn)
        &&& self.agents() == agents_with(before.agents(), conn, agent_name)
        &&& self.room_ids() == with_item(before.room_ids(), id)
        &&& self.members(id) == if before.has_room(id) {
            with_item(before.members(id), conn)
        } else {
            seq![conn]
        }
        &&& self.coding(id).text() == content
        &&& self.coding(id).frontier().ops == content.len()
        &&& self.coding(id).baseline().ops == 0
        &&& self.coding(id).authors() == seq![pronounceable(before.upcoming_seed() as nat)]
        &&& self.version(id) == self.coding(id).frontier()
        &&& self.same_rooms_except(before, id)
        &&& self.upcoming_conn() == before.upcoming_conn()
        &&& self.upcoming_seed() == next_seed(before.upcoming_seed())
    }

    /// Registers the session and its label, makes `conn` a member of the
    /// room, and gives the room a new replica that holds `content`, written by
    /// a first author with a generated name. A room of that name that exists
    /// keeps its members and loses its old replica.
    pub fn create(&mut self, room_id: RoomId, conn: ConnId, content: String, agent_name: String) -> (created: String)
        requires
            old(self).wf(),
        ensures
            created@ == room_id@,
            final(self).create_done(old(self), room_id@, conn, content@, agent_name@),
    {
        let ghost before = *self;
        self.sessions.insert(conn);
        put_agent(&mut self.agents, conn, agent_name);
        proof {
            lemma_agents_with(before.agents(), conn, agent_name@);
            lemma_with_item(conns_of(before.agents()), conn);
        }

        let seed = random_name(self.seeds);
        self.seeds = if self.seeds == u64::MAX {
            0
        } else {
            self.seeds + 1
        };
        let mut coding = LiveCoding::new(seed.as_str());
        proof {
            lemma_never_root(before.seeds as nat);
            assert(seq![seed@].contains(seed@)) by {
                assert(seq![seed@][0] == seed@);
            }
            assert(admits(coding.authors(), seed@));
        }
        let version = match coding.create(seed.as_str(), content.as_str()) {
            Ok(v) => v,
            Err(_) => coding.version(),
        };
        assert(coding.text() =~= content@);

        match self.find_room(&room_id) {
            Some(i) => {
                proof {
                    before.lemma_slot(i as int);
                    assert(before.room_ok(before.rooms@[i as int]));
                    lemma_with_item(before.rooms@[i as int].members@, conn);
                }
                let room = &mut self.rooms[i];
                add_item(&mut room.members, conn);
                room.coding = coding;
                room.version = version;
                proof {
                    assert(self.room_ids() =~= before.room_ids());
                    self.lemma_slot(i as int);
                    self.lemma_frame(&before, i as int, room_id@);
                    assert forall|j: int| 0 <= j < self.rooms@.len() implies #[trigger] self.room_ok(
                        self.rooms@[j],
                    ) by {
                        assert(before.room_ok(before.rooms@[j]));
                    }
                }
            },
            None => {
                let mut members: Vec<ConnId> = Vec::new();
                members.push(conn);
                let room = Room { id: room_id.clone(), members, coding, version };
                self.rooms.push(room);
                proof {
                    let i = before.rooms@.len() as int;
                    assert(self.room_ids() =~= before.room_ids().push(room_id@));
                    lemma_with_item(before.room_ids(), room_id@);
                    self.lemma_slot(i);
                    self.lemma_frame(&before, i, room_id@);
                    assert(self.rooms@[i].members@ =~= seq![conn]);
                    assert forall|j: int| 0 <= j < self.rooms@.len() implies #[trigger] self.room_ok(
                        self.rooms@[j],
                    ) by {
                        if j < i {
                            assert(before.room_ok(before.rooms@[j]));
                        }
                    }
                }
            },
        }
        room_id
    }

    /// Sessions, labels, generators, the list of rooms, every room but `id`
    /// and the members of `id` are as in `before`.
    pub open spec fn only_replica_changed(&self, before: &Self, id: Seq<char>) -> bool {
        &&& self.same_registry(before)
        &&& self.room_ids() == before.room_ids()
        &&& self.same_rooms_except(before, id)
        &&& before.has_room(id) ==> self.members(id) == before.members(id)
    }

    /// What a join leaves behind and answers. The session and its label are
    /// registered in any case. A room that exists gets `conn` as a member, and
    /// its replica is asked for the id of `agent_name`; the reply carries the
    /// room's name, the history to start from and that id, and an error only
    /// where the replica's table of authors is full. A room that does not
    /// exist is not made.
    pub open spec fn join_done(
        &self,
        before: &Self,
        conn: ConnId,
        id: Seq<char>,
        agent_name: Seq<char>,
        reply: ResponseView,
    ) -> bool {
        &&& self.wf()
        &&& self.sessions() == before.sessions().insert(conn)
        &&& self.agents() == agents_with(before.agents(), conn, agent_name)
        &&& self.room_ids() == before.room_ids()
        &&& self.upcoming_conn() == before.upcoming_conn()
        &&& self.upcoming_seed() == before.upcoming_seed()
        &&& self.same_rooms_except(before, id)
        &&& if !before.has_room(id) {
            reply == join_refused(room_not_found(id), agent_name)
        } else {
            let r = if before.coding(id).authors().len() < AUTHOR_LIMIT {
                Ok::<u32, EditError>(agent_id(self.coding(id).authors(), agent_name))
            } else {
                Err::<u32, EditError>(EditError::TooManyAgents)
            };
            &&& self.members(id) == with_item(before.members(id), conn)
            &&& self.version(id) == before.version(id)
            &&& joined(before.coding(id), self.coding(id), agent_name, r)
            &&& reply == join_ack(r, id, self.coding(id).snapshot(), agent_name)
        }
    }

    /// What an insert leaves behind and answers. Without the room the answer
    /// is an empty post-state. With it the replica decides: its error is the
    /// answer, or the text after the insert is, and the room's version is the
    /// replica's new frontier.
    pub open spec fn insert_done(
        &self,
        before: &Self,
        conn: ConnId,
        id: Seq<char>,
        content: Seq<char>,
        pos: usize,
        r: Result<Option<String>, EditError>,
    ) -> bool {
        &&& self.wf()
        &&& self.only_replica_changed(before, id)
        &&& if !before.has_room(id) {
            r == Ok::<Option<String>, EditError>(None)
        } else {
            &&& self.version(id) == self.coding(id).frontier()
            &&& inserted(
                before.coding(id),
                self.coding(id),
                decimal(conn as nat),
                pos,
                content,
                match r {
                    Ok(_) => Ok(self.version(id)),
                    Err(e) => Err(e),
                },
            )
            &&& r is Ok ==> r->Ok_0 is Some && r->Ok_0->0@ == self.coding(id).text()
        }
    }

    /// What a delete leaves behind and answers. As for an insert, but the
    /// post-state of a delete that succeeded is the empty string.
    pub open spec fn delete_done(
        &self,
        before: &Self,
        conn: ConnId,
        id: Seq<char>,
        lo: usize,
        hi: usize,
        r: Result<Option<String>, EditError>,
    ) -> bool {
        &&& self.wf()
        &&& self.only_replica_changed(before, id)
        &&& if !before.has_room(id) {
            r == Ok::<Option<String>, EditError>(None)
        } else {
            &&& self.version(id) == self.coding(id).frontier()
            &&& deleted(
                before.coding(id),
                self.coding(id),
                decimal(conn as nat),
                lo,
                hi,
                match r {
                    Ok(_) => Ok(self.version(id)),
                    Err(e) => Err(e),
                },
            )
            &&& r is Ok ==> r->Ok_0 is Some && r->Ok_0->0@ == Seq::<char>::empty()
        }
    }

    /// What a broadcast leaves behind and sends: the operations since the
    /// room's baseline, once for every member other than `skip` whose session
    /// is known, after which the baseline is the frontier.
    pub open spec fn broadcast_done(
        &self,
        before: &Self,
        id: Seq<char>,
        skip: ConnId,
        out: Seq<OutboundView>,
    ) -> bool {
        &&& self.wf()
        &&& self.only_replica_changed(before, id)
        &&& if !before.has_room(id) {
            out == Seq::<OutboundView>::empty()
        } else {
            &&& self.version(id) == before.version(id)
            &&& self.coding(id) == before.coding(id).caught_up()
            &&& out == fanout(
                recipients(before.members(id), before.sessions(), skip),
                ResponseView::Upstream {
                    remote_version: before.coding(id).remote(),
                    patch: before.coding(id).patch_since(before.coding(id).baseline()),
                },
            )
        }
    }

    /// A room whose replica and version alone changed leaves the coordinator
    /// sound and everything else as it was.
    proof fn lemma_replica_changed(&self, before: &Self, i: int)
        requires
            before.wf(),
            0 <= i < before.rooms@.len(),
            self.rooms@.len() == before.rooms@.len(),
            forall|j: int| 0 <= j < before.rooms@.len() && j != i ==> self.rooms@[j] == before.rooms@[j],
            self.rooms@[i].id == before.rooms@[i].id,
            self.rooms@[i].members == before.rooms@[i].members,
            self.rooms@[i].coding.wf(),
            self.rooms@[i].version == self.rooms@[i].coding.frontier(),
            self.sessions == before.sessions,
            self.agents == before.agents,
            self.ids == before.ids,
            self.seeds == before.seeds,
        ensures
            self.wf(),
            self.only_replica_changed(before, before.rooms@[i].id@),
            self.slot(before.rooms@[i].id@) == i,
            before.slot(before.rooms@[i].id@) == i,
            before.has_room(before.rooms@[i].id@),
    {
        let id = before.rooms@[i].id@;
        assert(self.room_ids() =~= before.room_ids());
        before.lemma_slot(i);
        self.lemma_slot(i);
        self.lemma_frame(before, i, id);
        assert forall|j: int| 0 <= j < self.rooms@.len() implies #[trigger] self.room_ok(
            self.rooms@[j],
        ) by {
            assert(before.room_ok(before.rooms@[j]));
        }
    }

    /// Nothing changed.
    proof fn lemma_unchanged(&self, id: Seq<char>)
        requires
            self.wf(),
        ensures
            self.only_replica_changed(self, id),
    {
    }

    /// Registers the session and its label and, if the room exists, makes
    /// `conn` a member of it and `agent_name` an author of its replica.
    pub fn join(&mut self, conn: ConnId, room_id: RoomId, agent_name: String) -> (reply: FkResponse)
        requires
            old(self).wf(),
        ensures
            final(self).join_done(old(self), conn, room_id@, agent_name@, reply@),
    {
        let ghost before = *self;
        self.sessions.insert(conn);
        put_agent(&mut self.agents, conn, agent_name.clone());
        proof {
            lemma_agents_with(before.agents(), conn, agent_name@);
            lemma_with_item(conns_of(before.agents()), conn);
        }
        match self.find_room(&room_id) {
            Some(i) => {
                proof {
                    before.lemma_slot(i as int);
                    assert(before.room_ok(before.rooms@[i as int]));
                    lemma_with_item(before.rooms@[i as int].members@, conn);
                }
                let room = &mut self.rooms[i];
                add_item(&mut room.members, conn);
                let r = room.coding.join(agent_name.as_str());
                let reply = match r {
                    Ok(n) => FkResponse::join(
                        room_id,
                        room.coding.base_version(),
                        to_decimal(n as u64),
                        None,
                        agent_name,
                    ),
                    Err(e) => FkResponse::join(
                        String::new(),
                        Vec::new(),
                        String::new(),
                        Some(e.message()),
                        agent_name,
                    ),
                };
                proof {
                    assert(self.room_ids() =~= before.room_ids());
                    self.lemma_slot(i as int);
                    self.lemma_frame(&before, i as int, room_id@);
                    assert forall|j: int| 0 <= j < self.rooms@.len() implies #[trigger] self.room_ok(
                        self.rooms@[j],
                    ) by {
                        assert(before.room_ok(before.rooms@[j]));
                    }
                }
                reply
            },
            None => {
                let mut error = String::from_str("room \"");
                error.append(room_id.as_str());
                error.append("\" not found");
                proof {
                    assert(self.room_ids() =~= before.room_ids());
                    assert(error@ =~= room_not_found(room_id@));
                    assert forall|j: int| 0 <= j < self.rooms@.len() implies #[trigger] self.room_ok(
                        self.rooms@[j],
                    ) by {
                        assert(before.room_ok(before.rooms@[j]));
                    }
                }
                FkResponse::join(String::new(), Vec::new(), String::new(), Some(error), agent_name)
            },
        }
    }

    /// Enters `content` at `pos` in the room's text on behalf of `conn`.
    pub fn insert(&mut self, conn: ConnId, room_id: RoomId, content: String, pos: usize) -> (r: Result<
        Option<String>,
        EditError,
    >)
        requires
            old(self).wf(),
        ensures
            final(self).insert_done(old(self), conn, room_id@, content@, pos, r),
    {
        let ghost before = *self;
        match self.find_room(&room_id) {
            Some(i) => {
                proof {
                    assert(before.room_ok(before.rooms@[i as int]));
                }
                let agent = to_decimal(conn);
                let room = &mut self.rooms[i];
                let r = match room.coding.insert(agent.as_str(), pos, content.as_str()) {
                    Ok(version) => {
                        room.version = version;
                        Ok(Some(room.coding.content()))
                    },
                    Err(e) => Err(e),
                };
                proof {
                    self.lemma_replica_changed(&before, i as int);
                }
                r
            },
            None => {
                proof {
                    self.lemma_unchanged(room_id@);
                }
                Ok(None)
            },
        }
    }

    /// Removes `range` from the room's text on behalf of `conn`.
    pub fn delete(&mut self, conn: ConnId, room_id: RoomId, range: Range<usize>) -> (r: Result<
        Option<String>,
        EditError,
    >)
        requires
            old(self).wf(),
        ensures
            final(self).delete_done(old(self), conn, room_id@, range.start, range.end, r),
    {
        let ghost before = *self;
        match self.find_room(&room_id) {
            Some(i) => {
                proof {
                    assert(before.room_ok(before.rooms@[i as int]));
                }
                let agent = to_decimal(conn);
                let room = &mut self.rooms[i];
                let r = match room.coding.delete(agent.as_str(), range) {
                    Ok(version) => {
                        room.version = version;
                        Ok(Some(String::new()))
                    },
                    Err(e) => Err(e),
                };
                proof {
                    self.lemma_replica_changed(&before, i as int);
                }
                r
            },
            None => {
                proof {
                    self.lemma_unchanged(room_id@);
                }
                Ok(None)
            },
        }
    }

    /// Encodes what the room's replica has not handed out yet and addresses
    /// it to every member but `skip`.
    pub fn broadcast_patch(&mut self, room: RoomId, skip: ConnId) -> (out: Vec<Outbound>)
        requires
            old(self).wf(),
        ensures
            final(self).broadcast_done(old(self), room@, skip, outbound_views(out@)),
    {
        let ghost before = *self;
        match self.find_room(&room) {
            Some(i) => {
                proof {
                    assert(before.room_ok(before.rooms@[i as int]));
                    before.rooms@[i as int].coding.lemma_caught_up();
                }
                let remote_version = self.rooms[i].coding.remote_version();
                let patch = self.rooms[i].coding.patch_from_version();
                assert(remote_view(remote_version@) =~= before.rooms@[i as int].coding.remote());
                let message = FkResponse::upstream(remote_version, patch);
                let out = fan_out(&self.rooms[i].members, &self.sessions, skip, &message);
                proof {
                    self.lemma_replica_changed(&before, i as int);
                }
                out
            },
            None => {
                proof {
                    self.lemma_unchanged(room@);
                }
                let out: Vec<Outbound> = Vec::new();
                assert(outbound_views(out@) =~= Seq::<OutboundView>::empty());
                out
            },
        }
    }

    /// Addresses `msg` to every member of the room but `skip`.
    pub fn send_system_message(&self, room: &str, skip: ConnId, msg: String) -> (out: Vec<Outbound>)
        requires
            self.wf(),
        ensures
            outbound_views(out@) == if self.has_room(room@) {
                fanout(
                    recipients(self.members(room@), self.sessions(), skip),
                    ResponseView::System { message: msg@ },
                )
            } else {
                Seq::<OutboundView>::empty()
            },
    {
        let id = String::from_str(room);
        match self.find_room(&id) {
            Some(i) => {
                proof {
                    self.lemma_slot(i as int);
                }
                let message = FkResponse::system_message(msg);
                fan_out(&self.rooms[i].members, &self.sessions, skip, &message)
            },
            None => {
                let out: Vec<Outbound> = Vec::new();
                assert(outbound_views(out@) =~= Seq::<OutboundView>::empty());
                out
            },
        }
    }
    /// Every room of `before` is still there, with the same members, replica
    /// and version.
    pub open spec fn same_rooms(&self, before: &Self) -> bool {
        &&& self.room_ids() == before.room_ids()
        &&& forall|r: Seq<char>| #[trigger]
            before.has_room(r) ==> self.members(r) == before.members(r) && self.coding(r)
                == before.coding(r) && self.version(r) == before.version(r)
    }

    /// What a connect leaves behind and returns. Nothing is registered. The
    /// id is the first from the upcoming one onward, in the round of the ids,
    /// that no session holds; where as many ids as there are sessions have been
    /// passed over, it is the one after them. It is never 0, and it is free
    /// unless the sessions fill the whole round.
    pub open spec fn connect_done(&self, before: &Self, id: ConnId) -> bool {
        &&& self.wf()
        &&& self.sessions() == before.sessions()
        &&& self.agents() == before.agents()
        &&& self.upcoming_seed() == before.upcoming_seed()
        &&& self.same_rooms(before)
        &&& id != 0
        &&& self.upcoming_conn() == IdGenerator::successor(id)
        &&& exists|k: int|
            {
                &&& 0 <= k <= before.sessions().len()
                &&& id == #[trigger] cycle(before.upcoming_conn(), k)
                &&& forall|j: int| 0 <= j < k ==> before.sessions().contains(#[trigger] cycle(before.upcoming_conn(), j))
                &&& k < before.sessions().len() ==> !before.sessions().contains(id)
            }
        &&& before.sessions().len() < u64::MAX ==> !before.sessions().contains(id)
    }

    /// Hands out a connection id. The session is registered only when it
    /// creates or joins a room.
    pub fn connect(&mut self) -> (id: ConnId)
        requires
            old(self).wf(),
        ensures
            final(self).connect_done(old(self), id),
    {
        let ghost before = *self;
        let ghost up = self.ids.upcoming();
        let limit = self.sessions.len();
        let mut id = self.ids.id_generator();
        let mut k: usize = 0;
        let ghost mut tried = Set::<ConnId>::empty();
        while k < limit && self.sessions.contains(&id)
            invariant
                self.ids.wf(),
                up != 0,
                k <= limit,
                limit == self.sessions@.len(),
                self.sessions@.finite(),
                id == cycle(up, k as int),
                id != 0,
                self.ids.upcoming() == IdGenerator::successor(id),
                forall|j: int| 0 <= j < k ==> self.sessions@.contains(#[trigger] cycle(up, j)),
                limit < u64::MAX ==> tried.finite() && tried.len() == k && tried.subset_of(
                    self.sessions@,
                ),
                limit < u64::MAX ==> forall|x: ConnId| #[trigger]
                    tried.contains(x) <==> exists|j: int| 0 <= j < k && x == cycle(up, j),
                self.sessions == before.sessions,
                self.rooms == before.rooms,
                self.agents == before.agents,
                self.seeds == before.seeds,
            decreases limit - k,
        {
            proof {
                if limit < u64::MAX {
                    if tried.contains(id) {
                        let j = choose|j: int| 0 <= j < k && id == cycle(up, j);
                        assert(cycle(up, j) != cycle(up, k as int));
                    }
                    let grown = tried.insert(id);
                    assert forall|x: ConnId| #[trigger]
                        grown.contains(x) <==> exists|j: int| 0 <= j < k + 1 && x == cycle(up, j) by {
                        if grown.contains(x) {
                            if x == id {
                                assert(0 <= k < k + 1 && x == cycle(up, k as int));
                            } else {
                                let j = choose|j: int| 0 <= j < k && x == cycle(up, j);
                                assert(0 <= j < k + 1 && x == cycle(up, j));
                            }
                        }
                        if exists|j: int| 0 <= j < k + 1 && x == cycle(up, j) {
                            let j = choose|j: int| 0 <= j < k + 1 && x == cycle(up, j);
                            if j < k {
                                assert(tried.contains(x));
                            }
                        }
                    }
                    tried = grown;
                }
            }
            id = self.ids.id_generator();
            k += 1;
        }
        proof {
            if limit < u64::MAX && self.sessions@.contains(id) {
                vstd::set_lib::lemma_subset_equality(tried, self.sessions@);
                assert(tried.contains(id));
                let j = choose|j: int| 0 <= j < k && id == cycle(up, j);
                assert(cycle(up, j) != cycle(up, k as int));
            }
            assert(self.room_ids() =~= before.room_ids());
            assert(self.agents() =~= before.agents());
            assert forall|j: int| 0 <= j < self.rooms@.len() implies #[trigger] self.room_ok(
                self.rooms@[j],
            ) by {
                assert(before.room_ok(before.rooms@[j]));
            }
            assert(0 <= k <= before.sessions().len() && id == cycle(before.upcoming_conn(), k as int));
        }
        id
    }

    /// The messages that go out when `conn` leaves, for the first `n` rooms:
    /// for each room that `conn` was a member of, one notice for every member
    /// that stays, 0 left out.
    pub open spec fn notices(&self, conn: ConnId, n: nat) -> Seq<OutboundView>
        decreases n,
    {
        if n == 0 {
            Seq::empty()
        } else {
            let id = self.room_ids()[n - 1];
            let rest = self.notices(conn, (n - 1) as nat);
            if self.members(id).contains(conn) {
                rest + fanout(
                    recipients(without_item(self.members(id), conn), self.sessions().remove(conn), 0),
                    ResponseView::System { message: disconnect_notice() },
                )
            } else {
                rest
            }
        }
    }

    /// What a disconnect leaves behind and sends: `conn` has no session and no
    /// label and is a member of no room; the members that stay in its rooms
    /// are told.
    pub open spec fn disconnect_done(&self, before: &Self, conn: ConnId, out: Seq<OutboundView>) -> bool {
        &&& self.wf()
        &&& self.sessions() == before.sessions().remove(conn)
        &&& self.agents() == agents_without(before.agents(), conn)
        &&& self.room_ids() == before.room_ids()
        &&& self.upcoming_conn() == before.upcoming_conn()
        &&& self.upcoming_seed() == before.upcoming_seed()
        &&& forall|r: Seq<char>| #[trigger]
            before.has_room(r) ==> self.members(r) == without_item(before.members(r), conn)
                && self.coding(r) == before.coding(r) && self.version(r) == before.version(r)
        &&& out == before.notices(conn, before.room_ids().len())
    }

    /// Forgets the session and its label, takes `conn` out of every room, and
    /// addresses a notice to those who stay in the rooms it was in.
    pub fn disconnect(&mut self, conn: ConnId) -> (out: Vec<Outbound>)
        requires
            old(self).wf(),
        ensures
            final(self).disconnect_done(old(self), conn, outbound_views(out@)),
    {
        let ghost before = *self;
        self.sessions.remove(&conn);
        drop_agent(&mut self.agents, conn);
        proof {
            lemma_agents_without(before.agents(), conn);
            lemma_without_item(conns_of(before.agents()), conn);
        }
        let notice = FkResponse::system_message(String::from_str("Someone disconnected"));
        let mut out: Vec<Outbound> = Vec::new();
        let mut i: usize = 0;
        assert(outbound_views(out@) =~= before.notices(conn, 0));
        while i < self.rooms.len()
            invariant
                before.wf(),
                i <= self.rooms@.len(),
                self.rooms@.len() == before.rooms@.len(),
                self.sessions@ == before.sessions@.remove(conn),
                self.agents() == agents_without(before.agents(), conn),
                self.ids == before.ids,
                self.seeds == before.seeds,
                notice@ == (ResponseView::System { message: disconnect_notice() }),
                forall|j: int|
                    0 <= j < i ==> (#[trigger] self.rooms@[j]).id == before.rooms@[j].id
                        && self.rooms@[j].members@ == without_item(before.rooms@[j].members@, conn)
                        && self.rooms@[j].coding == before.rooms@[j].coding && self.rooms@[j].version
                        == before.rooms@[j].version,
                forall|j: int| i <= j < self.rooms@.len() ==> #[trigger] self.rooms@[j] == before.rooms@[j],
                outbound_views(out@) == before.notices(conn, i as nat),
            decreases self.rooms@.len() - i,
        {
            proof {
                assert(before.room_ok(before.rooms@[i as int]));
                before.lemma_slot(i as int);
                assert(before.room_ids()[i as int] == before.rooms@[i as int].id@);
            }
            let ghost sent = out@;
            let room = &mut self.rooms[i];
            let was_member = remove_item(&mut room.members, conn);
            if was_member {
                let mut notices = fan_out(&self.rooms[i].members, &self.sessions, 0, &notice);
                let ghost added = notices@;
                out.append(&mut notices);
                assert(outbound_views(out@) =~= outbound_views(sent) + outbound_views(added));
            }
            i += 1;
        }
        proof {
            assert(self.room_ids() =~= before.room_ids());
            assert forall|j: int| 0 <= j < self.rooms@.len() implies #[trigger] self.room_ok(
                self.rooms@[j],
            ) by {
                assert(before.room_ok(before.rooms@[j]));
                lemma_without_item(before.rooms@[j].members@, conn);
                assert(self.rooms@[j].members@ == without_item(before.rooms@[j].members@, conn));
            }
            assert forall|r: Seq<char>| #[trigger] before.has_room(r) implies self.members(r)
                == without_item(before.members(r), conn) && self.coding(r) == before.coding(r)
                && self.version(r) == before.version(r) by {
                before.lemma_slot_of(r);
                let j = before.slot(r);
                assert(self.rooms@[j].id == before.rooms@[j].id);
            }
        }
        out
    }

    /// Whether the session of `conn` is registered.
    pub fn has_session(&self, conn: ConnId) -> (known: bool)
        ensures
            known == self.sessions().contains(conn),
    {
        self.sessions.contains(&conn)
    }

    /// The members of the room, if there is such a room.
    pub fn members_of(&self, room_id: &str) -> (members: Option<Vec<ConnId>>)
        requires
            self.wf(),
        ensures
            members is Some <==> self.has_room(room_id@),
            members is Some ==> members->0@ == self.members(room_id@),
    {
        let id = String::from_str(room_id);
        match self.find_room(&id) {
            Some(i) => {
                proof {
                    self.lemma_slot(i as int);
                }
                Some(self.rooms[i].members.clone())
            },
            None => None,
        }
    }

    /// The version recorded for the room, if there is such a room.
    pub fn version_of(&self, room_id: &str) -> (version: Option<Version>)
        requires
            self.wf(),
        ensures
            version is Some <==> self.has_room(room_id@),
            version is Some ==> version->0 == self.version(room_id@),
    {
        let id = String::from_str(room_id);
        match self.find_room(&id) {
            Some(i) => {
                proof {
                    self.lemma_slot(i as int);
                }
                Some(self.rooms[i].version)
            },
            None => None,
        }
    }
    /// What a command leads to: the state, the reply and the outbound
    /// messages are those of the operation that the command names. An edit
    /// that took effect is followed by the broadcast of its patch to the
    /// other members; reads change nothing.
    pub open spec fn handled(
        &self,
        before: &Self,
        cmd: Command,
        reply: ReplyView,
        out: Seq<OutboundView>,
    ) -> bool {
        match cmd {
            Command::Connect => {
                &&& reply is Connected
                &&& self.connect_done(before, reply->Connected_0)
                &&& out == Seq::<OutboundView>::empty()
            },
            Command::Disconnect { conn } => {
                &&& reply == ReplyView::Disconnected
                &&& self.disconnect_done(before, conn, out)
            },
            Command::Create { conn, room_id, content, agent_name } => {
                &&& reply == ReplyView::Response(ResponseView::Create { room_id: room_id@ })
                &&& self.create_done(before, room_id@, conn, content@, agent_name@)
                &&& out == Seq::<OutboundView>::empty()
            },
            Command::Join { conn, room_id, agent_name } => {
                &&& reply is Response
                &&& self.join_done(before, conn, room_id@, agent_name@, reply->Response_0)
                &&& out == Seq::<OutboundView>::empty()
            },
            Command::Insert { conn, content, pos, room_id } => {
                exists|mid: LivingEditServer, r: Result<Option<String>, EditError>|
                    {
                        &&& #[trigger] mid.insert_done(before, conn, room_id@, content@, pos, r)
                        &&& reply == ReplyView::Response(
                            ResponseView::Insert { version: edit_ack(r).0, error: edit_ack(r).1 },
                        )
                        &&& if took_effect(r) {
                            self.broadcast_done(&mid, room_id@, conn, out)
                        } else {
                            *self == mid && out == Seq::<OutboundView>::empty()
                        }
                    }
            },
            Command::Delete { conn, room_id, range } => {
                exists|mid: LivingEditServer, r: Result<Option<String>, EditError>|
                    {
                        &&& #[trigger] mid.delete_done(
                            before,
                            conn,
                            room_id@,
                            range.start,
                            range.end,
                            r,
                        )
                        &&& reply == ReplyView::Response(
                            ResponseView::Delete { version: edit_ack(r).0, error: edit_ack(r).1 },
                        )
                        &&& if took_effect(r) {
                            self.broadcast_done(&mid, room_id@, conn, out)
                        } else {
                            *self == mid && out == Seq::<OutboundView>::empty()
                        }
                    }
            },
            Command::List => {
                &&& *self == *before
                &&& reply == ReplyView::Rooms(before.room_ids())
                &&& out == Seq::<OutboundView>::empty()
            },
            Command::ListAgents => {
                &&& *self == *before
                &&& reply == ReplyView::Agents(labels_of(before.agents()))
                &&& out == Seq::<OutboundView>::empty()
            },
            Command::Content { room_id } => {
                &&& *self == *before
                &&& reply == ReplyView::Content(
                    if before.has_room(room_id@) {
                        before.coding(room_id@).text()
                    } else {
                        Seq::empty()
                    },
                )
                &&& out == Seq::<OutboundView>::empty()
            },
        }
    }

    /// Takes one command: changes the state as the command asks and returns
    /// the reply for its sender and the messages for other sessions.
    pub fn handle(&mut self, cmd: Command) -> (reaction: Reaction)
        requires
            old(self).wf(),
        ensures
            final(self).wf(),
            final(self).handled(old(self), cmd, reaction.reply@, outbound_views(reaction.outbound@)),
    {
        let ghost before = *self;
        let ghost nothing = Seq::<OutboundView>::empty();
        match cmd {
            Command::Connect => {
                let id = self.connect();
                let outbound: Vec<Outbound> = Vec::new();
                assert(outbound_views(outbound@) =~= nothing);
                Reaction { reply: Reply::Connected(id), outbound }
            },
            Command::Disconnect { conn } => {
                let outbound = self.disconnect(conn);
                Reaction { reply: Reply::Disconnected, outbound }
            },
            Command::Create { conn, room_id, content, agent_name } => {
                let created = self.create(room_id, conn, content, agent_name);
                let outbound: Vec<Outbound> = Vec::new();
                assert(outbound_views(outbound@) =~= nothing);
                Reaction { reply: Reply::Response(FkResponse::create(created)), outbound }
            },
            Command::Join { conn, room_id, agent_name } => {
                let reply = self.join(conn, room_id, agent_name);
                let outbound: Vec<Outbound> = Vec::new();
                assert(outbound_views(outbound@) =~= nothing);
                Reaction { reply: Reply::Response(reply), outbound }
            },
            Command::Insert { conn, content, pos, room_id } => {
                let r = self.insert(conn, room_id.clone(), content, pos);
                let ghost mid = *self;
                let ghost answer = r;
                let (reply, outbound) = match r {
                    Ok(Some(text)) => (
                        FkResponse::insert(Some(text), None),
                        self.broadcast_patch(room_id, conn),
                    ),
                    Ok(None) => (FkResponse::insert(None, None), Vec::new()),
                    Err(e) => (FkResponse::insert(None, Some(e.message())), Vec::new()),
                };
                proof {
                    if !took_effect(answer) {
                        assert(outbound_views(outbound@) =~= nothing);
                    }
                    assert(mid.insert_done(&before, conn, room_id@, content@, pos, answer));
                }
                Reaction { reply: Reply::Response(reply), outbound }
            },
            Command::Delete { conn, room_id, range } => {
                let ghost lo = range.start;
                let ghost hi = range.end;
                let r = self.delete(conn, room_id.clone(), range);
                let ghost mid = *self;
                let ghost answer = r;
                let (reply, outbound) = match r {
                    Ok(Some(text)) => (
                        FkResponse::delete(Some(text), None),
                        self.broadcast_patch(room_id, conn),
                    ),
                    Ok(None) => (FkResponse::delete(None, None), Vec::new()),
                    Err(e) => (FkResponse::delete(None, Some(e.message())), Vec::new()),
                };
                proof {
                    if !took_effect(answer) {
                        assert(outbound_views(outbound@) =~= nothing);
                    }
                    assert(mid.delete_done(&before, conn, room_id@, lo, hi, answer));
                }
                Reaction { reply: Reply::Response(reply), outbound }
            },
            Command::List => {
                let names = self.list_rooms();
                let outbound: Vec<Outbound> = Vec::new();
                assert(outbound_views(outbound@) =~= nothing);
                let reply = Reply::Rooms(names);
                assert(reply@ == ReplyView::Rooms(before.room_ids())) by {
                    assert(name_views(names@) =~= Seq::new(names@.len(), |i: int| names@[i]@));
                }
                Reaction { reply, outbound }
            },
            Command::ListAgents => {
                let labels = self.list_agents();
                let outbound: Vec<Outbound> = Vec::new();
                assert(outbound_views(outbound@) =~= nothing);
                let reply = Reply::Agents(labels);
                assert(reply@ == ReplyView::Agents(labels_of(before.agents()))) by {
                    assert(name_views(labels@) =~= Seq::new(labels@.len(), |i: int| labels@[i]@));
                }
                Reaction { reply, outbound }
            },
            Command::Content { room_id } => {
                let text = match self.content(room_id) {
                    Some(text) => text,
                    None => String::new(),
                };
                let outbound: Vec<Outbound> = Vec::new();
                assert(outbound_views(outbound@) =~= nothing);
                Reaction { reply: Reply::Content(text), outbound }
            },
        }
    }

    /// Every member of a room has a session and an agent label.
    pub proof fn lemma_members_are_registered(&self, id: Seq<char>, conn: ConnId)
        requires
            self.wf(),
            self.has_room(id),
            self.members(id).contains(conn),
        ensures
            self.sessions().contains(conn),
            conns_of(self.agents()).contains(conn),
    {
        self.lemma_slot_of(id);
        assert(self.room_ok(self.rooms@[self.slot(id)]));
    }

    /// A room's recorded version is its replica's frontier, the replica's
    /// baseline is not ahead of it, and no member occurs twice.
    pub proof fn lemma_room_is_consistent(&self, id: Seq<char>)
        requires
            self.wf(),
            self.has_room(id),
        ensures
            self.coding(id).wf(),
            self.version(id) == self.coding(id).frontier(),
            self.coding(id).baseline().ops <= self.version(id).ops,
            self.members(id).no_duplicates(),
            self.room_ids().no_duplicates(),
            conns_of(self.agents()).no_duplicates(),
    {
        self.lemma_slot_of(id);
        assert(self.room_ok(self.rooms@[self.slot(id)]));
        self.coding(id).lemma_baseline_behind();
    }

    /// An insert that succeeds moves the room's version forward by one step
    /// for each character of the content, and never back.
    pub proof fn lemma_insert_advances_version(
        &self,
        before: &Self,
        conn: ConnId,
        id: Seq<char>,
        content: Seq<char>,
        pos: usize,
        r: Result<Option<String>, EditError>,
    )
        requires
            before.wf(),
            before.has_room(id),
            self.insert_done(before, conn, id, content, pos, r),
        ensures
            self.version(id).ops >= before.version(id).ops,
            r is Ok ==> self.version(id).ops == before.version(id).ops + content.len(),
            r is Err ==> self.version(id) == before.version(id),
    {
        before.lemma_room_is_consistent(id);
    }

    /// An insert at a position inside the room's text succeeds, whoever makes
    /// it, unless the replica's table of authors is full; the room's version
    /// is then the replica's new frontier, ahead of the old version by the
    /// number of characters inserted.
    pub proof fn lemma_insert_succeeds(
        &self,
        before: &Self,
        conn: ConnId,
        id: Seq<char>,
        content: Seq<char>,
        pos: usize,
        r: Result<Option<String>, EditError>,
    )
        requires
            before.wf(),
            before.has_room(id),
            pos <= before.coding(id).text().len(),
            before.coding(id).authors().len() < AUTHOR_LIMIT,
            self.insert_done(before, conn, id, content, pos, r),
        ensures
            r is Ok,
            self.version(id) == self.coding(id).frontier(),
            self.version(id).ops == before.version(id).ops + content.len(),
            content.len() > 0 ==> self.version(id).ops > before.version(id).ops,
    {
        lemma_never_root(conn as nat);
        before.lemma_room_is_consistent(id);
    }

    /// A delete of a range inside the room's text succeeds, whoever makes it,
    /// unless the replica's table of authors is full; the room's version is
    /// then the replica's new frontier, ahead of the old version by the number
    /// of characters removed.
    pub proof fn lemma_delete_succeeds(
        &self,
        before: &Self,
        conn: ConnId,
        id: Seq<char>,
        lo: usize,
        hi: usize,
        r: Result<Option<String>, EditError>,
    )
        requires
            before.wf(),
            before.has_room(id),
            lo <= hi <= before.coding(id).text().len(),
            before.coding(id).authors().len() < AUTHOR_LIMIT,
            self.delete_done(before, conn, id, lo, hi, r),
        ensures
            r is Ok,
            self.version(id) == self.coding(id).frontier(),
            self.version(id).ops == before.version(id).ops + (hi - lo),
            lo < hi ==> self.version(id).ops > before.version(id).ops,
    {
        lemma_never_root(conn as nat);
        before.lemma_room_is_consistent(id);
    }

    /// A join to a room that exists is acknowledged with the room's name, the
    /// replica's encoded history and the id under which the replica knows the
    /// agent, and without an error, unless the replica's table of authors is
    /// full. The connection is a member afterwards; text and version are as
    /// they were.
    pub proof fn lemma_join_is_acknowledged(
        &self,
        before: &Self,
        conn: ConnId,
        id: Seq<char>,
        agent_name: Seq<char>,
        reply: ResponseView,
    )
        requires
            before.wf(),
            before.has_room(id),
            before.coding(id).authors().len() < AUTHOR_LIMIT,
            self.join_done(before, conn, id, agent_name, reply),
        ensures
            reply == (ResponseView::Join {
                room_id: id,
                base_version: self.coding(id).snapshot(),
                agent_id: decimal(agent_id(self.coding(id).authors(), agent_name) as nat),
                error: None,
                agent_name,
            }),
            self.members(id) == with_item(before.members(id), conn),
            self.coding(id).text() == before.coding(id).text(),
            self.version(id) == before.version(id),
    {
    }

    /// A delete that succeeds moves the room's version forward by one step
    /// for each character removed, and never back.
    pub proof fn lemma_delete_advances_version(
        &self,
        before: &Self,
        conn: ConnId,
        id: Seq<char>,
        lo: usize,
        hi: usize,
        r: Result<Option<String>, EditError>,
    )
        requires
            before.wf(),
            before.has_room(id),
            self.delete_done(before, conn, id, lo, hi, r),
        ensures
            self.version(id).ops >= before.version(id).ops,
            r is Ok ==> self.version(id).ops == before.version(id).ops + (hi - lo),
            r is Err ==> self.version(id) == before.version(id),
    {
        before.lemma_room_is_consistent(id);
    }

    /// `after` comes from `before` by one edit of the room `id` that succeeded
    /// and was not empty: an insert of at least one character, or a delete of
    /// at least one.
    pub open spec fn edited(&self, before: &Self, id: Seq<char>) -> bool {
        ||| exists|conn: ConnId, content: Seq<char>, pos: usize, r: Result<Option<String>, EditError>|
            r is Ok && content.len() > 0 && #[trigger] self.insert_done(
                before,
                conn,
                id,
                content,
                pos,
                r,
            )
        ||| exists|conn: ConnId, lo: usize, hi: usize, r: Result<Option<String>, EditError>|
            r is Ok && lo < hi && #[trigger] self.delete_done(before, conn, id, lo, hi, r)
    }

    /// Edits neither remove a room nor break the coordinator.
    proof fn lemma_edits_keep_room(states: Seq<LivingEditServer>, id: Seq<char>, j: int)
        requires
            0 <= j < states.len(),
            states[0].wf(),
            states[0].has_room(id),
            forall|k: int|
                0 <= k < states.len() - 1 ==> #[trigger] states[k + 1].edited(&states[k], id),
        ensures
            states[j].wf(),
            states[j].has_room(id),
        decreases j,
    {
        if j > 0 {
            Self::lemma_edits_keep_room(states, id, j - 1);
            assert(states[j - 1 + 1].edited(&states[j - 1], id));
        }
    }

    /// Over any run of edits of a room that succeeded and were not empty, the
    /// room's version moves forward with every one of them: a later state has
    /// a version that is ahead of an earlier state's by at least the number of
    /// edits between them.
    pub proof fn lemma_versions_advance(
        states: Seq<LivingEditServer>,
        id: Seq<char>,
        i: int,
        j: int,
    )
        requires
            0 <= i <= j < states.len(),
            states[0].wf(),
            states[0].has_room(id),
            forall|k: int|
                0 <= k < states.len() - 1 ==> #[trigger] states[k + 1].edited(&states[k], id),
        ensures
            states[j].version(id).ops >= states[i].version(id).ops + (j - i),
        decreases j - i,
    {
        if i < j {
            Self::lemma_versions_advance(states, id, i, j - 1);
            Self::lemma_edits_keep_room(states, id, j - 1);
            assert(states[j - 1 + 1].edited(&states[j - 1], id));
            states[j - 1].lemma_room_is_consistent(id);
        }
    }

    /// An insert that succeeded, followed by a delete of the inserted range
    /// that succeeded, leaves the room with the text it had before, whoever
    /// made the two edits.
    pub proof fn lemma_insert_then_delete_restores(
        &self,
        mid: &Self,
        before: &Self,
        writer: ConnId,
        eraser: ConnId,
        id: Seq<char>,
        content: Seq<char>,
        pos: usize,
        r1: Result<Option<String>, EditError>,
        r2: Result<Option<String>, EditError>,
    )
        requires
            before.wf(),
            before.has_room(id),
            pos + content.len() <= usize::MAX,
            mid.insert_done(before, writer, id, content, pos, r1),
            self.delete_done(mid, eraser, id, pos, (pos + content.len()) as usize, r2),
            r1 is Ok,
            r2 is Ok,
        ensures
            self.has_room(id),
            self.coding(id).text() == before.coding(id).text(),
            self.members(id) == before.members(id),
            self.version(id).ops == before.version(id).ops + 2 * content.len(),
    {
        before.lemma_room_is_consistent(id);
        lemma_insert_then_delete(before.coding(id).text(), pos as int, content);
    }

    /// After a disconnect the connection is a member of no room and has
    /// neither a session nor an agent label.
    pub proof fn lemma_disconnect_leaves_no_trace(
        &self,
        before: &Self,
        conn: ConnId,
        out: Seq<OutboundView>,
    )
        requires
            before.wf(),
            self.disconnect_done(before, conn, out),
        ensures
            !self.sessions().contains(conn),
            !conns_of(self.agents()).contains(conn),
            forall|r: Seq<char>| #[trigger] self.has_room(r) ==> !self.members(r).contains(conn),
    {
        lemma_agents_without(before.agents(), conn);
        lemma_without_item(conns_of(before.agents()), conn);
        assert forall|r: Seq<char>| #[trigger] self.has_room(r) implies !self.members(r).contains(
            conn,
        ) by {
            assert(before.has_room(r));
            before.lemma_room_is_consistent(r);
            lemma_without_item(before.members(r), conn);
        }
    }

    /// A broadcast reaches every member of the room but the one left out,
    /// each of them once and all with the same message, and nobody else.
    pub proof fn lemma_broadcast_reaches_the_others(
        &self,
        before: &Self,
        id: Seq<char>,
        skip: ConnId,
        out: Seq<OutboundView>,
    )
        requires
            before.wf(),
            before.has_room(id),
            self.broadcast_done(before, id, skip, out),
        ensures
            forall|i: int|
                0 <= i < out.len() ==> (#[trigger] out[i]).to != skip && before.members(id).contains(
                    out[i].to,
                ) && out[i].message == out[0].message,
            forall|i: int, j: int|
                0 <= i < j < out.len() ==> (#[trigger] out[i]).to != (#[trigger] out[j]).to,
            forall|m: ConnId|
                before.members(id).contains(m) && m != skip ==> exists|i: int|
                    0 <= i < out.len() && (#[trigger] out[i]).to == m,
    {
        let members = before.members(id);
        let to = recipients(members, before.sessions(), skip);
        before.lemma_room_is_consistent(id);
        lemma_recipients(members, before.sessions(), skip);
        assert forall|i: int| 0 <= i < out.len() implies (#[trigger] out[i]).to != skip
            && members.contains(out[i].to) && out[i].message == out[0].message by {
            assert(to.contains(to[i]));
        }
        assert forall|m: ConnId| members.contains(m) && m != skip implies exists|i: int|
            0 <= i < out.len() && (#[trigger] out[i]).to == m by {
            before.lemma_members_are_registered(id, m);
            assert(to.contains(m));
            let i = choose|i: int| 0 <= i < to.len() && to[i] == m;
            assert(out[i].to == m);
        }
    }

    /// A broadcast leaves nothing to hand out: a second broadcast right after
    /// it carries the patch that holds no operation, and changes nothing.
    pub proof fn lemma_second_broadcast_is_empty(
        &self,
        first: &Self,
        before: &Self,
        id: Seq<char>,
        skip: ConnId,
        out1: Seq<OutboundView>,
        out2: Seq<OutboundView>,
    )
        requires
            before.wf(),
            before.has_room(id),
            first.broadcast_done(before, id, skip, out1),
            self.broadcast_done(first, id, skip, out2),
        ensures
            first.coding(id).baseline() == first.coding(id).frontier(),
            self.coding(id) == first.coding(id),
            out2 == fanout(
                recipients(before.members(id), before.sessions(), skip),
                ResponseView::Upstream {
                    remote_version: before.coding(id).remote(),
                    patch: before.coding(id).patch_since(before.coding(id).frontier()),
                },
            ),
    {
        before.lemma_room_is_consistent(id);
        before.coding(id).lemma_caught_up();
    }
}

} // verus!
