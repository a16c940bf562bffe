use diamond_types::list::ListCRDT;
use living_edit::live_coding::{EditError, Version};
use living_edit::living_edit_server::LivingEditServer;
use living_edit::model::{Command, FkResponse, Outbound, Reaction, Reply};

fn text_of(doc: &ListCRDT) -> String {
    doc.branch.content().to_string()
}

fn joined_base(reply: &FkResponse) -> Vec<u8> {
    match reply {
        FkResponse::Join { base_version, error, .. } => {
            assert_eq!(*error, None);
            base_version.clone()
        }
        other => panic!("not a join acknowledgement: {:?}", other),
    }
}

fn upstream_patch(outbound: &Outbound) -> Vec<u8> {
    match &outbound.message {
        FkResponse::Upstream { patch, .. } => patch.clone(),
        other => panic!("not an upstream message: {:?}", other),
    }
}

fn insert_command(conn: u64, room: &str, pos: usize, content: &str) -> Command {
    Command::Insert { conn, content: content.to_string(), pos, room_id: room.to_string() }
}

#[test]
fn solo_create_insert() {
    let mut server = LivingEditServer::new();
    let conn = server.connect();
    let created = server.create("r1".to_string(), conn, "Hello".to_string(), "ann".to_string());
    assert_eq!(created, "r1");
    let after_create = server.version_of("r1").unwrap();
    assert_eq!(after_create, Version { ops: 5 });

    let r = server.insert(conn, "r1".to_string(), " World".to_string(), 5);
    assert_eq!(r, Ok(Some("Hello World".to_string())));
    assert_eq!(server.content("r1".to_string()), Some("Hello World".to_string()));
    let after_insert = server.version_of("r1").unwrap();
    assert_eq!(after_insert, Version { ops: 11 });
    assert!(after_create.ops > 0 && after_insert.ops > after_create.ops);
}

#[test]
fn two_client_convergence() {
    let mut server = LivingEditServer::new();
    let a = server.connect();
    let b = server.connect();
    server.create("r1".to_string(), a, "ab".to_string(), "ann".to_string());
    let ack = server.join(b, "r1".to_string(), "bob".to_string());
    let base = joined_base(&ack);
    let mut replica_a = ListCRDT::load_from(&base).unwrap();
    let mut replica_b = ListCRDT::load_from(&base).unwrap();
    assert_eq!(text_of(&replica_b), "ab");

    let first = server.handle(insert_command(a, "r1", 1, "X"));
    let agent_a = replica_a.get_or_create_agent_id(&a.to_string());
    replica_a.insert(agent_a, 1, "X");
    assert_eq!(first.outbound.len(), 1);
    assert_eq!(first.outbound[0].to, b);
    replica_b.merge_data_and_ff(&upstream_patch(&first.outbound[0])).unwrap();
    assert_eq!(text_of(&replica_b), "aXb");

    let second = server.handle(insert_command(b, "r1", 0, "Y"));
    let agent_b = replica_b.get_or_create_agent_id(&b.to_string());
    replica_b.insert(agent_b, 0, "Y");
    assert_eq!(second.outbound.len(), 1);
    assert_eq!(second.outbound[0].to, a);
    replica_a.merge_data_and_ff(&upstream_patch(&second.outbound[0])).unwrap();

    let content = server.content("r1".to_string()).unwrap();
    assert_eq!(content, "YaXb");
    assert_eq!(text_of(&replica_a), content);
    assert_eq!(text_of(&replica_b), content);
}

#[test]
fn join_before_create() {
    let mut server = LivingEditServer::new();
    let conn = server.connect();
    let ack = server.join(conn, "ghost".to_string(), "bob".to_string());
    assert_eq!(
        ack,
        FkResponse::Join {
            room_id: String::new(),
            base_version: vec![],
            agent_id: String::new(),
            error: Some("room \"ghost\" not found".to_string()),
            agent_name: "bob".to_string(),
        }
    );
    assert_eq!(server.list_rooms(), Vec::<String>::new());
    assert_eq!(server.content("ghost".to_string()), None);
    assert_eq!(server.version_of("ghost"), None);
    assert_eq!(server.members_of("ghost"), None);
}

#[test]
fn broadcast_excludes_originator() {
    let mut server = LivingEditServer::new();
    let m1 = server.connect();
    let m2 = server.connect();
    let m3 = server.connect();
    server.create("r1".to_string(), m1, "abc".to_string(), "one".to_string());
    server.join(m2, "r1".to_string(), "two".to_string());
    server.join(m3, "r1".to_string(), "three".to_string());

    let reaction = server.handle(insert_command(m1, "r1", 3, "d"));
    assert_eq!(
        reaction.reply,
        Reply::Response(FkResponse::Insert { version: Some("abcd".to_string()), error: None })
    );
    assert_eq!(reaction.outbound.len(), 2);
    assert_eq!(reaction.outbound[0].to, m2);
    assert_eq!(reaction.outbound[1].to, m3);
    assert_eq!(reaction.outbound[0].message, reaction.outbound[1].message);
    assert!(matches!(reaction.outbound[0].message, FkResponse::Upstream { .. }));
    match &reaction.outbound[0].message {
        FkResponse::Upstream { remote_version, patch } => {
            assert_eq!(*remote_version, vec![(m1.to_string(), 0usize)]);
            assert!(!patch.is_empty());
        }
        other => panic!("not an upstream message: {:?}", other),
    }
}

#[test]
fn disconnect_cleanup() {
    let mut server = LivingEditServer::new();
    let m = server.connect();
    let p = server.connect();
    let q = server.connect();
    server.create("r1".to_string(), m, "one".to_string(), "em".to_string());
    server.create("r2".to_string(), p, "two".to_string(), "pe".to_string());
    server.join(m, "r2".to_string(), "em".to_string());
    server.join(q, "r1".to_string(), "qu".to_string());
    server.join(q, "r2".to_string(), "qu".to_string());
    assert_eq!(server.members_of("r1"), Some(vec![m, q]));
    assert_eq!(server.members_of("r2"), Some(vec![p, m, q]));

    let out = server.disconnect(m);
    let notice = FkResponse::System { message: "Someone disconnected".to_string() };
    assert_eq!(
        out,
        vec![
            Outbound { to: q, message: FkResponse::System { message: "Someone disconnected".to_string() } },
            Outbound { to: p, message: FkResponse::System { message: "Someone disconnected".to_string() } },
            Outbound { to: q, message: FkResponse::System { message: "Someone disconnected".to_string() } },
        ]
    );
    assert_eq!(out[0].message, notice);
    assert_eq!(server.members_of("r1"), Some(vec![q]));
    assert_eq!(server.members_of("r2"), Some(vec![p, q]));
    assert!(!server.has_session(m));
    assert!(server.has_session(p));
    assert!(server.has_session(q));
    assert_eq!(server.list_agents(), vec!["pe".to_string(), "qu".to_string()]);
}

#[test]
fn list_after_disconnect() {
    let mut server = LivingEditServer::new();
    let m = server.connect();
    let p = server.connect();
    server.create("r1".to_string(), m, "one".to_string(), "em".to_string());
    server.create("r2".to_string(), p, "two".to_string(), "pe".to_string());
    server.join(m, "r2".to_string(), "em".to_string());
    server.disconnect(m);

    let mut rooms = match server.handle(Command::List).reply {
        Reply::Rooms(rooms) => rooms,
        other => panic!("not a list of rooms: {:?}", other),
    };
    rooms.sort();
    assert_eq!(rooms, vec!["r1".to_string(), "r2".to_string()]);
    let agents = server.handle(Command::ListAgents);
    assert_eq!(agents.reply, Reply::Agents(vec!["pe".to_string()]));
    assert!(agents.outbound.is_empty());
}

#[test]
fn disconnect_leaves_no_trace() {
    let mut server = LivingEditServer::new();
    let c = server.connect();
    let d = server.connect();
    server.create("r1".to_string(), c, "x".to_string(), "cee".to_string());
    server.create("r2".to_string(), d, "y".to_string(), "dee".to_string());
    server.join(c, "r2".to_string(), "cee".to_string());
    let reaction = server.handle(Command::Disconnect { conn: c });
    assert_eq!(reaction.reply, Reply::Disconnected);
    assert!(!server.has_session(c));
    assert!(!server.list_agents().contains(&"cee".to_string()));
    for room in server.list_rooms() {
        assert!(!server.members_of(&room).unwrap().contains(&c));
    }
    // a room without members stays
    assert_eq!(server.members_of("r1"), Some(vec![]));
    assert_eq!(server.content("r1".to_string()), Some("x".to_string()));
}

#[test]
fn disconnect_of_a_stranger_changes_nothing() {
    let mut server = LivingEditServer::new();
    let c = server.connect();
    server.create("r1".to_string(), c, "x".to_string(), "cee".to_string());
    let out = server.disconnect(99);
    assert!(out.is_empty());
    assert_eq!(server.members_of("r1"), Some(vec![c]));
    assert!(server.has_session(c));
    assert_eq!(server.list_agents(), vec!["cee".to_string()]);
}

#[test]
fn a_member_with_id_zero_gets_no_notice() {
    let mut server = LivingEditServer::new();
    server.create("r1".to_string(), 0, "x".to_string(), "zero".to_string());
    server.join(7, "r1".to_string(), "seven".to_string());
    server.join(8, "r1".to_string(), "eight".to_string());
    let out = server.disconnect(7);
    assert_eq!(out.len(), 1);
    assert_eq!(out[0].to, 8);
}

#[test]
fn versions_advance_with_every_edit() {
    let mut server = LivingEditServer::new();
    let c = server.connect();
    server.create("r1".to_string(), c, "abc".to_string(), "cee".to_string());
    let mut last = server.version_of("r1").unwrap();
    assert_eq!(last, Version { ops: 3 });
    let edits: Vec<(bool, usize, usize, &str)> =
        vec![(true, 0, 0, "xy"), (false, 1, 3, ""), (true, 3, 0, "z"), (false, 0, 1, "")];
    let mut expected = 3;
    for (is_insert, a, b, content) in edits {
        if is_insert {
            server.insert(c, "r1".to_string(), content.to_string(), a).unwrap();
            expected += content.chars().count();
        } else {
            server.delete(c, "r1".to_string(), a..b).unwrap();
            expected += b - a;
        }
        let now = server.version_of("r1").unwrap();
        assert!(now.ops > last.ops);
        assert_eq!(now.ops, expected);
        last = now;
    }
    assert_eq!(server.content("r1".to_string()), Some("bcz".to_string()));
}

#[test]
fn insert_then_delete_restores_content() {
    let mut server = LivingEditServer::new();
    let c = server.connect();
    server.create("r1".to_string(), c, "héllo wörld".to_string(), "cee".to_string());
    let r = server.insert(c, "r1".to_string(), "→ ü ←".to_string(), 6);
    assert_eq!(r, Ok(Some("héllo → ü ←wörld".to_string())));
    let r = server.delete(c, "r1".to_string(), 6..11);
    assert_eq!(r, Ok(Some(String::new())));
    assert_eq!(server.content("r1".to_string()), Some("héllo wörld".to_string()));
}

#[test]
fn join_replay_yields_content() {
    let mut server = LivingEditServer::new();
    let a = server.connect();
    let b = server.connect();
    server.create("r1".to_string(), a, "start".to_string(), "ann".to_string());
    server.handle(insert_command(a, "r1", 5, " here"));
    let base = joined_base(&server.join(b, "r1".to_string(), "bob".to_string()));
    let mut replica = ListCRDT::load_from(&base).unwrap();
    assert_eq!(text_of(&replica), "start here");

    let mut received = 0;
    let steps: Vec<Command> = vec![
        insert_command(a, "r1", 0, ">> "),
        Command::Delete { conn: a, room_id: "r1".to_string(), range: 3..8 },
        insert_command(a, "r1", 3, "right"),
    ];
    for step in steps {
        let Reaction { outbound, .. } = server.handle(step);
        for message in outbound {
            assert_eq!(message.to, b);
            replica.merge_data_and_ff(&upstream_patch(&message)).unwrap();
            received += 1;
        }
    }
    assert_eq!(received, 3);
    let content = server.content("r1".to_string()).unwrap();
    assert_eq!(content, ">> right here");
    assert_eq!(text_of(&replica), content);
}

#[test]
fn edits_in_a_missing_room_are_acknowledged_empty() {
    let mut server = LivingEditServer::new();
    let c = server.connect();
    assert_eq!(server.insert(c, "nowhere".to_string(), "x".to_string(), 0), Ok(None));
    assert_eq!(server.delete(c, "nowhere".to_string(), 0..0), Ok(None));
    let reaction = server.handle(insert_command(c, "nowhere", 0, "x"));
    assert_eq!(reaction.reply, Reply::Response(FkResponse::Insert { version: None, error: None }));
    assert!(reaction.outbound.is_empty());
    let reaction = server.handle(Command::Content { room_id: "nowhere".to_string() });
    assert_eq!(reaction.reply, Reply::Content(String::new()));
    assert!(server.broadcast_patch("nowhere".to_string(), c).is_empty());
    assert!(server.send_system_message("nowhere", c, "hi".to_string()).is_empty());
}

#[test]
fn edits_out_of_bounds_are_refused() {
    let mut server = LivingEditServer::new();
    let a = server.connect();
    let b = server.connect();
    server.create("r1".to_string(), a, "abc".to_string(), "ann".to_string());
    server.join(b, "r1".to_string(), "bob".to_string());
    assert_eq!(server.insert(a, "r1".to_string(), "x".to_string(), 4), Err(EditError::BadPosition));
    assert_eq!(server.delete(a, "r1".to_string(), 2..4), Err(EditError::BadRange));
    #[allow(clippy::reversed_empty_ranges)]
    let reversed = 2..1;
    assert_eq!(server.delete(a, "r1".to_string(), reversed), Err(EditError::BadRange));
    assert_eq!(server.content("r1".to_string()), Some("abc".to_string()));
    assert_eq!(server.version_of("r1"), Some(Version { ops: 3 }));

    let reaction = server.handle(insert_command(a, "r1", 9, "x"));
    assert_eq!(
        reaction.reply,
        Reply::Response(FkResponse::Insert {
            version: None,
            error: Some("position is behind the end of the text".to_string()),
        })
    );
    assert!(reaction.outbound.is_empty());
    let reaction = server.handle(Command::Delete { conn: a, room_id: "r1".to_string(), range: 1..7 });
    assert_eq!(
        reaction.reply,
        Reply::Response(FkResponse::Delete {
            version: None,
            error: Some("range is reversed or reaches behind the end of the text".to_string()),
        })
    );
    assert!(reaction.outbound.is_empty());

    // the bounds themselves are accepted
    assert_eq!(server.insert(a, "r1".to_string(), "d".to_string(), 3), Ok(Some("abcd".to_string())));
    assert_eq!(server.delete(a, "r1".to_string(), 0..4), Ok(Some(String::new())));
    assert_eq!(server.content("r1".to_string()), Some(String::new()));
}

#[test]
fn empty_edits_succeed_and_leave_the_version() {
    let mut server = LivingEditServer::new();
    let a = server.connect();
    server.create("r1".to_string(), a, String::new(), "ann".to_string());
    assert_eq!(server.version_of("r1"), Some(Version { ops: 0 }));
    assert_eq!(server.content("r1".to_string()), Some(String::new()));
    assert_eq!(server.insert(a, "r1".to_string(), String::new(), 0), Ok(Some(String::new())));
    assert_eq!(server.delete(a, "r1".to_string(), 0..0), Ok(Some(String::new())));
    assert_eq!(server.version_of("r1"), Some(Version { ops: 0 }));
}

#[test]
fn join_acknowledgement_carries_agent_id_and_history() {
    let mut server = LivingEditServer::new();
    let a = server.connect();
    let b = server.connect();
    server.create("r1".to_string(), a, "ab".to_string(), "ann".to_string());
    match server.join(b, "r1".to_string(), "bob".to_string()) {
        FkResponse::Join { room_id, base_version, agent_id, error, agent_name } => {
            assert_eq!(room_id, "r1");
            assert_eq!(agent_id, "1");
            assert_eq!(error, None);
            assert_eq!(agent_name, "bob");
            assert_eq!(text_of(&ListCRDT::load_from(&base_version).unwrap()), "ab");
        }
        other => panic!("not a join acknowledgement: {:?}", other),
    }
    // the same name again keeps its id; a further name gets the next
    match server.join(a, "r1".to_string(), "bob".to_string()) {
        FkResponse::Join { agent_id, .. } => assert_eq!(agent_id, "1"),
        other => panic!("not a join acknowledgement: {:?}", other),
    }
    match server.join(a, "r1".to_string(), "cat".to_string()) {
        FkResponse::Join { agent_id, .. } => assert_eq!(agent_id, "2"),
        other => panic!("not a join acknowledgement: {:?}", other),
    }
    assert_eq!(server.members_of("r1"), Some(vec![a, b]));
    assert_eq!(server.list_agents(), vec!["cat".to_string(), "bob".to_string()]);
}

#[test]
fn join_with_the_reserved_name_gets_the_reserved_id() {
    let mut server = LivingEditServer::new();
    let a = server.connect();
    let b = server.connect();
    server.create("r1".to_string(), a, "ab".to_string(), "ann".to_string());
    match server.join(b, "r1".to_string(), "ROOT".to_string()) {
        FkResponse::Join { room_id, base_version, agent_id, error, agent_name } => {
            assert_eq!(room_id, "r1");
            assert_eq!(agent_id, u32::MAX.to_string());
            assert_eq!(agent_id, "4294967295");
            assert_eq!(error, None);
            assert_eq!(agent_name, "ROOT");
            assert_eq!(text_of(&ListCRDT::load_from(&base_version).unwrap()), "ab");
        }
        other => panic!("not a join acknowledgement: {:?}", other),
    }
    assert_eq!(server.members_of("r1"), Some(vec![a, b]));
    assert_eq!(server.content("r1".to_string()), Some("ab".to_string()));
    assert_eq!(server.version_of("r1"), Some(Version { ops: 2 }));
    // the name took no place in the table: the next new name gets the next id
    match server.join(b, "r1".to_string(), "bob".to_string()) {
        FkResponse::Join { agent_id, error, .. } => {
            assert_eq!(agent_id, "1");
            assert_eq!(error, None);
        }
        other => panic!("not a join acknowledgement: {:?}", other),
    }
}

#[test]
fn create_again_replaces_the_replica_and_keeps_the_members() {
    let mut server = LivingEditServer::new();
    let a = server.connect();
    let b = server.connect();
    server.create("r1".to_string(), a, "old".to_string(), "ann".to_string());
    server.join(b, "r1".to_string(), "bob".to_string());
    server.insert(a, "r1".to_string(), "er".to_string(), 3).unwrap();
    let reaction = server.handle(Command::Create {
        conn: b,
        room_id: "r1".to_string(),
        content: "new".to_string(),
        agent_name: "bobby".to_string(),
    });
    assert_eq!(reaction.reply, Reply::Response(FkResponse::Create { room_id: "r1".to_string() }));
    assert!(reaction.outbound.is_empty());
    assert_eq!(server.list_rooms(), vec!["r1".to_string()]);
    assert_eq!(server.members_of("r1"), Some(vec![a, b]));
    assert_eq!(server.content("r1".to_string()), Some("new".to_string()));
    assert_eq!(server.version_of("r1"), Some(Version { ops: 3 }));
    assert_eq!(server.list_agents(), vec!["ann".to_string(), "bobby".to_string()]);
}

#[test]
fn connect_counts_up_and_passes_over_live_sessions() {
    let mut server = LivingEditServer::new();
    assert_eq!(server.connect(), 1);
    assert_eq!(server.connect(), 2);
    server.create("r1".to_string(), 3, String::new(), "three".to_string());
    server.join(4, "r1".to_string(), "four".to_string());
    assert_eq!(server.connect(), 5);
    match server.handle(Command::Connect).reply {
        Reply::Connected(id) => assert_eq!(id, 6),
        other => panic!("not a connection id: {:?}", other),
    }
    assert!(!server.has_session(5));
    assert!(!server.has_session(6));
    assert!(server.has_session(3));
}

#[test]
fn system_message_goes_to_all_but_the_one_left_out() {
    let mut server = LivingEditServer::new();
    server.create("r1".to_string(), 1, String::new(), "one".to_string());
    server.join(2, "r1".to_string(), "two".to_string());
    server.join(3, "r1".to_string(), "three".to_string());
    let out = server.send_system_message("r1", 2, "hello".to_string());
    assert_eq!(
        out,
        vec![
            Outbound { to: 1, message: FkResponse::System { message: "hello".to_string() } },
            Outbound { to: 3, message: FkResponse::System { message: "hello".to_string() } },
        ]
    );
}

#[test]
fn broadcast_twice_carries_nothing_new_the_second_time() {
    let mut server = LivingEditServer::new();
    let a = server.connect();
    let b = server.connect();
    server.create("r1".to_string(), a, "ab".to_string(), "ann".to_string());
    let base = joined_base(&server.join(b, "r1".to_string(), "bob".to_string()));
    server.insert(a, "r1".to_string(), "c".to_string(), 2).unwrap();
    let first = server.broadcast_patch("r1".to_string(), a);
    let second = server.broadcast_patch("r1".to_string(), a);
    let third = server.broadcast_patch("r1".to_string(), a);
    assert_eq!(first.len(), 1);
    assert_eq!(second.len(), 1);
    assert_ne!(first, second);
    assert_eq!(second, third);

    let mut replica = ListCRDT::load_from(&base).unwrap();
    replica.merge_data_and_ff(&upstream_patch(&first[0])).unwrap();
    assert_eq!(text_of(&replica), "abc");
    let ops = replica.oplog.len();
    replica.merge_data_and_ff(&upstream_patch(&second[0])).unwrap();
    assert_eq!(replica.oplog.len(), ops);
    assert_eq!(text_of(&replica), "abc");
}
