use diamond_types::list::ListCRDT;
use living_edit::ident::{random_name, to_decimal, IdGenerator};
use living_edit::live_coding::{EditError, LiveCoding, Version, ROOT_AGENT};
use living_edit::model::{copy_bytes, copy_remote, FkResponse};

#[test]
fn new_replica_is_empty() {
    let replica = LiveCoding::new("seed");
    assert_eq!(replica.content(), "");
    assert_eq!(replica.version(), Version { ops: 0 });
    assert_eq!(replica.pending(), 0);
    assert_eq!(replica.remote_version(), vec![]);
}

#[test]
fn create_inserts_at_the_start() {
    let mut replica = LiveCoding::new("seed");
    assert_eq!(replica.create("seed", "Hello"), Ok(Version { ops: 5 }));
    assert_eq!(replica.content(), "Hello");
    assert_eq!(replica.create("other", ">> "), Ok(Version { ops: 8 }));
    assert_eq!(replica.content(), ">> Hello");
    assert_eq!(replica.remote_version(), vec![("other".to_string(), 2usize)]);
}

#[test]
fn insert_and_delete_count_characters_not_bytes() {
    let mut replica = LiveCoding::new("seed");
    replica.create("seed", "aé→z").unwrap();
    assert_eq!(replica.version(), Version { ops: 4 });
    assert_eq!(replica.insert("1", 2, "ü"), Ok(Version { ops: 5 }));
    assert_eq!(replica.content(), "aéü→z");
    assert_eq!(replica.delete("1", 1..4), Ok(Version { ops: 8 }));
    assert_eq!(replica.content(), "az");
    assert_eq!(replica.insert("1", 2, "!"), Ok(Version { ops: 9 }));
    assert_eq!(replica.content(), "az!");
    assert_eq!(replica.insert("1", 4, "!"), Err(EditError::BadPosition));
    assert_eq!(replica.delete("1", 0..4), Err(EditError::BadRange));
    assert_eq!(replica.content(), "az!");
    assert_eq!(replica.version(), Version { ops: 9 });
}

#[test]
fn the_reserved_name_joins_with_the_reserved_id_and_cannot_write() {
    let mut replica = LiveCoding::new("ROOT");
    assert_eq!(replica.join("ROOT"), Ok(u32::MAX));
    assert_eq!(replica.join("ROOT"), Ok(ROOT_AGENT));
    assert_eq!(replica.insert("ROOT", 0, "x"), Err(EditError::ReservedAgent));
    assert_eq!(replica.insert("ROOT", 0, ""), Err(EditError::ReservedAgent));
    assert_eq!(replica.delete("ROOT", 0..0), Err(EditError::ReservedAgent));
    assert_eq!(replica.create("ROOT", "x"), Err(EditError::ReservedAgent));
    // the position is looked at first
    assert_eq!(replica.insert("ROOT", 1, "x"), Err(EditError::BadPosition));
    assert_eq!(replica.content(), "");
    assert_eq!(replica.version(), Version { ops: 0 });
    // the name took no place in the table: the first author gets the first id
    assert_eq!(replica.join("ann"), Ok(0));
    assert_eq!(replica.join("ROOT"), Ok(u32::MAX));
    assert_eq!(replica.join("bob"), Ok(1));
}

#[test]
fn join_hands_out_ids_in_order_and_keeps_them() {
    let mut replica = LiveCoding::new("seed");
    assert_eq!(replica.join("seed"), Ok(0));
    assert_eq!(replica.join("ann"), Ok(1));
    assert_eq!(replica.join("bob"), Ok(2));
    assert_eq!(replica.join("ann"), Ok(1));
    replica.insert("cat", 0, "x").unwrap();
    assert_eq!(replica.join("cat"), Ok(3));
}

#[test]
fn error_messages() {
    assert_eq!(EditError::BadPosition.message(), "position is behind the end of the text");
    assert_eq!(
        EditError::BadRange.message(),
        "range is reversed or reaches behind the end of the text"
    );
    assert_eq!(EditError::ReservedAgent.message(), "agent name is reserved");
    assert_eq!(EditError::TooManyAgents.message(), "too many agents");
}

#[test]
fn patch_from_version_twice_is_empty_the_second_time() {
    let mut replica = LiveCoding::new("seed");
    replica.create("seed", "abc").unwrap();
    replica.insert("1", 3, "def").unwrap();
    assert_eq!(replica.pending(), 6);
    let first = replica.patch_from_version();
    assert_eq!(replica.pending(), 0);
    let second = replica.patch_from_version();
    assert_eq!(replica.pending(), 0);
    let third = replica.patch_from_version();
    assert_ne!(first, second);
    assert_eq!(second, third);

    let mut reader = ListCRDT::new();
    reader.merge_data_and_ff(&first).unwrap();
    assert_eq!(reader.branch.content().to_string(), "abcdef");
    assert_eq!(reader.oplog.len(), 6);
    reader.merge_data_and_ff(&second).unwrap();
    assert_eq!(reader.branch.content().to_string(), "abcdef");
    assert_eq!(reader.oplog.len(), 6);
}

#[test]
fn patches_follow_one_another() {
    let mut replica = LiveCoding::new("seed");
    let mut reader = ListCRDT::new();
    replica.create("seed", "abc").unwrap();
    reader.merge_data_and_ff(&replica.patch_from_version()).unwrap();
    assert_eq!(reader.branch.content().to_string(), "abc");
    replica.insert("1", 0, "x").unwrap();
    replica.delete("2", 1..3).unwrap();
    assert_eq!(replica.pending(), 3);
    reader.merge_data_and_ff(&replica.patch_from_version()).unwrap();
    assert_eq!(reader.branch.content().to_string(), "xc");
    assert_eq!(reader.branch.content().to_string(), replica.content());
}

#[test]
fn base_version_holds_the_whole_history() {
    let mut replica = LiveCoding::new("seed");
    assert_eq!(ListCRDT::load_from(&replica.base_version()).unwrap().len(), 0);
    replica.create("seed", "abc").unwrap();
    replica.patch_from_version();
    replica.insert("1", 1, "--").unwrap();
    let loaded = ListCRDT::load_from(&replica.base_version()).unwrap();
    assert_eq!(loaded.branch.content().to_string(), "a--bc");
    assert_eq!(loaded.oplog.len(), 5);
    assert_eq!(replica.remote_version(), vec![("1".to_string(), 1usize)]);
}

#[test]
fn decimal_names() {
    assert_eq!(to_decimal(0), "0");
    assert_eq!(to_decimal(7), "7");
    assert_eq!(to_decimal(10), "10");
    assert_eq!(to_decimal(1234567890), "1234567890");
    assert_eq!(to_decimal(u64::MAX), u64::MAX.to_string());
}

#[test]
fn pronounceable_names() {
    assert_eq!(random_name(0), "ba");
    assert_eq!(random_name(1), "be");
    assert_eq!(random_name(5), "da");
    assert_eq!(random_name(59), "tu");
    assert_eq!(random_name(60), "beba");
    assert_eq!(random_name(3599), "tutu");
    assert_eq!(random_name(3600), "bebaba");
    let longest = random_name(u64::MAX);
    assert_eq!(longest.len(), 22);
    assert!(longest.chars().all(|c| c.is_ascii_lowercase()));
}

#[test]
fn id_generator_counts_from_one() {
    let mut ids = IdGenerator::new();
    assert_eq!(ids.id_generator(), 1);
    assert_eq!(ids.id_generator(), 2);
    assert_eq!(ids.id_generator(), 3);
}

#[test]
fn copies_are_equal() {
    let remote = vec![("ann".to_string(), 3usize), ("bob".to_string(), 0usize)];
    assert_eq!(copy_remote(&remote), remote);
    assert_eq!(copy_bytes(&vec![1, 2, 255]), vec![1, 2, 255]);
    let message = FkResponse::upstream(remote, vec![9, 8]);
    assert_eq!(message.replicate(), message);
    let join = FkResponse::join("r".to_string(), vec![1], "0".to_string(), None, "ann".to_string());
    assert_eq!(join.replicate(), join);
    let refused = FkResponse::insert(None, Some("no".to_string()));
    assert_eq!(refused.replicate(), refused);
    assert_eq!(FkResponse::delete(Some(String::new()), None).replicate(),
        FkResponse::Delete { version: Some(String::new()), error: None });
    assert_eq!(FkResponse::create("r".to_string()).replicate(),
        FkResponse::Create { room_id: "r".to_string() });
    assert_eq!(FkResponse::system_message("hi".to_string()).replicate(),
        FkResponse::System { message: "hi".to_string() });
}
