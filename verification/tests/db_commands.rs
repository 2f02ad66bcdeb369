//! Database-level command behaviour: lifecycle, round trips, errors.
use ruko_server::{CommandOutput, DataCommand, DbCommand, DbError, Ruko};
use serde_json::Value;

fn sample_value() -> Value {
    let mut obj = serde_json::Map::new();
    obj.insert(
        String::from("zach"),
        Value::Number(serde_json::Number::from(9000)),
    );
    Value::Object(obj)
}

fn create(db: &mut Ruko, name: &str) -> Result<CommandOutput, DbError> {
    db.run_command(DbCommand::CreateCollection {
        name: String::from(name),
    })
}

fn set(db: &mut Ruko, coll: &str, id: &str, key: Vec<String>, value: Value) -> Result<CommandOutput, DbError> {
    db.run_command(DbCommand::ExecuteOnEntry {
        collection_name: String::from(coll),
        id: String::from(id),
        command: DataCommand::SetValue { key, value },
    })
}

fn get(db: &mut Ruko, coll: &str, id: &str, key: Vec<String>) -> Result<CommandOutput, DbError> {
    db.run_command(DbCommand::ExecuteOnEntry {
        collection_name: String::from(coll),
        id: String::from(id),
        command: DataCommand::Get { key },
    })
}

#[test]
fn easy() {
    let mut db = Ruko::new();
    let cmd = DbCommand::CreateCollection {
        name: String::from("test_collection"),
    };
    db.run_command(cmd).unwrap();
    let cmd = DbCommand::ExecuteOnEntry {
        collection_name: String::from("test_collection"),
        id: String::from("test_collection"),
        command: DataCommand::SetValue {
            key: vec![String::from("key1")],
            value: sample_value(),
        },
    };
    db.run_command(cmd).unwrap();
    db.shutdown();
    assert_eq!(2 + 2, 4);
}

#[test]
fn set_then_get_round_trip() {
    let mut db = Ruko::with_shard_count(4);
    create(&mut db, "c").unwrap();
    let v = sample_value();
    let r = set(&mut db, "c", "user-1", vec![String::from("profile")], v.clone());
    assert!(matches!(r, Ok(CommandOutput::Done)));
    match get(&mut db, "c", "user-1", vec![String::from("profile")]) {
        Ok(CommandOutput::Entry(Some(read))) => assert_eq!(read, v),
        _ => panic!("expected the value just set"),
    }
}

#[test]
fn get_of_unwritten_id_is_absent_not_error() {
    let mut db = Ruko::with_shard_count(3);
    create(&mut db, "c").unwrap();
    match get(&mut db, "c", "never-written", vec![String::from("k")]) {
        Ok(CommandOutput::Entry(None)) => {}
        _ => panic!("expected absent, not an error"),
    }
}

#[test]
fn get_of_other_path_is_absent() {
    let mut db = Ruko::with_shard_count(2);
    create(&mut db, "c").unwrap();
    set(&mut db, "c", "id", vec![String::from("a")], sample_value()).unwrap();
    match get(&mut db, "c", "id", vec![String::from("b")]) {
        Ok(CommandOutput::Entry(None)) => {}
        _ => panic!("expected absent for another path"),
    }
}

#[test]
fn create_twice_fails_with_already_exists() {
    let mut db = Ruko::with_shard_count(2);
    assert!(matches!(create(&mut db, "x"), Ok(CommandOutput::Done)));
    assert!(matches!(create(&mut db, "x"), Err(DbError::AlreadyExists)));
}

#[test]
fn execute_on_missing_collection_fails_with_not_found() {
    let mut db = Ruko::with_shard_count(2);
    let r = get(&mut db, "never-created", "id", vec![String::from("k")]);
    assert!(matches!(r, Err(DbError::NotFound)));
}

#[test]
fn execute_after_destroy_fails_with_not_found() {
    let mut db = Ruko::with_shard_count(2);
    create(&mut db, "x").unwrap();
    let r = db.run_command(DbCommand::DestroyCollection {
        name: String::from("x"),
    });
    assert!(matches!(r, Ok(CommandOutput::Done)));
    let r = get(&mut db, "x", "id", vec![String::from("k")]);
    assert!(matches!(r, Err(DbError::NotFound)));
}

#[test]
fn destroy_of_missing_collection_fails_with_not_found() {
    let mut db = Ruko::with_shard_count(2);
    let r = db.run_command(DbCommand::DestroyCollection {
        name: String::from("x"),
    });
    assert!(matches!(r, Err(DbError::NotFound)));
}

#[test]
fn destroy_then_create_yields_fresh_collection() {
    let mut db = Ruko::with_shard_count(4);
    create(&mut db, "x").unwrap();
    set(&mut db, "x", "id", vec![String::from("k")], sample_value()).unwrap();
    db.run_command(DbCommand::DestroyCollection {
        name: String::from("x"),
    })
    .unwrap();
    assert!(matches!(create(&mut db, "x"), Ok(CommandOutput::Done)));
    match get(&mut db, "x", "id", vec![String::from("k")]) {
        Ok(CommandOutput::Entry(None)) => {}
        _ => panic!("no state may leak across the destroy/create boundary"),
    }
}

#[test]
fn shutdown_of_entry_command_is_internal_error() {
    let mut db = Ruko::with_shard_count(2);
    create(&mut db, "c").unwrap();
    let r = db.run_command(DbCommand::ExecuteOnEntry {
        collection_name: String::from("c"),
        id: String::from("id"),
        command: DataCommand::ShutdownShardedCollection,
    });
    assert!(matches!(r, Err(DbError::Internal)));
}

#[test]
fn list_collections_names_in_creation_order() {
    let mut db = Ruko::with_shard_count(2);
    create(&mut db, "alpha").unwrap();
    create(&mut db, "beta").unwrap();
    match db.run_command(DbCommand::ListCollections) {
        Ok(CommandOutput::Names(ns)) => {
            assert_eq!(ns, vec![String::from("alpha"), String::from("beta")]);
        }
        _ => panic!("listing never fails"),
    }
}

#[test]
fn shutdown_twice_succeeds_both_times() {
    let mut db = Ruko::with_shard_count(2);
    create(&mut db, "a").unwrap();
    create(&mut db, "b").unwrap();
    db.shutdown();
    match db.run_command(DbCommand::ListCollections) {
        Ok(CommandOutput::Names(ns)) => assert!(ns.is_empty()),
        _ => panic!("listing never fails"),
    }
    db.shutdown();
    match db.run_command(DbCommand::ListCollections) {
        Ok(CommandOutput::Names(ns)) => assert!(ns.is_empty()),
        _ => panic!("listing never fails"),
    }
}
