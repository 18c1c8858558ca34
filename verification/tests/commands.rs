use respkv::cmd::decr::DecrCommand;
use respkv::cmd::expire::ExpireCommand;
use respkv::cmd::get::GetCommand;
use respkv::cmd::incr::IncrCommand;
use respkv::cmd::set::SetCommand;
use respkv::cmd::ttl::TTLCommand;
use respkv::store::{Record, Store};

const NOW: u64 = 100_000;

#[test]
fn test_get_existing_key() {
    let mut db = Store::new();
    db.upsert("key", Record { value: "value".to_string(), expire_at: None });

    let get_cmd = GetCommand::new("key");
    let result = get_cmd.execute(&mut db, NOW);

    assert_eq!(result, "$5\r\nvalue\r\n");
}

#[test]
fn test_get_non_existing_key() {
    let mut db = Store::new();

    let get_cmd = GetCommand::new("missing_key");
    let result = get_cmd.execute(&mut db, NOW);

    assert_eq!(result, "$-1\r\n");
}

#[test]
fn test_get_expired_key() {
    let mut db = Store::new();
    let past_time = NOW - 10_000;
    db.upsert("key", Record { value: "value".to_string(), expire_at: Some(past_time) });

    let get_cmd = GetCommand::new("key");
    let result = get_cmd.execute(&mut db, NOW);

    assert_eq!(result, "$-1\r\n");
    assert!(db.get("key").is_none());
}

#[test]
fn test_get_key_with_future_expiration() {
    let mut db = Store::new();
    let future_time = NOW + 10_000;
    db.upsert("key", Record { value: "value".to_string(), expire_at: Some(future_time) });

    let get_cmd = GetCommand::new("key");
    let result = get_cmd.execute(&mut db, NOW);

    assert_eq!(result, "$5\r\nvalue\r\n");
}

#[test]
fn test_set_command() {
    let mut db = Store::new();
    let set_cmd = SetCommand::new("key", "value", None, None);
    let result = set_cmd.execute(&mut db, NOW);

    assert_eq!(result, "+OK\r\n");
    assert_eq!(db.get("key").unwrap().value, "value");
}

#[test]
fn test_set_with_expiration() {
    let mut db = Store::new();
    let future_time_ms: u64 = 10_000;
    let set_cmd = SetCommand::new("key", "value", Some(future_time_ms), None);
    let result = set_cmd.execute(&mut db, NOW);

    assert_eq!(result, "+OK\r\n");
    let rec = db.get("key").unwrap();
    assert_eq!(rec.value, "value");
    assert!(rec.expire_at.is_some());
}

#[test]
fn test_incr_command() {
    let mut db = Store::new();
    db.upsert("counter", Record { value: "1".to_string(), expire_at: None });

    let incr_cmd = IncrCommand::new("counter");
    let result = incr_cmd.execute(&mut db);

    assert_eq!(result, ":2\r\n");
    assert_eq!(db.get("counter").unwrap().value, "2");
}

#[test]
fn test_incr_non_existing_key() {
    let mut db = Store::new();

    let incr_cmd = IncrCommand::new("counter");
    let result = incr_cmd.execute(&mut db);

    assert_eq!(result, ":1\r\n");
    assert_eq!(db.get("counter").unwrap().value, "1");
}

#[test]
fn test_decr_command() {
    let mut db = Store::new();
    db.upsert("counter", Record { value: "2".to_string(), expire_at: None });

    let decr_cmd = DecrCommand::new("counter");
    let result = decr_cmd.execute(&mut db);

    assert_eq!(result, ":1\r\n");
    assert_eq!(db.get("counter").unwrap().value, "1");
}

#[test]
fn test_decr_non_existing_key() {
    let mut db = Store::new();

    let decr_cmd = DecrCommand::new("counter");
    let result = decr_cmd.execute(&mut db);

    assert_eq!(result, ":-1\r\n");
    assert_eq!(db.get("counter").unwrap().value, "-1");
}

#[test]
fn test_expire_command() {
    let mut db = Store::new();
    db.upsert("key", Record { value: "value".to_string(), expire_at: None });

    let expire_cmd = ExpireCommand::new("key", 10);
    let result = expire_cmd.execute(&mut db, NOW);

    assert_eq!(result, "+OK\r\n");

    let rec = db.get("key").unwrap();
    assert!(rec.expire_at.is_some());
    assert!(rec.expire_at.unwrap() > NOW);
}

#[test]
fn test_expire_non_existing_key() {
    let mut db = Store::new();

    let expire_cmd = ExpireCommand::new("missing_key", 10);
    let result = expire_cmd.execute(&mut db, NOW);

    assert_eq!(result, "-ERR no such key\r\n");
}

#[test]
fn test_ttl_command_with_expiration() {
    let mut db = Store::new();
    let future_time = NOW + 10_000;
    db.upsert("key", Record { value: "value".to_string(), expire_at: Some(future_time) });

    let ttl_cmd = TTLCommand::new("key");
    let result = ttl_cmd.execute(&db, NOW);

    let ttl = result.trim_start_matches(':').trim_end_matches("\r\n").parse::<u64>().unwrap();
    assert!(ttl <= 10);
    assert!(ttl > 0);
}

#[test]
fn test_ttl_command_no_expiration() {
    let mut db = Store::new();
    db.upsert("key", Record { value: "value".to_string(), expire_at: None });

    let ttl_cmd = TTLCommand::new("key");
    let result = ttl_cmd.execute(&db, NOW);

    assert_eq!(result, ":-1\r\n");
}

#[test]
fn test_ttl_non_existing_key() {
    let mut db = Store::new();

    let ttl_cmd = TTLCommand::new("missing_key");
    let result = ttl_cmd.execute(&db, NOW);

    assert_eq!(result, ":-1\r\n");
}
