use respkv::cmd::exists_cmd::ExistsCommand;
use respkv::cmd::json::{DelJsonCommand, GetJsonCommand, SetJsonCommand};
use respkv::dispatch::{dispatch, Dispatched};
use respkv::resp::parse_resp_bulk_string;
use respkv::store::{Record, Store};
use respkv::users::format_users;

const NOW: u64 = 100_000;

fn reply_of(d: Dispatched) -> String {
    match d {
        Dispatched::Reply(r) => r,
        Dispatched::QueryUsers => panic!("unexpected user query"),
    }
}

#[test]
fn decode_two_arguments() {
    let args = parse_resp_bulk_string("*2\r\n$3\r\nGET\r\n$3\r\nfoo\r\n");
    assert_eq!(args, vec!["GET".to_string(), "foo".to_string()]);
}

#[test]
fn decode_empty_chunk() {
    let args = parse_resp_bulk_string("");
    assert!(args.is_empty());
}

#[test]
fn decode_bad_count_line() {
    assert!(parse_resp_bulk_string("*x\r\n$3\r\nGET\r\n").is_empty());
    assert!(parse_resp_bulk_string("GET foo\r\n").is_empty());
}

#[test]
fn decode_drops_argument_with_wrong_length() {
    let args = parse_resp_bulk_string("*2\r\n$9\r\nGET\r\n$3\r\nfoo\r\n");
    assert_eq!(args, vec!["foo".to_string()]);
}

#[test]
fn decode_missing_lines_are_dropped() {
    let args = parse_resp_bulk_string("*3\r\n$3\r\nSET\r\n$1\r\nk\r\n");
    assert_eq!(args, vec!["SET".to_string(), "k".to_string()]);
}

#[test]
fn dispatch_set_then_get_round_trip() {
    let mut db = Store::new();
    let set_args = parse_resp_bulk_string("*3\r\n$3\r\nSET\r\n$1\r\nk\r\n$5\r\nhello\r\n");
    let reply = reply_of(dispatch(&set_args, &mut db, NOW));
    assert_eq!(reply, "+OK\r\n");
    let get_args = parse_resp_bulk_string("*2\r\n$3\r\nGET\r\n$1\r\nk\r\n");
    let reply = reply_of(dispatch(&get_args, &mut db, NOW));
    assert_eq!(reply, "$5\r\nhello\r\n");
}

#[test]
fn dispatch_is_case_insensitive() {
    let mut db = Store::new();
    let args = vec!["set".to_string(), "k".to_string(), "v".to_string()];
    assert_eq!(reply_of(dispatch(&args, &mut db, NOW)), "+OK\r\n");
    let args = vec!["gEt".to_string(), "k".to_string()];
    assert_eq!(reply_of(dispatch(&args, &mut db, NOW)), "$1\r\nv\r\n");
}

#[test]
fn dispatch_empty_frame_is_an_error() {
    let mut db = Store::new();
    let args: Vec<String> = Vec::new();
    assert_eq!(reply_of(dispatch(&args, &mut db, NOW)), "-ERR no command received\r\n");
}

#[test]
fn dispatch_unknown_command_and_bad_arity() {
    let mut db = Store::new();
    let args = vec!["NOPE".to_string()];
    assert_eq!(
        reply_of(dispatch(&args, &mut db, NOW)),
        "-ERR unknown command or wrong number of arguments\r\n"
    );
    let args = vec!["GET".to_string(), "a".to_string(), "b".to_string()];
    assert_eq!(
        reply_of(dispatch(&args, &mut db, NOW)),
        "-ERR unknown command or wrong number of arguments\r\n"
    );
    let args = vec!["SET".to_string(), "k".to_string()];
    assert_eq!(
        reply_of(dispatch(&args, &mut db, NOW)),
        "-ERR unknown command or wrong number of arguments\r\n"
    );
}

#[test]
fn dispatch_set_with_expiry_options() {
    let mut db = Store::new();
    // A later EX overrides PX; the TTL is then 7 seconds.
    let args = vec![
        "SET".to_string(),
        "k".to_string(),
        "v".to_string(),
        "PX".to_string(),
        "5000".to_string(),
        "EX".to_string(),
        "7".to_string(),
    ];
    assert_eq!(reply_of(dispatch(&args, &mut db, NOW)), "+OK\r\n");
    let args = vec!["TTL".to_string(), "k".to_string()];
    assert_eq!(reply_of(dispatch(&args, &mut db, NOW)), ":7\r\n");
}

#[test]
fn dispatch_set_with_malformed_expiry_value() {
    let mut db = Store::new();
    let args = vec![
        "SET".to_string(),
        "k".to_string(),
        "v".to_string(),
        "EX".to_string(),
        "soon".to_string(),
    ];
    assert_eq!(reply_of(dispatch(&args, &mut db, NOW)), "+OK\r\n");
    let args = vec!["TTL".to_string(), "k".to_string()];
    assert_eq!(reply_of(dispatch(&args, &mut db, NOW)), ":-1\r\n");
}

#[test]
fn dispatch_expire_with_invalid_seconds() {
    let mut db = Store::new();
    db.upsert("k", Record { value: "v".to_string(), expire_at: None });
    let args = vec!["EXPIRE".to_string(), "k".to_string(), "ten".to_string()];
    assert_eq!(reply_of(dispatch(&args, &mut db, NOW)), "-ERR invalid expire time\r\n");
}

#[test]
fn dispatch_users_asks_the_caller() {
    let mut db = Store::new();
    let args = vec!["USERS".to_string()];
    assert!(matches!(dispatch(&args, &mut db, NOW), Dispatched::QueryUsers));
}

#[test]
fn exists_counts_duplicates() {
    let mut db = Store::new();
    db.upsert("a", Record { value: "1".to_string(), expire_at: None });
    db.upsert("b", Record { value: "2".to_string(), expire_at: None });
    let cmd = ExistsCommand::new(vec![
        "a".to_string(),
        "b".to_string(),
        "c".to_string(),
        "a".to_string(),
    ]);
    assert_eq!(cmd.execute(&db), ":3\r\n");
}

#[test]
fn incr_rejects_non_numeric_text() {
    let mut db = Store::new();
    db.upsert("k", Record { value: "pears".to_string(), expire_at: None });
    let args = vec!["INCR".to_string(), "k".to_string()];
    assert_eq!(
        reply_of(dispatch(&args, &mut db, NOW)),
        "-ERR value is not an integer or out of range\r\n"
    );
    assert_eq!(db.get("k").unwrap().value, "pears");
}

#[test]
fn incr_rejects_out_of_range_successor() {
    let mut db = Store::new();
    db.upsert("k", Record { value: "9223372036854775807".to_string(), expire_at: None });
    let args = vec!["INCR".to_string(), "k".to_string()];
    assert_eq!(
        reply_of(dispatch(&args, &mut db, NOW)),
        "-ERR value is not an integer or out of range\r\n"
    );
    assert_eq!(db.get("k").unwrap().value, "9223372036854775807");
}

#[test]
fn incr_accepts_a_signed_literal() {
    let mut db = Store::new();
    db.upsert("k", Record { value: "+5".to_string(), expire_at: None });
    let args = vec!["INCR".to_string(), "k".to_string()];
    assert_eq!(reply_of(dispatch(&args, &mut db, NOW)), ":6\r\n");
    assert_eq!(db.get("k").unwrap().value, "6");
}

#[test]
fn get_of_empty_value_round_trips() {
    let mut db = Store::new();
    let args = vec!["SET".to_string(), "k".to_string(), "".to_string()];
    assert_eq!(reply_of(dispatch(&args, &mut db, NOW)), "+OK\r\n");
    let args = vec!["GET".to_string(), "k".to_string()];
    assert_eq!(reply_of(dispatch(&args, &mut db, NOW)), "$0\r\n\r\n");
}

#[test]
fn json_set_and_recursive_search() {
    let mut db = Store::new();
    let set = SetJsonCommand::new("k", "$", "{\"a\":{\"b\":1},\"c\":{\"b\":2}}");
    assert_eq!(set.execute(&mut db), "+OK\r\n");
    let get = GetJsonCommand::new("k", &["$..b"]);
    assert_eq!(get.execute(&db), "$5\r\n[1,2]\r\n");
}

#[test]
fn json_set_rejects_other_paths() {
    let mut db = Store::new();
    let set = SetJsonCommand::new("k", "$.a", "{\"a\":1}");
    assert_eq!(set.execute(&mut db), "-ERR unsupported JSON path\r\n");
    assert!(db.get("k").is_none());
}

#[test]
fn json_get_absent_key_is_an_error() {
    let db = Store::new();
    let get = GetJsonCommand::new("missing", &["$..b"]);
    assert_eq!(get.execute(&db), "-ERR no such key\r\n");
}

#[test]
fn json_get_whole_document() {
    let mut db = Store::new();
    let set = SetJsonCommand::new("k", "$", "{ \"a\" : [1, true, null] }");
    assert_eq!(set.execute(&mut db), "+OK\r\n");
    let get = GetJsonCommand::new("k", &[]);
    assert_eq!(get.execute(&db), "$19\r\n{\"a\":[1,true,null]}\r\n");
}

#[test]
fn json_get_several_paths_reply_as_object() {
    let mut db = Store::new();
    let set = SetJsonCommand::new("k", "$", "{\"a\":{\"b\":1},\"c\":{\"b\":2}}");
    assert_eq!(set.execute(&mut db), "+OK\r\n");
    let get = GetJsonCommand::new("k", &["$..b", "$..z"]);
    assert_eq!(get.execute(&db), "$24\r\n{\"$..b\":[1,2],\"$..z\":[]}\r\n");
}

#[test]
fn json_get_of_invalid_text_is_the_null_document() {
    let mut db = Store::new();
    let set = SetJsonCommand::new("k", "$", "{not json");
    assert_eq!(set.execute(&mut db), "+OK\r\n");
    let get = GetJsonCommand::new("k", &[]);
    assert_eq!(get.execute(&db), "$4\r\nnull\r\n");
}

#[test]
fn json_del_removes_the_record() {
    let mut db = Store::new();
    db.upsert("k", Record { value: "{}".to_string(), expire_at: None });
    let del = DelJsonCommand::new("k");
    assert_eq!(del.execute(&mut db), "+OK\r\n");
    assert!(db.get("k").is_none());
    let del = DelJsonCommand::new("k");
    assert_eq!(del.execute(&mut db), "-ERR no such key\r\n");
}

#[test]
fn users_reply_joins_rows_with_newlines() {
    let rows = vec![
        ("ann".to_string(), "pw1".to_string(), "admin".to_string()),
        ("bob".to_string(), "pw2".to_string(), "guest".to_string()),
    ];
    assert_eq!(format_users(&rows), "ann:pw1:admin\nbob:pw2:guest");
    let none: Vec<(String, String, String)> = Vec::new();
    assert_eq!(format_users(&none), "");
}

#[test]
fn ttl_of_expired_but_present_key_saturates_at_zero() {
    let mut db = Store::new();
    db.upsert("k", Record { value: "v".to_string(), expire_at: Some(NOW - 5_000) });
    let args = vec!["TTL".to_string(), "k".to_string()];
    assert_eq!(reply_of(dispatch(&args, &mut db, NOW)), ":0\r\n");
}

#[test]
fn decr_rejects_out_of_range_predecessor() {
    let mut db = Store::new();
    db.upsert("k", Record { value: "-9223372036854775808".to_string(), expire_at: None });
    let args = vec!["DECR".to_string(), "k".to_string()];
    assert_eq!(
        reply_of(dispatch(&args, &mut db, NOW)),
        "-ERR value is not an integer or out of range\r\n"
    );
    assert_eq!(db.get("k").unwrap().value, "-9223372036854775808");
}

#[test]
fn set_with_seconds_expires_strictly_after_the_deadline() {
    let mut db = Store::new();
    let args = vec![
        "SET".to_string(),
        "k".to_string(),
        "v".to_string(),
        "EX".to_string(),
        "5".to_string(),
    ];
    assert_eq!(reply_of(dispatch(&args, &mut db, 0)), "+OK\r\n");
    let get = vec!["GET".to_string(), "k".to_string()];
    assert_eq!(reply_of(dispatch(&get, &mut db, 4_999)), "$1\r\nv\r\n");
    assert_eq!(reply_of(dispatch(&get, &mut db, 5_000)), "$1\r\nv\r\n");
    assert_eq!(reply_of(dispatch(&get, &mut db, 5_001)), "$-1\r\n");
    assert_eq!(reply_of(dispatch(&get, &mut db, 5_001)), "$-1\r\n");
}

#[test]
fn bulk_length_counts_bytes_of_multibyte_text() {
    let mut db = Store::new();
    let args = vec!["SET".to_string(), "k".to_string(), "h\u{e9}llo".to_string()];
    assert_eq!(reply_of(dispatch(&args, &mut db, NOW)), "+OK\r\n");
    let get = vec!["GET".to_string(), "k".to_string()];
    assert_eq!(reply_of(dispatch(&get, &mut db, NOW)), "$6\r\nh\u{e9}llo\r\n");
}

#[test]
fn exists_requires_at_least_one_key() {
    let mut db = Store::new();
    let args = vec!["EXISTS".to_string()];
    assert_eq!(
        reply_of(dispatch(&args, &mut db, NOW)),
        "-ERR unknown command or wrong number of arguments\r\n"
    );
}

#[test]
fn repeating_a_set_changes_nothing_observable() {
    let mut db1 = Store::new();
    let mut db2 = Store::new();
    let args = vec![
        "SET".to_string(),
        "k".to_string(),
        "v".to_string(),
        "EX".to_string(),
        "9".to_string(),
    ];
    assert_eq!(reply_of(dispatch(&args, &mut db1, NOW)), "+OK\r\n");
    assert_eq!(reply_of(dispatch(&args, &mut db2, NOW)), "+OK\r\n");
    assert_eq!(reply_of(dispatch(&args, &mut db2, NOW)), "+OK\r\n");
    let r1 = db1.get("k").unwrap();
    let r2 = db2.get("k").unwrap();
    assert_eq!(r1.value, r2.value);
    assert_eq!(r1.expire_at, r2.expire_at);
}
