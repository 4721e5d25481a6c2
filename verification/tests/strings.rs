use miniredis::execute::{execute_command, run, run_command, try_execute_command, Env, Outcome};
use miniredis::request::{read_set_expiry, Request};
use miniredis::resp::Value;
use miniredis::store::Db;
use miniredis::strings::{can_incr, can_set, write_set_message, NOT_A_NUMBER, WRONG_TYPE};

fn bulk(s: &str) -> Value {
    Value::BulkString(s.to_string())
}

fn at(now: u64) -> Env {
    Env { now, unix_ms: 1_000, is_replica: false, connected_replicas: 0, offset: 0 }
}

fn outcome(db: &mut Db, now: u64, words: &[&str]) -> Option<Outcome> {
    let args = words[1..].iter().map(|w| bulk(w)).collect();
    try_execute_command(words[0], args, db, at(now))
}

fn reply(db: &mut Db, now: u64, words: &[&str]) -> Value {
    match outcome(db, now, words) {
        Some(Outcome::Reply(v)) => v,
        Some(Outcome::Broadcast { message: _, reply }) => reply,
        other => panic!("no answer: {:?}", other),
    }
}

fn line(s: &str) -> Value {
    Value::SimpleString(s.to_string())
}

#[test]
fn ping_and_echo() {
    let mut db = Db::new();
    assert_eq!(reply(&mut db, 0, &["PING"]), line("PONG"));
    assert_eq!(reply(&mut db, 0, &["EcHo", "hey"]), bulk("hey"));
    match execute_command("echo", vec![Value::Integer(3)], &mut db, at(0)) {
        Outcome::Reply(v) => assert_eq!(v, Value::Integer(3)),
        other => panic!("no answer: {:?}", other),
    }
    assert!(outcome(&mut db, 0, &["ECHO"]).is_none());
}

#[test]
fn unknown_commands_are_refused() {
    let mut db = Db::new();
    let error = Value::Error("ERR unknown command".to_string());
    assert_eq!(reply(&mut db, 0, &["FLUSHALL"]), error);
    assert_eq!(reply(&mut db, 0, &["multi"]), error);
    assert_eq!(reply(&mut db, 0, &[" ping"]), error);
}

#[test]
fn words_are_lowered_beyond_ascii() {
    let mut db = Db::new();
    // The Kelvin sign lowers to the letter k.
    match outcome(&mut db, 0, &["XREAD", "BLOC\u{212a}", "7", "streams", "x", "0-0"]) {
        Some(Outcome::ReadStreams { block_ms, starts }) => {
            assert_eq!(block_ms, Some(7));
            assert_eq!(starts.len(), 1);
        }
        other => panic!("no looks: {:?}", other),
    }
}

#[test]
fn set_and_get() {
    let mut db = Db::new();
    assert_eq!(reply(&mut db, 0, &["GET", "k"]), Value::NullBulkString);
    assert_eq!(reply(&mut db, 0, &["SET", "k", "v"]), line("OK"));
    assert_eq!(reply(&mut db, u64::MAX, &["GET", "k"]), bulk("v"));
    assert_eq!(reply(&mut db, 0, &["SET", "k", "w"]), line("OK"));
    assert_eq!(reply(&mut db, 0, &["get", "k"]), bulk("w"));
    assert_eq!(reply(&mut db, 0, &["get", "K"]), Value::NullBulkString);
}

#[test]
fn every_set_is_a_new_version() {
    let mut db = Db::new();
    reply(&mut db, 0, &["SET", "k", "v"]);
    assert_eq!(db.get("k").unwrap().version, 1);
    reply(&mut db, 0, &["SET", "k", "v"]);
    assert_eq!(db.get("k").unwrap().version, 2);
}

#[test]
fn a_value_expires_after_its_time() {
    let mut db = Db::new();
    reply(&mut db, 5, &["SET", "k", "v", "px", "100"]);
    assert_eq!(db.get("k").unwrap().expires_at, Some(100_000_005));
    assert_eq!(reply(&mut db, 100_000_005, &["GET", "k"]), bulk("v"));
    assert_eq!(reply(&mut db, 100_000_006, &["GET", "k"]), Value::NullBulkString);
    assert!(db.get("k").is_none());
    assert_eq!(reply(&mut db, 0, &["GET", "k"]), Value::NullBulkString);
}

#[test]
fn a_later_set_drops_the_life_time() {
    let mut db = Db::new();
    reply(&mut db, 0, &["SET", "k", "v", "PX", "1"]);
    reply(&mut db, 0, &["SET", "k", "w"]);
    assert_eq!(reply(&mut db, u64::MAX, &["GET", "k"]), bulk("w"));
}

#[test]
fn options_of_set() {
    assert_eq!(read_set_expiry("px", &bulk(" 25\r\n")), Some(Some(25)));
    assert_eq!(read_set_expiry("px", &bulk("soon")), Some(None));
    assert_eq!(read_set_expiry("px", &bulk("-1")), Some(None));
    assert_eq!(read_set_expiry("ex", &bulk("25")), Some(None));
    assert_eq!(read_set_expiry("ex", &Value::Integer(25)), Some(None));
    assert_eq!(read_set_expiry("px", &Value::Integer(25)), None);
    let mut db = Db::new();
    reply(&mut db, 0, &["SET", "a", "v", " Px\r\n", "3"]);
    assert_eq!(db.get("a").unwrap().expires_at, Some(3_000_000));
    reply(&mut db, 0, &["SET", "b", "v", "px"]);
    assert_eq!(db.get("b").unwrap().expires_at, None);
    reply(&mut db, 0, &["SET", "c", "v", "px", "18446744073709551615"]);
    assert_eq!(db.get("c").unwrap().expires_at, Some(18446744073709551615u128 * 1_000_000));
}

#[test]
fn what_set_is_not_defined_on() {
    let mut db = Db::new();
    assert!(outcome(&mut db, 0, &["SET", "k"]).is_none());
    assert!(outcome(&mut db, 0, &["SET"]).is_none());
    let args = vec![bulk("k"), Value::Integer(1)];
    assert!(try_execute_command("set", args, &mut db, at(0)).is_none());
    let args = vec![bulk("k"), bulk("v"), Value::NullArray, bulk("1")];
    assert!(try_execute_command("set", args, &mut db, at(0)).is_none());
    let args = vec![bulk("k"), bulk("v"), bulk("px"), Value::Integer(1)];
    assert!(run_command("set", &args, &mut db, at(0)).is_none());
    assert!(db.get("k").is_none());
    assert!(can_set(&db, "k"));
}

#[test]
fn set_is_told_to_the_replicas() {
    let mut db = Db::new();
    match outcome(&mut db, 0, &["SET", "k", "v\u{e9}", "px", "9"]) {
        Some(Outcome::Broadcast { message, reply }) => {
            assert_eq!(message, "*3\r\n$3\r\nSET\r\n$1\r\nk\r\n$3\r\nv\u{e9}\r\n");
            assert_eq!(reply, line("OK"));
        }
        other => panic!("no broadcast: {:?}", other),
    }
    assert_eq!(write_set_message("", "a b"), "*3\r\n$3\r\nSET\r\n$0\r\n\r\n$3\r\na b\r\n");
}

#[test]
fn get_of_another_kind_is_refused() {
    let mut db = Db::new();
    reply(&mut db, 0, &["RPUSH", "l", "a"]);
    assert_eq!(reply(&mut db, 0, &["GET", "l"]), Value::Error(WRONG_TYPE.to_string()));
    assert_eq!(
        WRONG_TYPE,
        "WRONGTYPE Operation against a key holding the wrong kind of value"
    );
}

#[test]
fn kinds_of_keys() {
    let mut db = Db::new();
    reply(&mut db, 0, &["SET", "s", "v"]);
    reply(&mut db, 0, &["SET", "gone", "v", "px", "1"]);
    reply(&mut db, 0, &["RPUSH", "l", "a"]);
    reply(&mut db, 0, &["XADD", "x", "1-1", "f", "v"]);
    assert_eq!(reply(&mut db, 0, &["TYPE", "s"]), line("string"));
    assert_eq!(reply(&mut db, 0, &["TYPE", "l"]), line("list"));
    assert_eq!(reply(&mut db, 0, &["TYPE", "x"]), line("stream"));
    assert_eq!(reply(&mut db, 0, &["TYPE", "nothing"]), line("none"));
    assert_eq!(reply(&mut db, 1_000_000, &["TYPE", "gone"]), line("string"));
    assert_eq!(reply(&mut db, 1_000_001, &["TYPE", "gone"]), line("none"));
    assert!(db.get("gone").is_none());
}

#[test]
fn incr_counts_up() {
    let mut db = Db::new();
    assert_eq!(reply(&mut db, 0, &["INCR", "n"]), Value::Integer(1));
    assert_eq!(db.get("n").unwrap().version, 0);
    assert_eq!(reply(&mut db, 0, &["INCR", "n"]), Value::Integer(2));
    assert_eq!(reply(&mut db, 0, &["GET", "n"]), bulk("2"));
    reply(&mut db, 0, &["SET", "n", "-1", "px", "50"]);
    assert_eq!(reply(&mut db, 0, &["INCR", "n"]), Value::Integer(0));
    assert_eq!(db.get("n").unwrap().expires_at, Some(50_000_000));
    assert_eq!(db.get("n").unwrap().version, 1);
    reply(&mut db, 0, &["SET", "n", "+0099"]);
    assert_eq!(reply(&mut db, 0, &["INCR", "n"]), Value::Integer(100));
    assert_eq!(reply(&mut db, 0, &["GET", "n"]), bulk("100"));
}

#[test]
fn incr_refuses_what_is_no_number() {
    let mut db = Db::new();
    reply(&mut db, 0, &["SET", "n", "ten"]);
    assert_eq!(
        reply(&mut db, 0, &["INCR", "n"]),
        Value::Error("ERR value is not an integer or out of range".to_string())
    );
    assert_eq!(NOT_A_NUMBER, "ERR value is not an integer or out of range");
    assert_eq!(reply(&mut db, 0, &["GET", "n"]), bulk("ten"));
    reply(&mut db, 0, &["SET", "n", "9223372036854775808"]);
    assert_eq!(reply(&mut db, 0, &["INCR", "n"]), Value::Error(NOT_A_NUMBER.to_string()));
}

#[test]
fn what_incr_is_not_defined_on() {
    let mut db = Db::new();
    reply(&mut db, 0, &["RPUSH", "l", "a"]);
    assert!(!can_incr(&db, "l"));
    assert!(outcome(&mut db, 0, &["INCR", "l"]).is_none());
    reply(&mut db, 0, &["SET", "n", "9223372036854775807"]);
    assert!(outcome(&mut db, 0, &["INCR", "n"]).is_none());
    assert_eq!(reply(&mut db, 0, &["GET", "n"]), bulk("9223372036854775807"));
    assert!(outcome(&mut db, 0, &["INCR"]).is_none());
}

#[test]
fn other_keys_stay() {
    let mut db = Db::new();
    reply(&mut db, 0, &["SET", "a", "1"]);
    reply(&mut db, 0, &["SET", "b", "2", "px", "1"]);
    reply(&mut db, 0, &["SET", "c", "3"]);
    reply(&mut db, 0, &["INCR", "a"]);
    assert_eq!(reply(&mut db, u64::MAX, &["GET", "b"]), Value::NullBulkString);
    assert_eq!(reply(&mut db, 0, &["GET", "c"]), bulk("3"));
    assert_eq!(reply(&mut db, 0, &["GET", "a"]), bulk("2"));
    assert_eq!(db.get("c").unwrap().version, 1);
}

#[test]
fn requests_run_without_words() {
    let mut db = Db::new();
    let q = Request::SetKey { key: "k".to_string(), value: "v".to_string(), expiry_ms: Some(1) };
    assert!(matches!(run(q, &mut db, at(7)), Outcome::Broadcast { .. }));
    assert_eq!(db.get("k").unwrap().expires_at, Some(1_000_007));
}
