use miniredis::blocking::{after_read, Step, READ_PAUSE_MS};
use miniredis::execute::{try_execute_command, Env, Outcome};
use miniredis::request::{read_xread, NewId, ReadFrom, Request};
use miniredis::resp::Value;
use miniredis::store::{read_id, Db};
use miniredis::streams::{
    can_xadd, read_streams, resolve_starts, xadd, xrange, Start, ID_NOT_ABOVE_LAST, ID_TOO_LOW,
};
use miniredis::strings::WRONG_TYPE;

fn bulk(s: &str) -> Value {
    Value::BulkString(s.to_string())
}

fn array(words: &[&str]) -> Value {
    Value::Array(words.iter().map(|w| bulk(w)).collect())
}

fn entry(id: &str, fields: &[&str]) -> Value {
    Value::Array(vec![bulk(id), array(fields)])
}

fn outcome(db: &mut Db, unix_ms: u64, words: &[&str]) -> Option<Outcome> {
    let env = Env { now: 0, unix_ms, is_replica: false, connected_replicas: 0, offset: 0 };
    let args = words[1..].iter().map(|w| bulk(w)).collect();
    try_execute_command(words[0], args, db, env)
}

fn reply(db: &mut Db, unix_ms: u64, words: &[&str]) -> Value {
    match outcome(db, unix_ms, words) {
        Some(Outcome::Reply(v)) => v,
        Some(Outcome::Broadcast { message: _, reply }) => reply,
        other => panic!("no answer: {:?}", other),
    }
}

fn error(s: &str) -> Value {
    Value::Error(s.to_string())
}

#[test]
fn explicit_ids_have_to_grow() {
    let mut db = Db::new();
    assert_eq!(reply(&mut db, 0, &["XADD", "x", "1-1", "a", "1"]), bulk("1-1"));
    assert_eq!(db.get("x").unwrap().version, 1);
    assert_eq!(reply(&mut db, 0, &["XADD", "x", "1-1", "a", "1"]), error(ID_NOT_ABOVE_LAST));
    assert_eq!(reply(&mut db, 0, &["XADD", "x", "1-0", "a", "1"]), error(ID_NOT_ABOVE_LAST));
    assert_eq!(reply(&mut db, 0, &["XADD", "x", "0-9", "a", "1"]), error(ID_NOT_ABOVE_LAST));
    assert_eq!(reply(&mut db, 0, &["XADD", "x", "0-0", "a", "1"]), error(ID_TOO_LOW));
    assert_eq!(reply(&mut db, 0, &["XADD", "x", "1-2", "b", "2"]), bulk("1-2"));
    assert_eq!(reply(&mut db, 0, &["XADD", "x", "2-0", "c", "3"]), bulk("2-0"));
    assert_eq!(
        reply(&mut db, 0, &["XRANGE", "x", "-", "+"]),
        Value::Array(vec![
            entry("1-1", &["a", "1"]),
            entry("1-2", &["b", "2"]),
            entry("2-0", &["c", "3"]),
        ])
    );
}

#[test]
fn messages_of_refused_ids() {
    assert_eq!(ID_TOO_LOW, "ERR The ID specified in XADD must be greater than 0-0");
    assert_eq!(
        ID_NOT_ABOVE_LAST,
        "ERR The ID specified in XADD is equal or smaller than the target stream top item"
    );
}

#[test]
fn a_new_stream_refuses_the_lowest_id() {
    let mut db = Db::new();
    assert_eq!(reply(&mut db, 0, &["XADD", "x", "0-0", "a", "1"]), error(ID_TOO_LOW));
    assert!(db.get("x").is_none());
    assert_eq!(reply(&mut db, 0, &["XADD", "x", "0-1"]), bulk("0-1"));
}

#[test]
fn sequence_numbers_are_generated() {
    let mut db = Db::new();
    assert_eq!(reply(&mut db, 0, &["XADD", "x", "0-*", "a", "1"]), bulk("0-1"));
    assert_eq!(reply(&mut db, 0, &["XADD", "x", "0-*", "a", "1"]), bulk("0-2"));
    assert_eq!(reply(&mut db, 0, &["XADD", "x", "5-*", "a", "1"]), bulk("5-0"));
    assert_eq!(reply(&mut db, 0, &["XADD", "x", "5-*", "a", "1"]), bulk("5-1"));
    assert_eq!(reply(&mut db, 0, &["XADD", "y", "7-*", "a", "1"]), bulk("7-0"));
}

#[test]
fn ids_are_generated_from_the_time() {
    let mut db = Db::new();
    assert_eq!(reply(&mut db, 1526919030474, &["XADD", "x", "*", "a", "1"]), bulk("1526919030474-0"));
    assert_eq!(reply(&mut db, 1526919030474, &["XADD", "x", "*", "a", "1"]), bulk("1526919030474-1"));
    assert_eq!(reply(&mut db, 1526919030475, &["XADD", "x", "*", "a", "1"]), bulk("1526919030475-0"));
    assert_eq!(reply(&mut db, 0, &["XADD", "y", "*"]), bulk("0-1"));
}

#[test]
fn generated_milliseconds_are_not_compared() {
    let mut db = Db::new();
    reply(&mut db, 0, &["XADD", "x", "10-0", "a", "1"]);
    assert_eq!(reply(&mut db, 0, &["XADD", "x", "5-*", "b", "2"]), bulk("5-0"));
    assert_eq!(
        reply(&mut db, 0, &["XRANGE", "x", "-", "+"]),
        Value::Array(vec![entry("10-0", &["a", "1"]), entry("5-0", &["b", "2"])])
    );
}

#[test]
fn xadd_to_other_kinds_is_refused() {
    let mut db = Db::new();
    reply(&mut db, 0, &["SET", "s", "v"]);
    assert_eq!(reply(&mut db, 0, &["XADD", "s", "1-1", "a", "1"]), error(WRONG_TYPE));
    assert_eq!(reply(&mut db, 0, &["XADD", "s", "1-x", "a", "1"]), error(WRONG_TYPE));
    assert_eq!(reply(&mut db, 0, &["GET", "s"]), bulk("v"));
}

#[test]
fn what_xadd_is_not_defined_on() {
    let mut db = Db::new();
    assert!(outcome(&mut db, 0, &["XADD", "x", "1", "a", "1"]).is_none());
    assert!(outcome(&mut db, 0, &["XADD", "x", "a-1", "a", "1"]).is_none());
    assert!(outcome(&mut db, 0, &["XADD", "x", "1-x", "a", "1"]).is_none());
    assert!(outcome(&mut db, 0, &["XADD", "x"]).is_none());
    reply(&mut db, 0, &["XADD", "x", "3-18446744073709551615", "a", "1"]);
    assert!(outcome(&mut db, 0, &["XADD", "x", "3-*", "a", "1"]).is_none());
    assert!(!can_xadd(&db, "x", &NewId::At(3), 0));
    assert!(can_xadd(&db, "x", &NewId::At(4), 0));
    assert!(can_xadd(&db, "x", &NewId::Explicit("4-4".to_string()), 0));
    assert!(!can_xadd(&db, "x", &NewId::Now, 3));
}

#[test]
fn a_field_without_a_value_is_passed_over() {
    let mut db = Db::new();
    reply(&mut db, 0, &["XADD", "x", "1-1", "a", "1", "b"]);
    assert_eq!(xrange(&db, "x", (0, 0), (9, 9)), Value::Array(vec![entry("1-1", &["a", "1"])]));
    let fields = vec![("k".to_string(), "v".to_string())];
    let id = xadd(&mut db, "y".to_string(), NewId::At(2), fields, 0);
    assert_eq!(id, bulk("2-0"));
}

#[test]
fn ids_as_the_client_wrote_them() {
    let mut db = Db::new();
    assert_eq!(reply(&mut db, 0, &["XADD", "x", "01-+2", "a", "1"]), bulk("01-+2"));
    assert_eq!(reply(&mut db, 0, &["XADD", "x", "1-2", "a", "1"]), error(ID_NOT_ABOVE_LAST));
    assert_eq!(
        reply(&mut db, 0, &["XRANGE", "x", "1-2", "1-2"]),
        Value::Array(vec![entry("01-+2", &["a", "1"])])
    );
    assert_eq!(read_id("01-+2"), Some((1, 2)));
    assert_eq!(read_id("1"), None);
    assert_eq!(read_id("1-2-3"), None);
}

#[test]
fn ranges_of_a_stream() {
    let mut db = Db::new();
    for id in ["1-1", "1-2", "2-0", "3-5"] {
        reply(&mut db, 0, &["XADD", "x", id, "f", id]);
    }
    let all = |ids: &[&str]| Value::Array(ids.iter().map(|i| entry(i, &["f", i])).collect());
    assert_eq!(reply(&mut db, 0, &["XRANGE", "x", "1-2", "2-0"]), all(&["1-2", "2-0"]));
    assert_eq!(reply(&mut db, 0, &["XRANGE", "x", "1", "1"]), all(&["1-1", "1-2"]));
    assert_eq!(reply(&mut db, 0, &["XRANGE", "x", "2", "+"]), all(&["2-0", "3-5"]));
    assert_eq!(reply(&mut db, 0, &["XRANGE", "x", "-", "1-1"]), all(&["1-1"]));
    assert_eq!(reply(&mut db, 0, &["XRANGE", "x", "3-6", "+"]), all(&[]));
    assert_eq!(reply(&mut db, 0, &["XRANGE", "x", "3", "2"]), all(&[]));
    assert_eq!(reply(&mut db, 0, &["XRANGE", "nothing", "-", "+"]), all(&[]));
    reply(&mut db, 0, &["SET", "s", "v"]);
    assert_eq!(reply(&mut db, 0, &["XRANGE", "s", "-", "+"]), all(&[]));
    assert!(outcome(&mut db, 0, &["XRANGE", "x", "+", "+"]).is_none());
    assert!(outcome(&mut db, 0, &["XRANGE", "x", "-", "-"]).is_none());
    assert!(outcome(&mut db, 0, &["XRANGE", "x", "-"]).is_none());
}

fn starts(db: &mut Db, words: &[&str]) -> (Option<u64>, Vec<Start>) {
    match outcome(db, 0, words) {
        Some(Outcome::ReadStreams { block_ms, starts }) => (block_ms, starts),
        other => panic!("no looks: {:?}", other),
    }
}

#[test]
fn xread_reads_what_comes_after() {
    let mut db = Db::new();
    reply(&mut db, 0, &["XADD", "x", "1-1", "a", "1"]);
    reply(&mut db, 0, &["XADD", "x", "1-2", "b", "2"]);
    reply(&mut db, 0, &["XADD", "y", "5-0", "c", "3"]);
    let (block, from) = starts(&mut db, &["XREAD", "streams", "x", "y", "1-1", "4-0"]);
    assert_eq!(block, None);
    assert_eq!(
        read_streams(&db, &from),
        vec![
            Value::Array(vec![bulk("x"), Value::Array(vec![entry("1-2", &["b", "2"])])]),
            Value::Array(vec![bulk("y"), Value::Array(vec![entry("5-0", &["c", "3"])])]),
        ]
    );
    let (_, from) = starts(&mut db, &["XREAD", "streams", "x", "y", "1-2", "0-0"]);
    assert_eq!(
        read_streams(&db, &from),
        vec![Value::Array(vec![bulk("y"), Value::Array(vec![entry("5-0", &["c", "3"])])])]
    );
}

#[test]
fn xread_of_streams_without_news() {
    let mut db = Db::new();
    reply(&mut db, 0, &["SET", "s", "v"]);
    let (_, from) = starts(&mut db, &["XREAD", "streams", "s", "nothing", "0-0", "0-0"]);
    assert!(read_streams(&db, &from).is_empty());
}

#[test]
fn a_dollar_waits_for_what_is_new() {
    let mut db = Db::new();
    reply(&mut db, 0, &["XADD", "x", "1-1", "a", "1"]);
    let (block, from) = starts(&mut db, &["XREAD", "BLOCK", "30", "streams", "x", "new", "$", "$"]);
    assert_eq!(block, Some(30));
    assert_eq!(from[0].after, (1, 1));
    assert_eq!(from[1].after, (0, 0));
    assert!(read_streams(&db, &from).is_empty());
    reply(&mut db, 0, &["XADD", "x", "1-2", "b", "2"]);
    assert_eq!(
        read_streams(&db, &from),
        vec![Value::Array(vec![bulk("x"), Value::Array(vec![entry("1-2", &["b", "2"])])])]
    );
}

#[test]
fn starts_are_settled() {
    let db = Db::new();
    let from = vec![
        ReadFrom { key: "x".to_string(), after: Some((3, 4)) },
        ReadFrom { key: "x".to_string(), after: None },
    ];
    let s = resolve_starts(&db, from);
    assert_eq!((s[0].after, s[1].after), ((3, 4), (0, 0)));
    assert_eq!(s[1].key, "x");
}

#[test]
fn arguments_of_xread() {
    let args: Vec<Value> = ["block", "0", "streams", "x", "1-1"].iter().map(|w| bulk(w)).collect();
    match read_xread(true, &args) {
        Some(Request::XRead { block_ms, streams }) => {
            assert_eq!(block_ms, Some(0));
            assert_eq!(streams.len(), 1);
            assert_eq!(streams[0].after, Some((1, 1)));
        }
        other => panic!("no request: {:?}", other),
    }
    assert!(read_xread(true, &vec![bulk("block")]).is_none());
    assert!(read_xread(true, &vec![bulk("block"), bulk("5")]).is_none());
    assert!(read_xread(true, &vec![bulk("block"), bulk("x"), bulk("streams")]).is_none());
    match read_xread(false, &vec![bulk("streams"), bulk("x")]) {
        Some(Request::XRead { block_ms: None, streams }) => assert!(streams.is_empty()),
        other => panic!("no request: {:?}", other),
    }
    let mut db = Db::new();
    assert!(outcome(&mut db, 0, &["XREAD"]).is_none());
    assert!(outcome(&mut db, 0, &["XREAD", "streams", "x", "5"]).is_none());
}

#[test]
fn what_follows_a_look_at_streams() {
    let found = || vec![bulk("x")];
    assert!(matches!(after_read(found(), None, 0), Step::Reply(v) if v == array(&["x"])));
    assert!(matches!(after_read(found(), Some(5), 9), Step::Reply(v) if v == array(&["x"])));
    assert!(matches!(after_read(vec![], None, 0), Step::Reply(v) if v == array(&[])));
    assert!(matches!(after_read(vec![], Some(5), 5), Step::Reply(Value::NullArray)));
    assert!(matches!(after_read(vec![], Some(5), 4), Step::Pause(READ_PAUSE_MS)));
    assert!(matches!(after_read(vec![], Some(0), 1_000_000), Step::Pause(READ_PAUSE_MS)));
    assert_eq!(READ_PAUSE_MS, 20);
}
