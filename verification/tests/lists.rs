use miniredis::blocking::{after_pop, Step, POP_PAUSE_MS};
use miniredis::execute::{try_execute_command, Env, Outcome};
use miniredis::lists::{can_push, llen, lpop, lpush, lrange, pop_first, rpush};
use miniredis::resp::Value;
use miniredis::store::Db;
use miniredis::strings::WRONG_TYPE;

fn bulk(s: &str) -> Value {
    Value::BulkString(s.to_string())
}

fn array(words: &[&str]) -> Value {
    Value::Array(words.iter().map(|w| bulk(w)).collect())
}

fn owned(words: &[&str]) -> Vec<String> {
    words.iter().map(|w| w.to_string()).collect()
}

fn outcome(db: &mut Db, words: &[&str]) -> Option<Outcome> {
    let env = Env { now: 0, unix_ms: 0, is_replica: false, connected_replicas: 0, offset: 0 };
    let args = words[1..].iter().map(|w| bulk(w)).collect();
    try_execute_command(words[0], args, db, env)
}

fn reply(db: &mut Db, words: &[&str]) -> Value {
    match outcome(db, words) {
        Some(Outcome::Reply(v)) => v,
        Some(Outcome::Broadcast { message: _, reply }) => reply,
        other => panic!("no answer: {:?}", other),
    }
}

#[test]
fn rpush_puts_behind() {
    let mut db = Db::new();
    assert_eq!(reply(&mut db, &["RPUSH", "l", "a", "b"]), Value::Integer(2));
    assert_eq!(db.get("l").unwrap().version, 1);
    assert_eq!(reply(&mut db, &["RPUSH", "l", "c"]), Value::Integer(3));
    assert_eq!(db.get("l").unwrap().version, 1);
    assert_eq!(reply(&mut db, &["LRANGE", "l", "0", "-1"]), array(&["a", "b", "c"]));
    assert_eq!(reply(&mut db, &["LLEN", "l"]), Value::Integer(3));
}

#[test]
fn lpush_puts_each_item_in_front() {
    let mut db = Db::new();
    assert_eq!(reply(&mut db, &["RPUSH", "l", "c"]), Value::Integer(1));
    assert_eq!(reply(&mut db, &["LPUSH", "l", "b", "a"]), Value::Integer(3));
    assert_eq!(reply(&mut db, &["LRANGE", "l", "0", "-1"]), array(&["a", "b", "c"]));
}

#[test]
fn lpush_to_a_new_key_keeps_the_order() {
    let mut db = Db::new();
    assert_eq!(reply(&mut db, &["LPUSH", "l", "a", "b", "c"]), Value::Integer(3));
    assert_eq!(reply(&mut db, &["LRANGE", "l", "0", "-1"]), array(&["a", "b", "c"]));
    assert_eq!(db.get("l").unwrap().version, 0);
}

#[test]
fn pushes_pass_over_what_is_no_bulk_string() {
    let mut db = Db::new();
    let env = Env { now: 0, unix_ms: 0, is_replica: false, connected_replicas: 0, offset: 0 };
    let args = vec![bulk("l"), Value::Integer(1), bulk("a"), Value::NullArray];
    assert!(try_execute_command("rpush", args, &mut db, env).is_some());
    assert_eq!(lrange(&db, "l", 0, -1), array(&["a"]));
    let args = vec![bulk("l"), Value::Integer(1), bulk("b")];
    assert!(try_execute_command("lpush", args, &mut db, env).is_some());
    assert_eq!(lrange(&db, "l", 0, -1), array(&["b", "a"]));
}

#[test]
fn a_push_without_items() {
    let mut db = Db::new();
    assert_eq!(reply(&mut db, &["RPUSH", "l"]), Value::Integer(0));
    assert_eq!(reply(&mut db, &["LLEN", "l"]), Value::Integer(0));
    assert_eq!(reply(&mut db, &["LRANGE", "l", "0", "-1"]), array(&[]));
    assert_eq!(reply(&mut db, &["LPOP", "l"]), Value::NullBulkString);
}

#[test]
fn what_pushes_are_not_defined_on() {
    let mut db = Db::new();
    reply(&mut db, &["SET", "s", "v"]);
    reply(&mut db, &["XADD", "x", "1-1"]);
    assert!(!can_push(&db, "s"));
    assert!(can_push(&db, "new"));
    assert!(outcome(&mut db, &["RPUSH", "s", "a"]).is_none());
    assert!(outcome(&mut db, &["LPUSH", "s", "a"]).is_none());
    assert!(outcome(&mut db, &["RPUSH", "x", "a"]).is_none());
    assert!(outcome(&mut db, &["RPUSH"]).is_none());
    assert_eq!(reply(&mut db, &["GET", "s"]), bulk("v"));
}

#[test]
fn ranges_of_a_list() {
    let mut db = Db::new();
    rpush(&mut db, "l".to_string(), owned(&["a", "b", "c", "d", "e"]));
    assert_eq!(lrange(&db, "l", 0, 1), array(&["a", "b"]));
    assert_eq!(lrange(&db, "l", 2, 4), array(&["c", "d", "e"]));
    assert_eq!(lrange(&db, "l", -2, -1), array(&["d", "e"]));
    assert_eq!(lrange(&db, "l", 0, -3), array(&["a", "b", "c"]));
    assert_eq!(lrange(&db, "l", 3, 100), array(&["d", "e"]));
    assert_eq!(lrange(&db, "l", -100, 0), array(&["a"]));
    assert_eq!(lrange(&db, "l", -100, -100), array(&["a"]));
    assert_eq!(lrange(&db, "l", 3, 1), array(&[]));
    assert_eq!(lrange(&db, "l", 5, 9), array(&[]));
    assert_eq!(lrange(&db, "l", i64::MIN, i64::MAX), array(&["a", "b", "c", "d", "e"]));
    assert_eq!(lrange(&db, "nothing", 0, -1), array(&[]));
}

#[test]
fn ranges_of_other_kinds() {
    let mut db = Db::new();
    reply(&mut db, &["SET", "s", "v"]);
    assert_eq!(reply(&mut db, &["LRANGE", "s", "0", "1"]), Value::Error(WRONG_TYPE.to_string()));
    assert!(outcome(&mut db, &["LRANGE", "s", "0"]).is_none());
    assert!(outcome(&mut db, &["LRANGE", "s", "zero", "1"]).is_none());
}

#[test]
fn lengths_of_other_keys_are_zero() {
    let mut db = Db::new();
    reply(&mut db, &["SET", "s", "v"]);
    assert_eq!(llen(&db, "s"), Value::Integer(0));
    assert_eq!(llen(&db, "nothing"), Value::Integer(0));
}

#[test]
fn lpop_takes_from_the_front() {
    let mut db = Db::new();
    rpush(&mut db, "l".to_string(), owned(&["a", "b", "c", "d"]));
    assert_eq!(reply(&mut db, &["LPOP", "l"]), bulk("a"));
    assert_eq!(reply(&mut db, &["LPOP", "l", "2"]), array(&["b", "c"]));
    assert_eq!(reply(&mut db, &["LPOP", "l", "0"]), array(&[]));
    assert_eq!(reply(&mut db, &["LPOP", "l", "9"]), array(&["d"]));
    assert_eq!(reply(&mut db, &["LPOP", "l"]), Value::NullBulkString);
    assert_eq!(reply(&mut db, &["LPOP", "l", "1"]), array(&[]));
    assert_eq!(reply(&mut db, &["TYPE", "l"]), Value::SimpleString("list".to_string()));
}

#[test]
fn lpop_of_other_keys_is_nothing() {
    let mut db = Db::new();
    reply(&mut db, &["SET", "s", "v"]);
    assert_eq!(lpop(&mut db, "s", None), Value::NullBulkString);
    assert_eq!(lpop(&mut db, "s", Some(2)), Value::NullBulkString);
    assert_eq!(lpop(&mut db, "nothing", Some(1)), Value::NullBulkString);
    assert!(outcome(&mut db, &["LPOP", "s", "-1"]).is_none());
    assert!(outcome(&mut db, &["LPOP", "s", "x"]).is_none());
}

#[test]
fn pop_undoes_a_push_to_the_front() {
    let mut db = Db::new();
    rpush(&mut db, "l".to_string(), owned(&["a", "b"]));
    lpush(&mut db, "l".to_string(), owned(&["x"]));
    assert_eq!(lpop(&mut db, "l", None), bulk("x"));
    assert_eq!(lrange(&db, "l", 0, -1), array(&["a", "b"]));
}

#[test]
fn blpop_asks_for_looks() {
    let mut db = Db::new();
    match outcome(&mut db, &["BLPOP", "a", "b", "0.5"]) {
        Some(Outcome::PopFromLists { keys, timeout }) => {
            assert_eq!(keys, owned(&["a", "b"]));
            assert_eq!(timeout, "0.5");
        }
        other => panic!("no looks: {:?}", other),
    }
    assert!(outcome(&mut db, &["BLPOP"]).is_none());
}

#[test]
fn a_look_takes_from_the_first_key_with_an_item() {
    let mut db = Db::new();
    let keys = owned(&["s", "empty", "b", "c"]);
    reply(&mut db, &["SET", "s", "v"]);
    reply(&mut db, &["RPUSH", "empty"]);
    assert!(pop_first(&mut db, &keys).is_none());
    reply(&mut db, &["RPUSH", "c", "3"]);
    reply(&mut db, &["RPUSH", "b", "1", "2"]);
    assert_eq!(pop_first(&mut db, &keys), Some(array(&["b", "1"])));
    assert_eq!(pop_first(&mut db, &keys), Some(array(&["b", "2"])));
    assert_eq!(pop_first(&mut db, &keys), Some(array(&["c", "3"])));
    assert_eq!(pop_first(&mut db, &keys), None);
    assert_eq!(pop_first(&mut db, &vec![]), None);
}

#[test]
fn what_follows_a_look_at_lists() {
    assert!(matches!(after_pop(Some(bulk("x")), true), Step::Reply(v) if v == bulk("x")));
    assert!(matches!(after_pop(None, true), Step::Reply(Value::NullArray)));
    assert!(matches!(after_pop(None, false), Step::Pause(POP_PAUSE_MS)));
    assert_eq!(POP_PAUSE_MS, 50);
}
