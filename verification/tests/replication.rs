use miniredis::decode::{decode, Decoded};
use miniredis::execute::{try_execute_command, Env, Outcome};
use miniredis::replication::{
    frame_rdb, full_resync, info, replconf, wait, EMPTY_RDB_HEX, GET_ACK, MASTER_REPLID,
};
use miniredis::resp::Value;
use miniredis::session::read_command;
use miniredis::startup::{handshake, parse_options, read_rdb_size, split_words};
use miniredis::store::Db;
use miniredis::strings::write_set_message;

fn bulk(s: &str) -> Value {
    Value::BulkString(s.to_string())
}

fn array(words: &[&str]) -> Value {
    Value::Array(words.iter().map(|w| bulk(w)).collect())
}

fn env(connected_replicas: usize, offset: usize) -> Env {
    Env { now: 0, unix_ms: 0, is_replica: true, connected_replicas, offset }
}

fn outcome(words: &[&str], e: Env) -> Option<Outcome> {
    let mut db = Db::new();
    let args = words[1..].iter().map(|w| bulk(w)).collect();
    try_execute_command(words[0], args, &mut db, e)
}

fn reply(words: &[&str], e: Env) -> Value {
    match outcome(words, e) {
        Some(Outcome::Reply(v)) => v,
        other => panic!("no answer: {:?}", other),
    }
}

fn read(wire: &[u8]) -> Value {
    match decode(wire) {
        Decoded::Complete(v, n) => {
            assert_eq!(n, wire.len());
            v
        }
        other => panic!("not complete: {:?}", other),
    }
}

#[test]
fn info_tells_role_and_offset() {
    assert_eq!(
        info(false, 0),
        bulk("# Replication\r\nrole:master\r\nmaster_replid:8371b4fb1155b71f4a04d3e1bc3e18c4a990aeeb\r\nmaster_repl_offset:0\r\n")
    );
    assert_eq!(
        reply(&["INFO", "replication"], env(0, 31)),
        bulk("# Replication\r\nrole:slave\r\nmaster_replid:8371b4fb1155b71f4a04d3e1bc3e18c4a990aeeb\r\nmaster_repl_offset:31\r\n")
    );
}

#[test]
fn replconf_acknowledges() {
    assert_eq!(replconf(true, 0), array(&["REPLCONF", "ACK", "0"]));
    assert_eq!(reply(&["REPLCONF", "GETACK", "*"], env(0, 146)), array(&["REPLCONF", "ACK", "146"]));
    let ok = Value::SimpleString("OK".to_string());
    assert_eq!(reply(&["REPLCONF", "listening-port", "6380"], env(0, 1)), ok);
    assert_eq!(reply(&["REPLCONF", "capa", "psync2"], env(0, 1)), ok);
    assert_eq!(reply(&["REPLCONF"], env(0, 1)), ok);
    assert_eq!(reply(&["REPLCONF", "getac\u{212a}"], env(0, 7)), array(&["REPLCONF", "ACK", "7"]));
}

#[test]
fn psync_sends_a_full_copy() {
    let payload = match outcome(&["PSYNC", "?", "-1"], env(0, 12)) {
        Some(Outcome::Resync { payload }) => payload,
        other => panic!("no copy: {:?}", other),
    };
    assert_eq!(payload, full_resync(12));
    let rdb = hex::decode(EMPTY_RDB_HEX).unwrap();
    let mut expected = format!("+FULLRESYNC {MASTER_REPLID} 12\r\n${}\r\n", rdb.len()).into_bytes();
    expected.extend_from_slice(&rdb);
    assert_eq!(payload, expected);
    assert_eq!(rdb.len(), EMPTY_RDB_HEX.len() / 2);
    assert!(payload.ends_with(&[0x0c, 0x92, 0x02, 0xd7]));
    assert_eq!(&rdb[..9], b"REDIS0011");
}

#[test]
fn a_database_file_is_framed() {
    assert_eq!(
        frame_rdb(0, &vec![1, 2, 255]),
        b"+FULLRESYNC 8371b4fb1155b71f4a04d3e1bc3e18c4a990aeeb 0\r\n$3\r\n\x01\x02\xff".to_vec()
    );
}

#[test]
fn a_full_copy_is_read_as_it_was_sent() {
    let payload = frame_rdb(7, &vec![9; 250]);
    let text: Vec<&[u8]> = payload.splitn(3, |b| *b == b'\n').collect();
    let line = format!("{}\n", std::str::from_utf8(text[1]).unwrap());
    assert_eq!(read_rdb_size(&line), Some(250));
    assert_eq!(text[2], &[9; 250][..]);
}

#[test]
fn wait_counts_replicas() {
    assert_eq!(wait(0, 3, 9), (Value::Integer(0), false));
    assert_eq!(wait(2, 0, 9), (Value::Integer(0), false));
    assert_eq!(wait(2, 3, 0), (Value::Integer(3), false));
    assert_eq!(wait(2, 3, 9), (Value::Integer(3), true));
    assert_eq!(reply(&["WAIT", "1", "500"], env(4, 0)), Value::Integer(4));
    assert_eq!(reply(&["WAIT", "0", "500"], env(4, 5)), Value::Integer(0));
}

#[test]
fn wait_asks_the_replicas() {
    match outcome(&["WAIT", "1", "500"], env(2, 5)) {
        Some(Outcome::Broadcast { message, reply }) => {
            assert_eq!(message, GET_ACK);
            assert_eq!(reply, Value::Integer(2));
        }
        other => panic!("no question: {:?}", other),
    }
}

#[test]
fn arguments_of_wait() {
    let number = Value::Error("ERR value is not an integer or out of range".to_string());
    let count = Value::Error("ERR wrong number of arguments for 'wait' command".to_string());
    assert_eq!(reply(&["WAIT"], env(1, 1)), count);
    assert_eq!(reply(&["WAIT", "1"], env(1, 1)), count);
    assert_eq!(reply(&["WAIT", "x"], env(1, 1)), number);
    assert_eq!(reply(&["WAIT", "1", "-5"], env(1, 1)), number);
    let mut db = Db::new();
    let args = vec![Value::Integer(1), bulk("5")];
    match try_execute_command("wait", args, &mut db, env(1, 1)) {
        Some(Outcome::Reply(v)) => assert_eq!(v, count),
        other => panic!("no answer: {:?}", other),
    }
}

#[test]
fn the_question_is_understood() {
    let command = read_command(read(GET_ACK.as_bytes())).unwrap();
    assert!(command.get_ack);
    assert_eq!(command.name, "replconf");
    assert_eq!(command.args, vec![bulk("GETACK"), bulk("*")]);
}

#[test]
fn a_replica_follows_its_master() {
    let message = write_set_message("cl\u{e9}", "val\r\nue \u{1f600}");
    let command = read_command(read(message.as_bytes())).unwrap();
    assert_eq!(command.value, array(&["SET", "cl\u{e9}", "val\r\nue \u{1f600}"]));
    let mut db = Db::new();
    assert!(try_execute_command(&command.name, command.args, &mut db, env(0, 0)).is_some());
    let args = vec![bulk("cl\u{e9}")];
    match try_execute_command("get", args, &mut db, env(0, 0)) {
        Some(Outcome::Reply(v)) => assert_eq!(v, bulk("val\r\nue \u{1f600}")),
        other => panic!("no answer: {:?}", other),
    }
}

#[test]
fn the_handshake_reads_back() {
    let messages = handshake("6380");
    assert_eq!(messages.len(), 4);
    assert_eq!(read(messages[0].as_bytes()), array(&["PING"]));
    assert_eq!(read(messages[1].as_bytes()), array(&["REPLCONF", "listening-port", "6380"]));
    assert_eq!(read(messages[2].as_bytes()), array(&["REPLCONF", "capa", "psync2"]));
    assert_eq!(read(messages[3].as_bytes()), array(&["PSYNC", "?", "-1"]));
    assert_eq!(messages[1], "*3\r\n$8\r\nREPLCONF\r\n$14\r\nlistening-port\r\n$4\r\n6380\r\n");
    assert_eq!(messages[3], "*3\r\n$5\r\nPSYNC\r\n$1\r\n?\r\n$2\r\n-1\r\n");
}

#[test]
fn sizes_that_a_master_announces() {
    assert_eq!(read_rdb_size("$88\r\n"), Some(88));
    assert_eq!(read_rdb_size("$$88"), Some(88));
    assert_eq!(read_rdb_size("$ 88 \n"), Some(88));
    assert_eq!(read_rdb_size("88\r\n"), None);
    assert_eq!(read_rdb_size("$\r\n"), None);
    assert_eq!(read_rdb_size("$-1\r\n"), None);
    assert_eq!(read_rdb_size(""), None);
}

fn owned(words: &[&str]) -> Vec<String> {
    words.iter().map(|w| w.to_string()).collect()
}

#[test]
fn options_have_defaults() {
    let o = parse_options(&owned(&["server"]));
    assert_eq!((o.port.as_str(), o.is_replica, o.master), ("6379", false, None));
    let o = parse_options(&owned(&[]));
    assert_eq!(o.port, "6379");
}

#[test]
fn options_are_read() {
    let o = parse_options(&owned(&["server", "--port", "6380", "--replicaof", "localhost 6379"]));
    assert_eq!(o.port, "6380");
    assert!(o.is_replica);
    assert_eq!(o.master, Some(("localhost".to_string(), "6379".to_string())));
    let o = parse_options(&owned(&["--port", "1", "x", "--port", "2", "--port", "3"]));
    assert_eq!(o.port, "3");
}

#[test]
fn options_that_do_not_count() {
    let o = parse_options(&owned(&["server", "--verbose", "--port"]));
    assert_eq!(o.port, "6379");
    let o = parse_options(&owned(&["server", "--replicaof", "localhost"]));
    assert!(o.is_replica);
    assert_eq!(o.master, None);
    let o = parse_options(&owned(&["server", "--replicaof", "a 1", "--replicaof", "b"]));
    assert_eq!(o.master, Some(("a".to_string(), "1".to_string())));
    let o = parse_options(&owned(&["server", "--port", "--replicaof", "a 1"]));
    assert_eq!((o.port.as_str(), o.is_replica), ("--replicaof", false));
}

#[test]
fn words_of_a_text() {
    assert_eq!(split_words("  a\tb\u{2003}c\n"), owned(&["a", "b", "c"]));
    assert_eq!(split_words("localhost 6379"), owned(&["localhost", "6379"]));
    assert!(split_words(" \r\n").is_empty());
    assert!(split_words("").is_empty());
}
