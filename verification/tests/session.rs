use miniredis::execute::{try_execute_command, Env, Outcome};
use miniredis::request::{
    bulk_at, bulk_strings, extract_command, unpack_bulk_str, CommandError,
};
use miniredis::resp::Value;
use miniredis::session::{
    read_command, settle, Action, Batch, BatchStep, Received, Session, BAD_PROTOCOL,
};
use miniredis::store::Db;

fn bulk(s: &str) -> Value {
    Value::BulkString(s.to_string())
}

fn array(words: &[&str]) -> Value {
    Value::Array(words.iter().map(|w| bulk(w)).collect())
}

fn line(s: &str) -> Value {
    Value::SimpleString(s.to_string())
}

fn error(s: &str) -> Value {
    Value::Error(s.to_string())
}

fn send(session: &mut Session, db: &Db, words: &[&str]) -> Action {
    session.step(read_command(array(words)).unwrap(), db)
}

fn answer(session: &mut Session, db: &Db, words: &[&str]) -> Value {
    match send(session, db, words) {
        Action::Reply(v) => v,
        other => panic!("no answer: {:?}", other),
    }
}

fn execute(db: &mut Db, words: &[&str]) -> Value {
    execute_at(db, 0, words)
}

fn execute_at(db: &mut Db, now: u64, words: &[&str]) -> Value {
    let env = Env { now, unix_ms: 0, is_replica: false, connected_replicas: 0, offset: 0 };
    let args = words[1..].iter().map(|w| bulk(w)).collect();
    match try_execute_command(words[0], args, db, env) {
        Some(Outcome::Reply(v)) => v,
        Some(Outcome::Broadcast { message: _, reply }) => reply,
        other => panic!("no answer: {:?}", other),
    }
}

#[test]
fn bulk_strings_are_unpacked() {
    assert_eq!(unpack_bulk_str(bulk("x")), Ok("x".to_string()));
    assert_eq!(unpack_bulk_str(line("x")), Err(CommandError::ExpectedBulkString));
    assert_eq!(unpack_bulk_str(Value::NullBulkString), Err(CommandError::ExpectedBulkString));
    let args = vec![bulk("a"), Value::Integer(1), bulk("b")];
    assert_eq!(bulk_at(&args, 0), Some("a"));
    assert_eq!(bulk_at(&args, 1), None);
    assert_eq!(bulk_at(&args, 3), None);
    assert_eq!(bulk_strings(&args, 0), vec!["a".to_string(), "b".to_string()]);
    assert_eq!(bulk_strings(&args, 1), vec!["b".to_string()]);
}

#[test]
fn commands_are_extracted() {
    assert_eq!(
        extract_command(array(&["SeT", "K", "V"])),
        Ok(("set".to_string(), vec![bulk("K"), bulk("V")]))
    );
    assert_eq!(extract_command(array(&["\u{212a}EY"])), Ok(("key".to_string(), vec![])));
    assert_eq!(extract_command(array(&["\u{c9}"])), Ok(("\u{e9}".to_string(), vec![])));
    assert_eq!(extract_command(line("PING")), Err(CommandError::UnexpectedFormat));
    assert_eq!(
        extract_command(Value::Array(vec![line("PING")])),
        Err(CommandError::ExpectedBulkString)
    );
}

#[test]
fn a_command_taken_apart_and_built_again_is_the_same() {
    let (name, args) = extract_command(array(&["LRange", "K", "0", "-1"])).unwrap();
    let mut items = vec![bulk(&name)];
    items.extend(args.iter().cloned());
    assert_eq!(extract_command(Value::Array(items)), Ok((name.clone(), args)));
    assert_eq!(name, "lrange");
    let (name, args) = extract_command(array(&["Bloc\u{212a}", "1"])).unwrap();
    assert_eq!(name, "block");
    assert_eq!(extract_command(array(&["block", "1"])), Ok((name, args)));
}

#[test]
fn a_value_that_is_no_command_is_refused() {
    let db = Db::new();
    let mut s = Session::new();
    answer(&mut s, &db, &["MULTI"]);
    answer(&mut s, &db, &["GET", "k"]);
    for value in [line("PING"), bulk("PING"), Value::Integer(1), Value::Array(vec![line("PING")])] {
        match s.receive(value, &db) {
            Received::Refused(v) => assert_eq!(v, error("ERR bad protocol")),
            other => panic!("not refused: {:?}", other),
        }
    }
    match s.receive(array(&["EXEC"]), &db) {
        Received::Accepted { action: Action::ExecuteAll(queue), get_ack } => {
            assert_eq!(queue, vec![array(&["GET", "k"])]);
            assert!(!get_ack);
        }
        other => panic!("not executed: {:?}", other),
    }
}

#[test]
fn commands_are_received() {
    let db = Db::new();
    let mut s = Session::new();
    match s.receive(array(&["Replconf", "GETACK", "*"]), &db) {
        Received::Accepted { action: Action::Execute { name, args }, get_ack } => {
            assert_eq!(name, "replconf");
            assert_eq!(args, vec![bulk("GETACK"), bulk("*")]);
            assert!(get_ack);
        }
        other => panic!("not executed: {:?}", other),
    }
}

#[test]
fn each_value_of_a_client_gets_one_answer() {
    let mut db = Db::new();
    let mut s = Session::new();
    let values = vec![
        array(&["SET", "k", "v"]),
        line("PING"),
        array(&["GET", "k"]),
        array(&["NOPE"]),
        array(&["MULTI"]),
        array(&["GET", "k"]),
    ];
    let mut sent = Vec::new();
    for value in values {
        let reply = match s.receive(value, &db) {
            Received::Refused(v) => v,
            Received::Accepted { action: Action::Reply(v), get_ack: _ } => v,
            Received::Accepted { action: Action::Execute { name, args }, get_ack: _ } => {
                let mut words = vec![name.as_str()];
                words.extend((0..args.len()).map(|i| bulk_at(&args, i).unwrap()));
                execute(&mut db, &words)
            }
            other => panic!("not expected: {:?}", other),
        };
        assert_eq!(settle(&reply, false, false, 3, 9), (true, 3));
        sent.push(reply);
    }
    assert_eq!(
        sent,
        vec![
            line("OK"),
            error("ERR bad protocol"),
            bulk("v"),
            error("ERR unknown command"),
            line("OK"),
            line("QUEUED"),
        ]
    );
}

#[test]
fn errors_in_words() {
    assert_eq!(CommandError::UnexpectedFormat.message(), "Unexpected command format");
    assert_eq!(CommandError::ExpectedBulkString.message(), "Expected command to be a bulk string");
    assert_eq!(BAD_PROTOCOL, "ERR bad protocol");
}

#[test]
fn commands_are_read() {
    let c = read_command(array(&[" PinG\r\n", "x"])).unwrap();
    assert_eq!(c.name, "ping");
    assert_eq!(c.args, vec![bulk("x")]);
    assert_eq!(c.value, array(&[" PinG\r\n", "x"]));
    assert!(!c.get_ack);
    assert!(read_command(line("PING")).is_none());
    assert!(read_command(Value::Array(vec![Value::Integer(1)])).is_none());
    assert!(read_command(array(&["replconf", "GetAck"])).unwrap().get_ack);
    assert!(!read_command(array(&["replconf", "capa"])).unwrap().get_ack);
    assert!(!read_command(array(&["replconf"])).unwrap().get_ack);
    assert!(!read_command(array(&["ping", "getack"])).unwrap().get_ack);
    let odd = Value::Array(vec![bulk("replconf"), line("getack")]);
    assert!(!read_command(odd).unwrap().get_ack);
}

#[test]
fn outside_a_transaction_commands_are_executed() {
    let db = Db::new();
    let mut s = Session::new();
    match send(&mut s, &db, &["GET", "k"]) {
        Action::Execute { name, args } => {
            assert_eq!(name, "get");
            assert_eq!(args, vec![bulk("k")]);
        }
        other => panic!("not executed: {:?}", other),
    }
}

#[test]
fn a_transaction_keeps_its_commands() {
    let db = Db::new();
    let mut s = Session::new();
    assert_eq!(answer(&mut s, &db, &["MULTI"]), line("OK"));
    assert_eq!(answer(&mut s, &db, &["SET", "k", "1"]), line("QUEUED"));
    assert_eq!(answer(&mut s, &db, &["MULTI"]), line("QUEUED"));
    assert_eq!(answer(&mut s, &db, &["UNWATCH"]), line("QUEUED"));
    assert_eq!(
        answer(&mut s, &db, &["WATCH", "k"]),
        error("ERR WATCH inside MULTI is not allowed")
    );
    match send(&mut s, &db, &["EXEC"]) {
        Action::ExecuteAll(queue) => assert_eq!(
            queue,
            vec![array(&["SET", "k", "1"]), array(&["MULTI"]), array(&["UNWATCH"])]
        ),
        other => panic!("not executed: {:?}", other),
    }
    assert_eq!(answer(&mut s, &db, &["EXEC"]), error("ERR EXEC without MULTI"));
}

#[test]
fn an_empty_transaction_answers_with_nothing() {
    let db = Db::new();
    let mut s = Session::new();
    answer(&mut s, &db, &["MULTI"]);
    match send(&mut s, &db, &["EXEC"]) {
        Action::ExecuteAll(queue) => {
            assert!(queue.is_empty());
            match Batch::new(queue).step(None) {
                BatchStep::Reply(v) => assert_eq!(v, array(&[])),
                other => panic!("no answer: {:?}", other),
            }
        }
        other => panic!("not executed: {:?}", other),
    }
}

#[test]
fn discard_forgets() {
    let db = Db::new();
    let mut s = Session::new();
    assert_eq!(answer(&mut s, &db, &["DISCARD"]), error("ERR DISCARD without MULTI"));
    assert_eq!(answer(&mut s, &db, &["EXEC"]), error("ERR EXEC without MULTI"));
    answer(&mut s, &db, &["MULTI"]);
    answer(&mut s, &db, &["SET", "k", "1"]);
    assert_eq!(answer(&mut s, &db, &["DISCARD"]), line("OK"));
    assert_eq!(answer(&mut s, &db, &["EXEC"]), error("ERR EXEC without MULTI"));
    answer(&mut s, &db, &["MULTI"]);
    assert!(matches!(send(&mut s, &db, &["EXEC"]), Action::ExecuteAll(q) if q.is_empty()));
}

#[test]
fn a_batch_answers_in_order() {
    let mut batch = Batch::new(vec![array(&["SET", "k", "1"]), array(&["InCr", "k"])]);
    match batch.step(None) {
        BatchStep::Run { name, args } => {
            assert_eq!(name, "set");
            assert_eq!(args, vec![bulk("k"), bulk("1")]);
        }
        other => panic!("not run: {:?}", other),
    }
    assert!(matches!(batch.step(Some(line("OK"))), BatchStep::Run { name, .. } if name == "incr"));
    match batch.step(Some(Value::Integer(2))) {
        BatchStep::Reply(v) => assert_eq!(v, Value::Array(vec![line("OK"), Value::Integer(2)])),
        other => panic!("no answer: {:?}", other),
    }
}

#[test]
fn a_transaction_as_a_whole() {
    let mut db = Db::new();
    let mut s = Session::new();
    answer(&mut s, &db, &["MULTI"]);
    answer(&mut s, &db, &["SET", "k", "41"]);
    answer(&mut s, &db, &["INCR", "k"]);
    answer(&mut s, &db, &["RPUSH", "l", "a", "b"]);
    answer(&mut s, &db, &["GET", "l"]);
    answer(&mut s, &db, &["LPOP", "l"]);
    let mut batch = match send(&mut s, &db, &["EXEC"]) {
        Action::ExecuteAll(queue) => Batch::new(queue),
        other => panic!("not executed: {:?}", other),
    };
    let mut last = None;
    let reply = loop {
        match batch.step(last) {
            BatchStep::Run { name, args } => {
                let mut words = vec![name.as_str()];
                words.extend((0..args.len()).map(|i| bulk_at(&args, i).unwrap()));
                last = Some(execute(&mut db, &words));
            }
            BatchStep::Reply(v) => break v,
        }
    };
    assert_eq!(
        reply,
        Value::Array(vec![
            line("OK"),
            Value::Integer(42),
            Value::Integer(2),
            error("WRONGTYPE Operation against a key holding the wrong kind of value"),
            bulk("a"),
        ])
    );
    assert_eq!(execute(&mut db, &["GET", "k"]), bulk("42"));
    assert_eq!(execute(&mut db, &["LRANGE", "l", "0", "-1"]), array(&["b"]));
}

#[test]
fn a_set_of_a_watched_key_stops_exec() {
    let mut db = Db::new();
    let mut s = Session::new();
    execute(&mut db, &["SET", "k", "1"]);
    assert_eq!(answer(&mut s, &db, &["WATCH", "k", "other"]), line("OK"));
    answer(&mut s, &db, &["MULTI"]);
    answer(&mut s, &db, &["GET", "k"]);
    execute(&mut db, &["SET", "k", "1"]);
    assert_eq!(answer(&mut s, &db, &["EXEC"]), Value::NullArray);
    answer(&mut s, &db, &["MULTI"]);
    assert!(matches!(send(&mut s, &db, &["EXEC"]), Action::ExecuteAll(_)));
}

#[test]
fn a_made_key_stops_exec() {
    for words in [["RPUSH", "k", "a"], ["SET", "k", "a"], ["XADD", "k", "1-1"]] {
        let mut db = Db::new();
        let mut s = Session::new();
        answer(&mut s, &db, &["WATCH", "k"]);
        answer(&mut s, &db, &["MULTI"]);
        execute(&mut db, &words);
        assert_eq!(answer(&mut s, &db, &["EXEC"]), Value::NullArray);
    }
}

#[test]
fn writes_that_keep_the_version_let_exec_run() {
    let mut db = Db::new();
    let mut s = Session::new();
    execute(&mut db, &["RPUSH", "l", "a"]);
    answer(&mut s, &db, &["WATCH", "l", "n", "m"]);
    answer(&mut s, &db, &["MULTI"]);
    execute(&mut db, &["RPUSH", "l", "b"]);
    execute(&mut db, &["INCR", "n"]);
    execute(&mut db, &["LPUSH", "m", "a"]);
    assert!(matches!(send(&mut s, &db, &["EXEC"]), Action::ExecuteAll(_)));
}

#[test]
fn a_watched_key_that_is_swept_stops_exec() {
    let mut db = Db::new();
    let mut s = Session::new();
    execute(&mut db, &["SET", "k", "1", "px", "1"]);
    answer(&mut s, &db, &["WATCH", "k"]);
    answer(&mut s, &db, &["MULTI"]);
    assert_eq!(execute_at(&mut db, 1_000_001, &["GET", "k"]), Value::NullBulkString);
    assert_eq!(answer(&mut s, &db, &["EXEC"]), Value::NullArray);
}

#[test]
fn unchanged_keys_let_exec_run() {
    let mut db = Db::new();
    let mut s = Session::new();
    execute(&mut db, &["SET", "k", "1"]);
    answer(&mut s, &db, &["WATCH", "k", "nothing"]);
    execute(&mut db, &["SET", "other", "1"]);
    answer(&mut s, &db, &["MULTI"]);
    answer(&mut s, &db, &["GET", "k"]);
    assert!(matches!(send(&mut s, &db, &["EXEC"]), Action::ExecuteAll(q) if q.len() == 1));
}

#[test]
fn unwatch_and_discard_forget_the_watched_keys() {
    let mut db = Db::new();
    let mut s = Session::new();
    answer(&mut s, &db, &["WATCH", "k"]);
    assert_eq!(answer(&mut s, &db, &["UNWATCH"]), line("OK"));
    execute(&mut db, &["SET", "k", "1"]);
    answer(&mut s, &db, &["MULTI"]);
    assert!(matches!(send(&mut s, &db, &["EXEC"]), Action::ExecuteAll(_)));
    answer(&mut s, &db, &["WATCH", "k"]);
    answer(&mut s, &db, &["MULTI"]);
    answer(&mut s, &db, &["DISCARD"]);
    execute(&mut db, &["SET", "k", "2"]);
    answer(&mut s, &db, &["MULTI"]);
    assert!(matches!(send(&mut s, &db, &["EXEC"]), Action::ExecuteAll(_)));
}

#[test]
fn a_second_watch_takes_the_new_version() {
    let mut db = Db::new();
    let mut s = Session::new();
    answer(&mut s, &db, &["WATCH", "k"]);
    execute(&mut db, &["SET", "k", "1"]);
    answer(&mut s, &db, &["WATCH", "k"]);
    answer(&mut s, &db, &["MULTI"]);
    assert!(matches!(send(&mut s, &db, &["EXEC"]), Action::ExecuteAll(_)));
}

#[test]
fn clients_are_answered() {
    assert_eq!(settle(&line("OK"), false, false, 5, 30), (true, 5));
    assert_eq!(settle(&Value::NoReply, false, false, 5, 30), (false, 5));
    assert_eq!(settle(&Value::NullArray, false, true, 5, 30), (true, 5));
}

#[test]
fn a_master_is_answered_only_how_far() {
    assert_eq!(settle(&line("OK"), true, false, 5, 30), (false, 35));
    assert_eq!(settle(&array(&["REPLCONF", "ACK", "5"]), true, true, 5, 37), (true, 42));
    assert_eq!(settle(&Value::NoReply, true, true, 5, 37), (false, 42));
}

#[test]
fn the_offset_counts_every_byte_of_a_master() {
    let reads = [31, 37, 14, 0, 29];
    let mut from_master = 5;
    let mut from_client = 5;
    for bytes in reads {
        from_master = settle(&line("OK"), true, false, from_master, bytes).1;
        from_client = settle(&line("OK"), false, false, from_client, bytes).1;
    }
    assert_eq!((from_master, from_client), (116, 5));
}
