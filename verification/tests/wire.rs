use miniredis::decode::{decode, Decoded};
use miniredis::resp::{read_until_crlf, Value};

fn bulk(s: &str) -> Value {
    Value::BulkString(s.to_string())
}

fn complete(bytes: &[u8]) -> (Value, usize) {
    match decode(bytes) {
        Decoded::Complete(v, n) => (v, n),
        other => panic!("not complete: {:?}", other),
    }
}

#[test]
fn simple_string_is_one_line() {
    assert_eq!(Value::SimpleString("OK".to_string()).serialize(), "+OK\r\n");
    assert_eq!(Value::SimpleString(String::new()).serialize(), "+\r\n");
}

#[test]
fn bulk_string_states_its_length() {
    assert_eq!(bulk("hello").serialize(), "$5\r\nhello\r\n");
    assert_eq!(bulk("").serialize(), "$0\r\n\r\n");
    assert_eq!(bulk("abcdefghijkl").serialize(), "$12\r\nabcdefghijkl\r\n");
}

#[test]
fn bulk_string_length_counts_characters() {
    assert_eq!(bulk("h\u{e9}llo").serialize(), "$5\r\nh\u{e9}llo\r\n");
}

#[test]
fn answers_on_the_wire() {
    assert_eq!(bulk("a").encode(), "$1\r\na\r\n");
    assert_eq!(Value::SimpleString("PONG".to_string()).encode(), "+PONG\r\n");
    assert_eq!(Value::Error("ERR unknown command".to_string()).encode(), "-ERR unknown command\r\n");
    assert_eq!(Value::Integer(0).encode(), ":0\r\n");
    assert_eq!(Value::Integer(-42).encode(), ":-42\r\n");
    assert_eq!(Value::Integer(i64::MIN).encode(), ":-9223372036854775808\r\n");
    assert_eq!(Value::Integer(i64::MAX).encode(), ":9223372036854775807\r\n");
    assert_eq!(Value::NullBulkString.encode(), "$-1\r\n");
    assert_eq!(Value::NullArray.encode(), "*-1\r\n");
    assert_eq!(Value::NoReply.encode(), "");
    assert_eq!(Value::Array(vec![]).encode(), "*0\r\n");
    assert_eq!(
        Value::Array(vec![bulk("k"), Value::Array(vec![Value::Integer(7), bulk("v")])]).encode(),
        "*2\r\n$1\r\nk\r\n*2\r\n:7\r\n$1\r\nv\r\n"
    );
}

#[test]
fn a_clone_is_equal() {
    let v = Value::Array(vec![
        bulk("k"),
        Value::SimpleString("s".to_string()),
        Value::Error("e".to_string()),
        Value::Integer(3),
        Value::NullBulkString,
        Value::NullArray,
        Value::NoReply,
        Value::Array(vec![]),
    ]);
    assert_eq!(v.clone(), v);
}

#[test]
fn first_line_of_a_buffer() {
    assert_eq!(read_until_crlf(b"PING\r\nrest"), Some((&b"PING"[..], 6)));
    assert_eq!(read_until_crlf(b"\r\n"), Some((&b""[..], 2)));
    assert_eq!(read_until_crlf(b"a\r\r\n"), Some((&b"a\r"[..], 4)));
    assert_eq!(read_until_crlf(b"a\nb\r"), None);
    assert_eq!(read_until_crlf(b"\r"), None);
    assert_eq!(read_until_crlf(b""), None);
}

#[test]
fn a_command_is_read() {
    let wire = b"*2\r\n$4\r\nECHO\r\n$3\r\nhey\r\n";
    assert_eq!(complete(wire), (Value::Array(vec![bulk("ECHO"), bulk("hey")]), wire.len()));
}

#[test]
fn what_follows_a_value_is_left() {
    let (v, n) = complete(b"+PONG\r\n+NEXT\r\n");
    assert_eq!(v, Value::SimpleString("PONG".to_string()));
    assert_eq!(n, 7);
}

#[test]
fn bulk_strings_are_read_by_their_bytes() {
    let text = "h\u{e9}\r\nx";
    let wire = format!("${}\r\n{}\r\n", text.len(), text);
    assert_eq!(complete(wire.as_bytes()), (bulk(text), wire.len()));
    assert_eq!(complete(b"$0\r\n\r\n"), (bulk(""), 6));
    assert_eq!(complete(b"*0\r\n"), (Value::Array(vec![]), 4));
    assert_eq!(
        complete(b"*1\r\n*1\r\n+a\r\n").0,
        Value::Array(vec![Value::Array(vec![Value::SimpleString("a".to_string())])])
    );
}

#[test]
fn the_start_of_a_value_is_incomplete() {
    let wire = b"*2\r\n$4\r\nECHO\r\n$3\r\nhey\r\n";
    for n in 0..wire.len() {
        assert!(matches!(decode(&wire[..n]), Decoded::Incomplete));
    }
}

#[test]
fn more_bytes_change_nothing() {
    let wire = b"$3\r\nhey\r\n";
    let longer = b"$3\r\nhey\r\n*1\r\n!";
    assert_eq!(complete(wire), complete(longer));
    assert!(matches!(decode(b"!"), Decoded::Malformed));
    assert!(matches!(decode(b"!+OK\r\n"), Decoded::Malformed));
}

#[test]
fn malformed_bytes_are_told() {
    assert!(matches!(decode(b":1\r\n"), Decoded::Malformed));
    assert!(matches!(decode(b"$x\r\nabc\r\n"), Decoded::Malformed));
    assert!(matches!(decode(b"$-1\r\n"), Decoded::Malformed));
    assert!(matches!(decode(b"*one\r\n"), Decoded::Malformed));
    assert!(matches!(decode(b"$3\r\nabcd\r\n"), Decoded::Malformed));
    assert!(matches!(decode(b"*1\r\n:1\r\n"), Decoded::Malformed));
}

#[test]
fn bytes_that_are_no_text_are_malformed() {
    assert!(matches!(decode(b"+\xff\r\n"), Decoded::Malformed));
    assert!(matches!(decode(b"$1\r\n\xff\r\n"), Decoded::Malformed));
    assert!(matches!(decode(b"$\xff\r\n"), Decoded::Malformed));
}

#[test]
fn a_size_beyond_memory_is_incomplete() {
    assert!(matches!(decode(b"$18446744073709551615\r\nabc\r\n"), Decoded::Incomplete));
    assert!(matches!(decode(b"$18446744073709551616\r\nabc\r\n"), Decoded::Malformed));
}

#[test]
fn written_values_read_back() {
    let v = Value::Array(vec![
        bulk("SET"),
        Value::SimpleString("a\rb\n".to_string()),
        Value::Array(vec![bulk(""), bulk("line\r\nbreak")]),
    ]);
    let wire = v.encode();
    assert_eq!(complete(wire.as_bytes()), (v, wire.len()));
}
