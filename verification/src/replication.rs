//! Replication: `INFO`, `REPLCONF`, `PSYNC` and `WAIT`, and the lines that a
//! replica exchanges with its master.

use crate::resp::{lemma_array_view, views, Value, ValueView};
use crate::text::{decimal, decimal_text};
use vstd::prelude::*;
use vstd::string::*;
use vstd::utf8::*;

verus! {

/// The id of the replication history of this server.
pub const MASTER_REPLID: &'static str = "8371b4fb1155b71f4a04d3e1bc3e18c4a990aeeb";

/// A database file without keys, in hexadecimal.
pub const EMPTY_RDB_HEX: &'static str =
    "524544495330303131fa0972656469732d76657205372e322e30fa0a72656469732d62697473c040fa056374696d65c26d08bc65fa08757365642d6d656d12c0101200fa0c616f662d626173656c6f6164696e67c000fe00fb0000ff89506c7e0c9202d7";

/// `hex::FromHexError`: why a text is not hexadecimal.
#[verifier::external_type_specification]
#[verifier::external_body]
pub struct ExFromHexError(hex::FromHexError);

/// Whether a character is a hexadecimal digit.
pub open spec fn is_hex_digit(c: char) -> bool {
    ('0' <= c && c <= '9') || ('a' <= c && c <= 'f') || ('A' <= c && c <= 'F')
}

/// The value of a hexadecimal digit.
pub open spec fn hex_value(c: char) -> int {
    if c <= '9' {
        c as int - '0' as int
    } else if c <= 'F' {
        c as int - 'A' as int + 10
    } else {
        c as int - 'a' as int + 10
    }
}

/// Whether a text is hexadecimal: digits, two for each byte.
pub open spec fn is_hex(s: Seq<char>) -> bool {
    s.len() % 2 == 0 && forall|i: int| 0 <= i < s.len() ==> is_hex_digit(#[trigger] s[i])
}

/// The bytes that a hexadecimal text denotes.
pub open spec fn hex_bytes(s: Seq<char>) -> Seq<u8> {
    Seq::new(
        s.len() / 2,
        |i: int| (hex_value(s[2 * i]) * 16 + hex_value(s[2 * i + 1])) as u8,
    )
}

/// Calls `hex::decode`. It succeeds on hexadecimal texts and on no other, and
/// gives the bytes that the text denotes. Which error it gives is left open.
#[verifier::external_body]
fn hex_decode(s: &str) -> (r: Result<Vec<u8>, hex::FromHexError>)
    ensures
        match r {
            Ok(bytes) => is_hex(s@) && bytes@ == hex_bytes(s@),
            Err(_) => !is_hex(s@),
        },
{
    hex::decode(s)
}

/// The constant is hexadecimal.
proof fn lemma_empty_rdb_is_hex()
    ensures
        is_hex(EMPTY_RDB_HEX@),
{
    reveal_strlit(
        "524544495330303131fa0972656469732d76657205372e322e30fa0a72656469732d62697473c040fa056374696d65c26d08bc65fa08757365642d6d656d12c0101200fa0c616f662d626173656c6f6164696e67c000fe00fb0000ff89506c7e0c9202d7",
    );
}

/// The bytes of a database file without keys.
fn empty_rdb() -> (r: Vec<u8>)
    ensures
        r@ == hex_bytes(EMPTY_RDB_HEX@),
{
    proof {
        lemma_empty_rdb_is_hex();
    }
    match hex_decode(EMPTY_RDB_HEX) {
        Ok(bytes) => bytes,
        Err(_) => Vec::new(),
    }
}

// ---------------------------------------------------------------------------
// INFO and REPLCONF
// ---------------------------------------------------------------------------

/// The text that `INFO` answers with.
pub open spec fn info_text(is_replica: bool, offset: nat) -> Seq<char> {
    "# Replication\r\nrole:"@ + (if is_replica {
        "slave"@
    } else {
        "master"@
    }) + "\r\nmaster_replid:"@ + MASTER_REPLID@ + "\r\nmaster_repl_offset:"@ + decimal(offset)
        + "\r\n"@
}

/// The role and the replication offset of the server.
pub fn info(is_replica: bool, offset: usize) -> (r: Value)
    ensures
        r@ == ValueView::BulkString(info_text(is_replica, offset as nat)),
{
    let mut out = "# Replication\r\nrole:".to_string();
    if is_replica {
        out.append("slave");
    } else {
        out.append("master");
    }
    out.append("\r\nmaster_replid:");
    out.append(MASTER_REPLID);
    out.append("\r\nmaster_repl_offset:");
    out.append(decimal_text(offset as u64).as_str());
    out.append("\r\n");
    Value::BulkString(out)
}

/// The answer to a `REPLCONF`: the offset where an acknowledgement is asked for.
pub open spec fn replconf_reply(get_ack: bool, offset: nat) -> ValueView {
    if get_ack {
        ValueView::Array(
            seq![
                ValueView::BulkString("REPLCONF"@),
                ValueView::BulkString("ACK"@),
                ValueView::BulkString(decimal(offset)),
            ],
        )
    } else {
        ValueView::SimpleString("OK"@)
    }
}

/// Answers a `REPLCONF`.
pub fn replconf(get_ack: bool, offset: usize) -> (r: Value)
    ensures
        r@ == replconf_reply(get_ack, offset as nat),
{
    if get_ack {
        let parts = vec![
            Value::BulkString("REPLCONF".to_string()),
            Value::BulkString("ACK".to_string()),
            Value::BulkString(decimal_text(offset as u64)),
        ];
        proof {
            lemma_array_view(parts);
            assert(views(parts@) =~= replconf_reply(get_ack, offset as nat)->Array_0);
        }
        Value::Array(parts)
    } else {
        Value::SimpleString("OK".to_string())
    }
}

// ---------------------------------------------------------------------------
// PSYNC
// ---------------------------------------------------------------------------

/// The line that announces a full copy and the offset at which it stands.
pub open spec fn full_resync_line(offset: nat) -> Seq<char> {
    "+FULLRESYNC "@ + MASTER_REPLID@ + " "@ + decimal(offset) + "\r\n"@
}

/// The line that announces the size of a database file.
pub open spec fn rdb_line(size: nat) -> Seq<char> {
    "$"@ + decimal(size) + "\r\n"@
}

/// What a replica is sent that asks for a full copy: the announcement, and a
/// database file with its size.
pub open spec fn resync_payload(offset: nat, rdb: Seq<u8>) -> Seq<u8> {
    encode_utf8(full_resync_line(offset)) + encode_utf8(rdb_line(rdb.len())) + rdb
}

/// Frames a database file for a replica.
pub fn frame_rdb(offset: usize, rdb: &Vec<u8>) -> (r: Vec<u8>)
    ensures
        r@ == resync_payload(offset as nat, rdb@),
{
    let mut head = "+FULLRESYNC ".to_string();
    head.append(MASTER_REPLID);
    head.append(" ");
    head.append(decimal_text(offset as u64).as_str());
    head.append("\r\n");
    let mut size = "$".to_string();
    size.append(decimal_text(rdb.len() as u64).as_str());
    size.append("\r\n");
    let mut out: Vec<u8> = Vec::new();
    out.extend_from_slice(head.as_str().as_bytes());
    out.extend_from_slice(size.as_str().as_bytes());
    out.extend_from_slice(rdb.as_slice());
    proof {
        assert(out@ =~= resync_payload(offset as nat, rdb@));
    }
    out
}

/// What a replica is sent that asks for a full copy.
pub fn full_resync(offset: usize) -> (r: Vec<u8>)
    ensures
        r@ == resync_payload(offset as nat, hex_bytes(EMPTY_RDB_HEX@)),
{
    let rdb = empty_rdb();
    frame_rdb(offset, &rdb)
}

// ---------------------------------------------------------------------------
// WAIT
// ---------------------------------------------------------------------------

/// The command that asks a replica how far it has come.
pub const GET_ACK: &'static str = "*3\r\n$8\r\nREPLCONF\r\n$6\r\nGETACK\r\n$1\r\n*\r\n";

/// How many replicas a `WAIT` counts: none where none is asked for, otherwise
/// those that are connected.
pub open spec fn wait_count(num_replicas: usize, connected: usize) -> i64 {
    if num_replicas == 0 {
        0
    } else {
        connected as i64
    }
}

/// Whether a `WAIT` asks the replicas how far they have come.
pub open spec fn wait_asks(num_replicas: usize, connected: usize, offset: usize) -> bool {
    num_replicas != 0 && connected != 0 && offset > 0
}

/// The answer to a `WAIT`, and whether the replicas are to be asked how far they
/// have come.
pub fn wait(num_replicas: usize, connected: usize, offset: usize) -> (r: (Value, bool))
    ensures
        r.0@ == ValueView::Integer(wait_count(num_replicas, connected)),
        r.1 == wait_asks(num_replicas, connected, offset),
{
    if num_replicas == 0 || connected == 0 {
        (Value::Integer(0), false)
    } else if offset == 0 {
        (Value::Integer(connected as i64), false)
    } else {
        (Value::Integer(connected as i64), true)
    }
}

} // verus!
