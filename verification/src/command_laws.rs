//! What each command does, from its words to the database and the answer.
//!
//! The laws speak of the words of a command, of the keys of the database and of the
//! answer, and of nothing in between.

use crate::execute::{accepted, command_effect, Env, OutcomeView};
use crate::names::{
    lemma_echo, lemma_get, lemma_incr, lemma_info, lemma_ping, lemma_psync, lemma_replconf,
    lemma_set, lemma_type, lemma_wait, lemma_watch,
};
use crate::replication::{hex_bytes, EMPTY_RDB_HEX, GET_ACK};
use crate::resp::ValueView;
use crate::store::{DataView, DbValueView, DbView};
use crate::text::{decimal, decimal_int, lowercase, to_i64, to_u64, to_usize, trim};
use vstd::prelude::*;
use vstd::utf8::*;

verus! {

/// The answer to a command that does not fit what the key holds.
pub open spec fn wrong_type() -> OutcomeView {
    OutcomeView::Reply(
        ValueView::Error("WRONGTYPE Operation against a key holding the wrong kind of value"@),
    )
}

/// Whether a key holds something at a time: it exists and is not past its time.
pub open spec fn is_there(db: DbView, key: Seq<char>, now: u64) -> bool {
    db.contains_key(key) && (db[key].expires_at matches Some(t) ==> now <= t)
}

// ---------------------------------------------------------------------------
// PING and ECHO
// ---------------------------------------------------------------------------

/// `PING` is answered with `PONG`.
pub proof fn law_ping(args: Seq<ValueView>, db: DbView, env: Env)
    ensures
        accepted("ping"@, args, db, env),
        command_effect("ping"@, args, db, env) == (
            db,
            OutcomeView::Reply(ValueView::SimpleString("PONG"@)),
        ),
{
    lemma_ping(args);
}

/// `ECHO` is answered with its first argument, and needs one.
pub proof fn law_echo(args: Seq<ValueView>, db: DbView, env: Env)
    ensures
        accepted("echo"@, args, db, env) <==> args.len() > 0,
        args.len() > 0 ==> command_effect("echo"@, args, db, env) == (
            db,
            OutcomeView::Reply(args[0]),
        ),
{
    lemma_echo(args);
}

/// A name that no command has is answered with an error and changes nothing.
pub proof fn law_unknown_name(name: Seq<char>, args: Seq<ValueView>, db: DbView, env: Env)
    requires
        !seq![
            "ping"@,
            "echo"@,
            "set"@,
            "get"@,
            "rpush"@,
            "lrange"@,
            "lpush"@,
            "llen"@,
            "lpop"@,
            "blpop"@,
            "type"@,
            "xadd"@,
            "xrange"@,
            "xread"@,
            "incr"@,
            "watch"@,
            "info"@,
            "replconf"@,
            "psync"@,
            "wait"@,
        ].contains(name),
    ensures
        accepted(name, args, db, env),
        command_effect(name, args, db, env) == (
            db,
            OutcomeView::Reply(ValueView::Error("ERR unknown command"@)),
        ),
{
    let all = seq![
        "ping"@,
        "echo"@,
        "set"@,
        "get"@,
        "rpush"@,
        "lrange"@,
        "lpush"@,
        "llen"@,
        "lpop"@,
        "blpop"@,
        "type"@,
        "xadd"@,
        "xrange"@,
        "xread"@,
        "incr"@,
        "watch"@,
        "info"@,
        "replconf"@,
        "psync"@,
        "wait"@,
    ];
    assert forall|i: int| 0 <= i < 20 implies #[trigger] all[i] != name by {
        assert(all.contains(all[i]));
    }
    assert(all[0] != name && all[1] != name && all[2] != name && all[3] != name && all[4] != name);
    assert(all[5] != name && all[6] != name && all[7] != name && all[8] != name && all[9] != name);
    assert(all[10] != name && all[11] != name && all[12] != name && all[13] != name);
    assert(all[14] != name && all[15] != name && all[16] != name && all[17] != name);
    assert(all[18] != name && all[19] != name);
}

// ---------------------------------------------------------------------------
// SET, GET, TYPE and INCR
// ---------------------------------------------------------------------------

/// `SET` gives the key the value under the next version and leaves every other key.
/// The value lives for the milliseconds that follow a `PX`, in any case and with
/// white space around it, where they are a number; otherwise it does not end.
pub proof fn law_set(
    args: Seq<ValueView>,
    key: Seq<char>,
    value: Seq<char>,
    life: Option<u64>,
    db: DbView,
    env: Env,
)
    requires
        args.len() >= 2,
        args[0] == ValueView::BulkString(key),
        args[1] == ValueView::BulkString(value),
        args.len() < 4 ==> life is None,
        args.len() >= 4 ==> {
            &&& args[2] matches ValueView::BulkString(option)
            &&& lowercase(trim(option)) != "px"@ ==> life is None
            &&& lowercase(trim(option)) == "px"@ ==> {
                &&& args[3] matches ValueView::BulkString(ms)
                &&& life == to_u64(trim(ms))
            }
        },
    ensures
        ({
            let (after, outcome) = command_effect("set"@, args, db, env);
            &&& accepted("set"@, args, db, env) <==> (db.contains_key(key) ==> db[key].version
                < usize::MAX)
            &&& outcome matches OutcomeView::Broadcast { message, reply }
            &&& reply == ValueView::SimpleString("OK"@)
            &&& after.contains_key(key)
            &&& after[key].value == DataView::String(value)
            &&& after[key].version == (if db.contains_key(key) {
                db[key].version + 1
            } else {
                1
            })
            &&& life is None <==> after[key].expires_at is None
            &&& life matches Some(ms) ==> after[key].expires_at->0 == env.now + ms * 1_000_000
            &&& forall|k: Seq<char>|
                k != key ==> (#[trigger] after.contains_key(k) <==> db.contains_key(k))
            &&& forall|k: Seq<char>|
                k != key && db.contains_key(k) ==> #[trigger] after[k] == db[k]
        }),
{
    lemma_set(args);
}

/// On which arguments `SET` is not defined, whatever the database holds.
pub proof fn law_set_needs_bulk_strings(args: Seq<ValueView>, db: DbView, env: Env)
    requires
        args.len() < 2 || !(args[0] is BulkString) || !(args[1] is BulkString) || (args.len() >= 4
            && !(args[2] is BulkString)) || (args.len() >= 4 && lowercase(
            trim(args[2]->BulkString_0),
        ) == "px"@ && !(args[3] is BulkString)),
    ensures
        !accepted("set"@, args, db, env),
{
    lemma_set(args);
}

/// `GET` gives the text of a key that is there, an error for any other kind, and
/// nothing for a key that is not there. A key past its time is removed, and nothing
/// else changes.
pub proof fn law_get(args: Seq<ValueView>, key: Seq<char>, db: DbView, env: Env)
    requires
        args.len() > 0,
        args[0] == ValueView::BulkString(key),
    ensures
        ({
            let (after, outcome) = command_effect("get"@, args, db, env);
            &&& accepted("get"@, args, db, env)
            &&& is_there(db, key, env.now) ==> after == db
            &&& !is_there(db, key, env.now) ==> after == db.remove(key) && outcome
                == OutcomeView::Reply(ValueView::NullBulkString)
            &&& is_there(db, key, env.now) ==> match db[key].value {
                DataView::String(s) => outcome == OutcomeView::Reply(ValueView::BulkString(s)),
                _ => outcome == wrong_type(),
            }
        }),
{
    lemma_get(args);
    if !db.contains_key(key) {
        assert(db.remove(key) =~= db);
    }
}

/// `TYPE` names the kind of a key that is there, and `none` for one that is not. A
/// key past its time is removed, and nothing else changes.
pub proof fn law_type(args: Seq<ValueView>, key: Seq<char>, db: DbView, env: Env)
    requires
        args.len() > 0,
        args[0] == ValueView::BulkString(key),
    ensures
        ({
            let (after, outcome) = command_effect("type"@, args, db, env);
            &&& accepted("type"@, args, db, env)
            &&& after == (if is_there(db, key, env.now) {
                db
            } else {
                db.remove(key)
            })
            &&& outcome == OutcomeView::Reply(
                ValueView::SimpleString(
                    if !is_there(db, key, env.now) {
                        "none"@
                    } else if db[key].value is String {
                        "string"@
                    } else if db[key].value is List {
                        "list"@
                    } else {
                        "stream"@
                    },
                ),
            )
        }),
{
    lemma_type(args);
    if !db.contains_key(key) {
        assert(db.remove(key) =~= db);
    }
}

/// `INCR` makes a missing key the text of one, adds one to a number and keeps its
/// life time and its version, and refuses a text that is no number. It is not
/// defined on another kind or on the highest number.
pub proof fn law_incr(args: Seq<ValueView>, key: Seq<char>, db: DbView, env: Env)
    requires
        args.len() > 0,
        args[0] == ValueView::BulkString(key),
    ensures
        ({
            let (after, outcome) = command_effect("incr"@, args, db, env);
            if !db.contains_key(key) {
                &&& accepted("incr"@, args, db, env)
                &&& after == db.insert(
                    key,
                    DbValueView {
                        value: DataView::String(decimal(1)),
                        expires_at: None,
                        version: 0,
                    },
                )
                &&& outcome == OutcomeView::Reply(ValueView::Integer(1))
            } else if let DataView::String(s) = db[key].value {
                match to_i64(s) {
                    Some(n) => if n < i64::MAX {
                        &&& accepted("incr"@, args, db, env)
                        &&& after == db.insert(
                            key,
                            DbValueView {
                                value: DataView::String(decimal_int(n + 1)),
                                expires_at: db[key].expires_at,
                                version: db[key].version,
                            },
                        )
                        &&& outcome == OutcomeView::Reply(ValueView::Integer((n + 1) as i64))
                    } else {
                        !accepted("incr"@, args, db, env)
                    },
                    None => {
                        &&& accepted("incr"@, args, db, env)
                        &&& after == db
                        &&& outcome == OutcomeView::Reply(
                            ValueView::Error("ERR value is not an integer or out of range"@),
                        )
                    },
                }
            } else {
                !accepted("incr"@, args, db, env)
            }
        }),
{
    lemma_incr(args);
    reveal_strlit("1");
    assert("1"@ =~= decimal(1));
}

/// `GET`, `TYPE` and `INCR` need a key.
pub proof fn law_keys_are_needed(args: Seq<ValueView>, db: DbView, env: Env)
    requires
        args.len() == 0 || !(args[0] is BulkString),
    ensures
        !accepted("get"@, args, db, env),
        !accepted("type"@, args, db, env),
        !accepted("incr"@, args, db, env),
{
    lemma_get(args);
    lemma_type(args);
    lemma_incr(args);
}

// ---------------------------------------------------------------------------
// WATCH, INFO, REPLCONF, PSYNC and WAIT
// ---------------------------------------------------------------------------

/// A `WATCH` that is carried out, and not taken by the session, does nothing.
pub proof fn law_watch_does_nothing(args: Seq<ValueView>, db: DbView, env: Env)
    ensures
        accepted("watch"@, args, db, env),
        command_effect("watch"@, args, db, env) == (
            db,
            OutcomeView::Reply(ValueView::SimpleString("OK"@)),
        ),
{
    lemma_watch(args);
}

/// `INFO` tells the role, the id of the history and the offset, a line each.
pub proof fn law_info(args: Seq<ValueView>, db: DbView, env: Env)
    ensures
        accepted("info"@, args, db, env),
        command_effect("info"@, args, db, env) == (
            db,
            OutcomeView::Reply(
                ValueView::BulkString(
                    "# Replication\r\nrole:"@ + (if env.is_replica {
                        "slave"@
                    } else {
                        "master"@
                    }) + "\r\nmaster_replid:"@ + "8371b4fb1155b71f4a04d3e1bc3e18c4a990aeeb"@
                        + "\r\nmaster_repl_offset:"@ + decimal(env.offset as nat) + "\r\n"@,
                ),
            ),
        ),
{
    lemma_info(args);
}

/// `REPLCONF GETACK`, the word in any case, is answered with the offset; any other
/// `REPLCONF` with `OK`.
pub proof fn law_replconf(args: Seq<ValueView>, db: DbView, env: Env)
    ensures
        accepted("replconf"@, args, db, env),
        command_effect("replconf"@, args, db, env) == (
            db,
            OutcomeView::Reply(
                if args.len() > 0 && args[0] is BulkString && lowercase(args[0]->BulkString_0)
                    == "getack"@ {
                    ValueView::Array(
                        seq![
                            ValueView::BulkString("REPLCONF"@),
                            ValueView::BulkString("ACK"@),
                            ValueView::BulkString(decimal(env.offset as nat)),
                        ],
                    )
                } else {
                    ValueView::SimpleString("OK"@)
                },
            ),
        ),
{
    lemma_replconf(args);
    reveal_strlit("getack");
    let none = Seq::<char>::empty();
    assert(is_ascii_chars(none));
    assert(lowercase(none) =~= none);
    assert("getack"@.len() != none.len());
}

/// `PSYNC` is sent the line of a full copy with the offset, the size of the database
/// file in bytes, and the file that the constant denotes.
pub proof fn law_psync(args: Seq<ValueView>, db: DbView, env: Env)
    ensures
        ({
            let (after, outcome) = command_effect("psync"@, args, db, env);
            let head = encode_utf8(
                "+FULLRESYNC "@ + "8371b4fb1155b71f4a04d3e1bc3e18c4a990aeeb"@ + " "@ + decimal(
                    env.offset as nat,
                ) + "\r\n"@,
            ) + encode_utf8("$"@ + decimal((EMPTY_RDB_HEX@.len() / 2) as nat) + "\r\n"@);
            &&& accepted("psync"@, args, db, env)
            &&& after == db
            &&& outcome matches OutcomeView::Resync { payload }
            &&& payload.len() == head.len() + EMPTY_RDB_HEX@.len() / 2
            &&& payload.take(head.len() as int) == head
            &&& payload.skip(head.len() as int) == hex_bytes(EMPTY_RDB_HEX@)
        }),
{
    lemma_psync(args);
    if let OutcomeView::Resync { payload } = command_effect("psync"@, args, db, env).1 {
        let head = encode_utf8(
            "+FULLRESYNC "@ + "8371b4fb1155b71f4a04d3e1bc3e18c4a990aeeb"@ + " "@ + decimal(
                env.offset as nat,
            ) + "\r\n"@,
        ) + encode_utf8("$"@ + decimal((EMPTY_RDB_HEX@.len() / 2) as nat) + "\r\n"@);
        assert(payload.take(head.len() as int) =~= head);
        assert(payload.skip(head.len() as int) =~= hex_bytes(EMPTY_RDB_HEX@));
    }
}

/// `WAIT` counts the connected replicas where any are asked for, and asks them how
/// far they have come once there is something to have come to. Arguments that are
/// missing or no numbers are refused, the first one first.
pub proof fn law_wait(args: Seq<ValueView>, db: DbView, env: Env)
    ensures
        ({
            let (after, outcome) = command_effect("wait"@, args, db, env);
            let missing = OutcomeView::Reply(
                ValueView::Error("ERR wrong number of arguments for 'wait' command"@),
            );
            let unreadable = OutcomeView::Reply(
                ValueView::Error("ERR value is not an integer or out of range"@),
            );
            &&& accepted("wait"@, args, db, env)
            &&& after == db
            &&& if args.len() < 1 || !(args[0] is BulkString) {
                outcome == missing
            } else if to_usize(args[0]->BulkString_0) is None {
                outcome == unreadable
            } else if args.len() < 2 || !(args[1] is BulkString) {
                outcome == missing
            } else if to_u64(args[1]->BulkString_0) is None {
                outcome == unreadable
            } else if to_usize(args[0]->BulkString_0)->0 == 0 {
                outcome == OutcomeView::Reply(ValueView::Integer(0))
            } else if env.connected_replicas > 0 && env.offset > 0 {
                outcome == OutcomeView::Broadcast {
                    message: GET_ACK@,
                    reply: ValueView::Integer(env.connected_replicas as i64),
                }
            } else {
                outcome == OutcomeView::Reply(ValueView::Integer(env.connected_replicas as i64))
            }
        }),
{
    lemma_wait(args);
}

} // verus!
