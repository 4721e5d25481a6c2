//! Keys that hold one text: `SET`, `GET`, `TYPE` and `INCR`.

use crate::resp::{crlf, tagged_line, Value, ValueView};
use crate::store::{DataType, DataView, Db, DbValue, DbValueView, DbView};
use crate::text::{decimal, decimal_int, decimal_int_text, decimal_text, parse_i64, to_i64};
use vstd::prelude::*;
use vstd::string::*;
use vstd::utf8::*;

verus! {

/// The answer to a command that does not fit what the key holds.
pub const WRONG_TYPE: &'static str =
    "WRONGTYPE Operation against a key holding the wrong kind of value";

/// The answer to `INCR` where the text is not a number.
pub const NOT_A_NUMBER: &'static str = "ERR value is not an integer or out of range";

/// Whether a value is past its time.
pub open spec fn expired(v: DbValueView, now: u64) -> bool {
    v.expires_at matches Some(t) && now > t
}

/// Whether a value is past its time.
fn is_expired(v: &DbValue, now: u64) -> (r: bool)
    ensures
        r == expired(v@, now),
{
    match v.expires_at {
        Some(t) => now as u128 > t,
        None => false,
    }
}

// ---------------------------------------------------------------------------
// SET
// ---------------------------------------------------------------------------

/// The version that the next write of a key gives it.
pub open spec fn next_version(db: DbView, key: Seq<char>) -> nat {
    if db.contains_key(key) {
        db[key].version + 1
    } else {
        1
    }
}

/// The time at which a value that lives `ms` milliseconds expires.
pub open spec fn expiry_time(ms: Option<u64>, now: u64) -> Option<u128> {
    match ms {
        Some(ms) => Some((now + ms * 1_000_000) as u128),
        None => None,
    }
}

/// The database after a `SET`.
pub open spec fn set_db(
    db: DbView,
    key: Seq<char>,
    value: Seq<char>,
    expiry_ms: Option<u64>,
    now: u64,
) -> DbView {
    db.insert(
        key,
        DbValueView {
            value: DataView::String(value),
            expires_at: expiry_time(expiry_ms, now),
            version: next_version(db, key),
        },
    )
}

/// A bulk string whose length counts bytes.
pub open spec fn byte_bulk_wire(s: Seq<char>) -> Seq<char> {
    tagged_line('$', decimal(encode_utf8(s).len())) + s + crlf()
}

/// The command that tells a replica of a `SET`: key and value, without the life
/// time.
pub open spec fn set_message(key: Seq<char>, value: Seq<char>) -> Seq<char> {
    "*3\r\n$3\r\nSET\r\n"@ + byte_bulk_wire(key) + byte_bulk_wire(value)
}

pub(crate) fn push_byte_bulk(out: &mut String, s: &str)
    ensures
        final(out)@ == old(out)@ + byte_bulk_wire(s@),
{
    let size = decimal_text(s.as_bytes().len() as u64);
    out.append("$");
    out.append(size.as_str());
    out.append("\r\n");
    out.append(s);
    out.append("\r\n");
    proof {
        reveal_strlit("$");
        reveal_strlit("\r\n");
        assert("\r\n"@ =~= crlf());
        assert("$"@ =~= seq!['$']);
        assert(out@ =~= old(out)@ + byte_bulk_wire(s@));
    }
}

/// The command that tells a replica of a `SET`.
pub fn write_set_message(key: &str, value: &str) -> (r: String)
    ensures
        r@ == set_message(key@, value@),
{
    let mut out = "*3\r\n$3\r\nSET\r\n".to_string();
    push_byte_bulk(&mut out, key);
    push_byte_bulk(&mut out, value);
    out
}

/// Whether the version of a key can still grow.
pub fn can_set(db: &Db, key: &str) -> (r: bool)
    requires
        db.wf(),
    ensures
        r == (db@.contains_key(key@) ==> db@[key@].version < usize::MAX),
{
    match db.get(key) {
        Some(v) => v.version < usize::MAX,
        None => true,
    }
}

/// Gives a key a text.
pub fn set_text(db: &mut Db, key: String, value: String, expiry_ms: Option<u64>, now: u64)
    requires
        old(db).wf(),
        old(db)@.contains_key(key@) ==> old(db)@[key@].version < usize::MAX,
    ensures
        final(db).wf(),
        final(db)@ == set_db(old(db)@, key@, value@, expiry_ms, now),
{
    let version = match db.get(key.as_str()) {
        Some(v) => v.version + 1,
        None => 1,
    };
    let expires_at: Option<u128> = match expiry_ms {
        Some(ms) => Some(now as u128 + ms as u128 * 1_000_000),
        None => None,
    };
    db.insert(key, DbValue { value: DataType::String(value), expires_at, version });
}

// ---------------------------------------------------------------------------
// GET and TYPE
// ---------------------------------------------------------------------------

/// The database after a look at a key: a value past its time is gone.
pub open spec fn swept(db: DbView, key: Seq<char>, now: u64) -> DbView {
    if db.contains_key(key) && expired(db[key], now) {
        db.remove(key)
    } else {
        db
    }
}

/// The answer to a `GET`.
pub open spec fn get_reply(db: DbView, key: Seq<char>, now: u64) -> ValueView {
    if !db.contains_key(key) || expired(db[key], now) {
        ValueView::NullBulkString
    } else {
        match db[key].value {
            DataView::String(s) => ValueView::BulkString(s),
            _ => ValueView::Error(WRONG_TYPE@),
        }
    }
}

/// The text of a key.
pub fn get_text(db: &mut Db, key: &str, now: u64) -> (r: Value)
    requires
        old(db).wf(),
    ensures
        final(db).wf(),
        final(db)@ == swept(old(db)@, key@, now),
        r@ == get_reply(old(db)@, key@, now),
{
    let gone = match db.get(key) {
        Some(v) => is_expired(v, now),
        None => false,
    };
    if gone {
        db.take(key);
        Value::NullBulkString
    } else {
        match db.get(key) {
            Some(v) => match &v.value {
                DataType::String(s) => Value::BulkString(s.clone()),
                _ => Value::Error(WRONG_TYPE.to_string()),
            },
            None => Value::NullBulkString,
        }
    }
}

/// The answer to a `TYPE`.
pub open spec fn type_reply(db: DbView, key: Seq<char>, now: u64) -> ValueView {
    ValueView::SimpleString(
        if !db.contains_key(key) || expired(db[key], now) {
            "none"@
        } else {
            match db[key].value {
                DataView::String(_) => "string"@,
                DataView::List(_) => "list"@,
                DataView::Stream(_) => "stream"@,
            }
        },
    )
}

/// The kind of data that a key holds.
pub fn type_of(db: &mut Db, key: &str, now: u64) -> (r: Value)
    requires
        old(db).wf(),
    ensures
        final(db).wf(),
        final(db)@ == swept(old(db)@, key@, now),
        r@ == type_reply(old(db)@, key@, now),
{
    let gone = match db.get(key) {
        Some(v) => is_expired(v, now),
        None => false,
    };
    if gone {
        db.take(key);
        return Value::SimpleString("none".to_string());
    }
    let name = match db.get(key) {
        Some(v) => match &v.value {
            DataType::String(_) => "string",
            DataType::List(_) => "list",
            DataType::Stream(_) => "stream",
        },
        None => "none",
    };
    Value::SimpleString(name.to_string())
}

// ---------------------------------------------------------------------------
// INCR
// ---------------------------------------------------------------------------

/// Whether `INCR` is defined: a key that exists holds a text, and a number can
/// still grow.
pub open spec fn incr_defined(db: DbView, key: Seq<char>) -> bool {
    db.contains_key(key) ==> {
        &&& db[key].value matches DataView::String(s)
        &&& to_i64(s) matches Some(n) ==> n < i64::MAX
    }
}

/// Whether `INCR` is defined.
pub fn can_incr(db: &Db, key: &str) -> (r: bool)
    requires
        db.wf(),
    ensures
        r == incr_defined(db@, key@),
{
    match db.get(key) {
        Some(v) => match &v.value {
            DataType::String(s) => match parse_i64(s.as_str()) {
                Some(n) => n < i64::MAX,
                None => true,
            },
            _ => false,
        },
        None => true,
    }
}

/// What an `INCR` does and answers.
pub open spec fn incr_effect(db: DbView, key: Seq<char>) -> (DbView, ValueView) {
    if !db.contains_key(key) {
        (
            db.insert(
                key,
                DbValueView { value: DataView::String("1"@), expires_at: None, version: 0 },
            ),
            ValueView::Integer(1),
        )
    } else {
        match to_i64(db[key].value->String_0) {
            Some(n) => (
                db.insert(
                    key,
                    DbValueView { value: DataView::String(decimal_int(n + 1)), ..db[key] },
                ),
                ValueView::Integer((n + 1) as i64),
            ),
            None => (db, ValueView::Error(NOT_A_NUMBER@)),
        }
    }
}

/// Adds one to the number that a key holds.
pub fn incr(db: &mut Db, key: String) -> (r: Value)
    requires
        old(db).wf(),
        incr_defined(old(db)@, key@),
    ensures
        final(db).wf(),
        (final(db)@, r@) == incr_effect(old(db)@, key@),
{
    let number = match db.get(key.as_str()) {
        Some(v) => match &v.value {
            DataType::String(s) => Some(parse_i64(s.as_str())),
            _ => None,
        },
        None => None,
    };
    match number {
        Some(Some(n)) => {
            let next = n + 1;
            let taken = db.take(key.as_str());
            let (expires_at, version) = match taken {
                Some(v) => (v.expires_at, v.version),
                None => (None, 0),
            };
            let text = decimal_int_text(next);
            db.insert(key, DbValue { value: DataType::String(text), expires_at, version });
            proof {
                assert(db@ =~= incr_effect(old(db)@, key@).0);
            }
            Value::Integer(next)
        },
        Some(None) => Value::Error(NOT_A_NUMBER.to_string()),
        None => {
            db.insert(
                key,
                DbValue { value: DataType::String("1".to_string()), expires_at: None, version: 0 },
            );
            Value::Integer(1)
        },
    }
}

} // verus!
