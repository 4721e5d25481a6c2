//! From a request to what it does and answers.

use crate::lists::{
    llen, llen_reply, lpop, lpop_effect, lpush, lpush_effect, lrange, lrange_reply,
    push_defined, rpush, rpush_effect,
};
use crate::replication::{
    full_resync, hex_bytes, info, info_text, replconf, replconf_reply, resync_payload, wait,
    wait_asks, wait_count, EMPTY_RDB_HEX, GET_ACK,
};
use crate::request::{read_request, request_of, Request, RequestView};
use crate::resp::{views, Value, ValueView};
use crate::store::{texts, Db, DbView};
use crate::streams::{
    resolve_starts, start_views, starts_of, xadd, xadd_defined, xadd_effect, xrange,
    xrange_reply, Start, StartView,
};
use crate::strings::{
    get_reply, get_text, incr, incr_defined, incr_effect, set_db, set_message, set_text, swept,
    type_of, type_reply, write_set_message,
};
use crate::text::{lowercase, to_lower};
use vstd::prelude::*;

verus! {

/// What a command can see beside the database.
#[derive(Debug, Clone, Copy)]
pub struct Env {
    /// Nanoseconds on the server's monotonic clock.
    pub now: u64,
    /// Milliseconds since the start of the Unix epoch.
    pub unix_ms: u64,
    /// Whether this server follows a master.
    pub is_replica: bool,
    /// How many replicas are connected.
    pub connected_replicas: usize,
    /// How many bytes of the master's commands this server has processed.
    pub offset: usize,
}

/// What is left to do for a command.
#[derive(Debug)]
pub enum Outcome {
    /// Answer.
    Reply(Value),
    /// Send a message to every replica, then answer.
    Broadcast { message: String, reply: Value },
    /// Make the connection a replica and send it these bytes; there is no answer.
    Resync { payload: Vec<u8> },
    /// Look at the lists until one has an item or the time is up.
    PopFromLists { keys: Vec<String>, timeout: String },
    /// Look at the streams until one has an entry or the time is up.
    ReadStreams { block_ms: Option<u64>, starts: Vec<Start> },
}

/// What an [`Outcome`] holds.
pub enum OutcomeView {
    Reply(ValueView),
    Broadcast { message: Seq<char>, reply: ValueView },
    Resync { payload: Seq<u8> },
    PopFromLists { keys: Seq<Seq<char>>, timeout: Seq<char> },
    ReadStreams { block_ms: Option<u64>, starts: Seq<StartView> },
}

impl View for Outcome {
    type V = OutcomeView;

    open spec fn view(&self) -> OutcomeView {
        match self {
            Outcome::Reply(v) => OutcomeView::Reply(v@),
            Outcome::Broadcast { message, reply } => OutcomeView::Broadcast {
                message: message@,
                reply: reply@,
            },
            Outcome::Resync { payload } => OutcomeView::Resync { payload: payload@ },
            Outcome::PopFromLists { keys, timeout } => OutcomeView::PopFromLists {
                keys: texts(keys@),
                timeout: timeout@,
            },
            Outcome::ReadStreams { block_ms, starts } => OutcomeView::ReadStreams {
                block_ms: *block_ms,
                starts: start_views(starts@),
            },
        }
    }
}

/// Whether a request is defined on what the database holds.
pub open spec fn defined(q: RequestView, db: DbView, env: Env) -> bool {
    match q {
        RequestView::SetKey { key, value, expiry_ms } => db.contains_key(key) ==> db[key].version
            < usize::MAX,
        RequestView::RPush { key, items } => push_defined(db, key),
        RequestView::LPush { key, items } => push_defined(db, key),
        RequestView::XAdd { key, id, fields } => xadd_defined(db, key, id, env.unix_ms),
        RequestView::Incr { key } => incr_defined(db, key),
        _ => true,
    }
}

/// A database together with an answer.
pub open spec fn answered(p: (DbView, ValueView)) -> (DbView, OutcomeView) {
    (p.0, OutcomeView::Reply(p.1))
}

/// What a request does to the database, and what is left to do.
pub open spec fn effect(q: RequestView, db: DbView, env: Env) -> (DbView, OutcomeView) {
    match q {
        RequestView::Ping => answered((db, ValueView::SimpleString("PONG"@))),
        RequestView::Echo(v) => answered((db, v)),
        RequestView::SetKey { key, value, expiry_ms } => (
            set_db(db, key, value, expiry_ms, env.now),
            OutcomeView::Broadcast {
                message: set_message(key, value),
                reply: ValueView::SimpleString("OK"@),
            },
        ),
        RequestView::Get { key } => answered(
            (swept(db, key, env.now), get_reply(db, key, env.now)),
        ),
        RequestView::RPush { key, items } => answered(rpush_effect(db, key, items)),
        RequestView::LPush { key, items } => answered(lpush_effect(db, key, items)),
        RequestView::LRange { key, start, stop } => answered(
            (db, lrange_reply(db, key, start, stop)),
        ),
        RequestView::LLen { key } => answered((db, llen_reply(db, key))),
        RequestView::LPop { key, count } => answered(lpop_effect(db, key, count)),
        RequestView::BLPop { keys, timeout } => (
            db,
            OutcomeView::PopFromLists { keys, timeout },
        ),
        RequestView::Type { key } => answered(
            (swept(db, key, env.now), type_reply(db, key, env.now)),
        ),
        RequestView::XAdd { key, id, fields } => answered(
            xadd_effect(db, key, id, fields, env.unix_ms),
        ),
        RequestView::XRange { key, first, last } => answered(
            (db, xrange_reply(db, key, first, last)),
        ),
        RequestView::XRead { block_ms, streams } => (
            db,
            OutcomeView::ReadStreams { block_ms, starts: starts_of(db, streams) },
        ),
        RequestView::Incr { key } => answered(incr_effect(db, key)),
        RequestView::Watch => answered((db, ValueView::SimpleString("OK"@))),
        RequestView::Info => answered(
            (db, ValueView::BulkString(info_text(env.is_replica, env.offset as nat))),
        ),
        RequestView::ReplConf { get_ack } => answered(
            (db, replconf_reply(get_ack, env.offset as nat)),
        ),
        RequestView::PSync => (
            db,
            OutcomeView::Resync {
                payload: resync_payload(env.offset as nat, hex_bytes(EMPTY_RDB_HEX@)),
            },
        ),
        RequestView::Wait { num_replicas, timeout_ms } => {
            let reply = ValueView::Integer(wait_count(num_replicas, env.connected_replicas));
            if wait_asks(num_replicas, env.connected_replicas, env.offset) {
                (db, OutcomeView::Broadcast { message: GET_ACK@, reply })
            } else {
                answered((db, reply))
            }
        },
        RequestView::Refused { message } => answered((db, ValueView::Error(message))),
    }
}

/// Whether a request is defined on what the database holds.
pub fn is_defined(q: &Request, db: &Db, env: Env) -> (r: bool)
    requires
        db.wf(),
    ensures
        r == defined(q@, db@, env),
{
    match q {
        Request::SetKey { key, value: _, expiry_ms: _ } => crate::strings::can_set(
            db,
            key.as_str(),
        ),
        Request::RPush { key, items: _ } => crate::lists::can_push(db, key.as_str()),
        Request::LPush { key, items: _ } => crate::lists::can_push(db, key.as_str()),
        Request::XAdd { key, id, fields: _ } => crate::streams::can_xadd(
            db,
            key.as_str(),
            id,
            env.unix_ms,
        ),
        Request::Incr { key } => crate::strings::can_incr(db, key.as_str()),
        _ => true,
    }
}

/// Carries a request out on the database, and says what is left to do.
pub fn run(q: Request, db: &mut Db, env: Env) -> (r: Outcome)
    requires
        old(db).wf(),
        defined(q@, old(db)@, env),
    ensures
        final(db).wf(),
        (final(db)@, r@) == effect(q@, old(db)@, env),
{
    match q {
        Request::Ping => Outcome::Reply(Value::SimpleString("PONG".to_string())),
        Request::Echo(v) => Outcome::Reply(v),
        Request::SetKey { key, value, expiry_ms } => {
            let message = write_set_message(key.as_str(), value.as_str());
            set_text(db, key, value, expiry_ms, env.now);
            Outcome::Broadcast { message, reply: Value::SimpleString("OK".to_string()) }
        },
        Request::Get { key } => Outcome::Reply(get_text(db, key.as_str(), env.now)),
        Request::RPush { key, items } => Outcome::Reply(rpush(db, key, items)),
        Request::LPush { key, items } => Outcome::Reply(lpush(db, key, items)),
        Request::LRange { key, start, stop } => Outcome::Reply(
            lrange(db, key.as_str(), start, stop),
        ),
        Request::LLen { key } => Outcome::Reply(llen(db, key.as_str())),
        Request::LPop { key, count } => Outcome::Reply(lpop(db, key.as_str(), count)),
        Request::BLPop { keys, timeout } => Outcome::PopFromLists { keys, timeout },
        Request::Type { key } => Outcome::Reply(type_of(db, key.as_str(), env.now)),
        Request::XAdd { key, id, fields } => Outcome::Reply(
            xadd(db, key, id, fields, env.unix_ms),
        ),
        Request::XRange { key, first, last } => Outcome::Reply(
            xrange(db, key.as_str(), first, last),
        ),
        Request::XRead { block_ms, streams } => Outcome::ReadStreams {
            block_ms,
            starts: resolve_starts(db, streams),
        },
        Request::Incr { key } => Outcome::Reply(incr(db, key)),
        Request::Watch => Outcome::Reply(Value::SimpleString("OK".to_string())),
        Request::Info => Outcome::Reply(info(env.is_replica, env.offset)),
        Request::ReplConf { get_ack } => Outcome::Reply(replconf(get_ack, env.offset)),
        Request::PSync => Outcome::Resync { payload: full_resync(env.offset) },
        Request::Wait { num_replicas, timeout_ms: _ } => {
            let (reply, asks) = wait(num_replicas, env.connected_replicas, env.offset);
            if asks {
                Outcome::Broadcast { message: GET_ACK.to_string(), reply }
            } else {
                Outcome::Reply(reply)
            }
        },
        Request::Refused { message } => Outcome::Reply(Value::Error(message)),
    }
}

/// Whether a command, its name in lower case, is one that the server can carry
/// out.
pub open spec fn accepted(
    name: Seq<char>,
    args: Seq<ValueView>,
    db: DbView,
    env: Env,
) -> bool {
    request_of(name, args) matches Some(q) && defined(q, db, env)
}

/// What a command, its name in lower case, does and leaves to do.
pub open spec fn command_effect(
    name: Seq<char>,
    args: Seq<ValueView>,
    db: DbView,
    env: Env,
) -> (DbView, OutcomeView) {
    effect(request_of(name, args)->0, db, env)
}

/// Carries out a command whose name is in lower case, where the server can.
pub fn run_command(name: &str, args: &Vec<Value>, db: &mut Db, env: Env) -> (r: Option<Outcome>)
    requires
        old(db).wf(),
    ensures
        final(db).wf(),
        match r {
            Some(o) => {
                &&& accepted(name@, views(args@), old(db)@, env)
                &&& (final(db)@, o@) == command_effect(name@, views(args@), old(db)@, env)
            },
            None => {
                &&& !accepted(name@, views(args@), old(db)@, env)
                &&& final(db)@ == old(db)@
            },
        },
{
    match read_request(name, args) {
        Some(q) => if is_defined(&q, db, env) {
            Some(run(q, db, env))
        } else {
            None
        },
        None => None,
    }
}

/// Carries out a command that the server can carry out.
pub fn execute_command(command: &str, args: Vec<Value>, db: &mut Db, env: Env) -> (r: Outcome)
    requires
        old(db).wf(),
        accepted(lowercase(command@), views(args@), old(db)@, env),
    ensures
        final(db).wf(),
        (final(db)@, r@) == command_effect(lowercase(command@), views(args@), old(db)@, env),
{
    let name = to_lower(command);
    match run_command(name.as_str(), &args, db, env) {
        Some(o) => o,
        None => Outcome::Reply(Value::NoReply),
    }
}

/// Carries out a command where the server can, and otherwise leaves the database
/// as it is.
pub fn try_execute_command(command: &str, args: Vec<Value>, db: &mut Db, env: Env) -> (r: Option<
    Outcome,
>)
    requires
        old(db).wf(),
    ensures
        final(db).wf(),
        match r {
            Some(o) => {
                &&& accepted(lowercase(command@), views(args@), old(db)@, env)
                &&& (final(db)@, o@) == command_effect(
                    lowercase(command@),
                    views(args@),
                    old(db)@,
                    env,
                )
            },
            None => {
                &&& !accepted(lowercase(command@), views(args@), old(db)@, env)
                &&& final(db)@ == old(db)@
            },
        },
{
    let name = to_lower(command);
    let can = match read_request(name.as_str(), &args) {
        Some(q) => is_defined(&q, db, env),
        None => false,
    };
    if can {
        Some(execute_command(command, args, db, env))
    } else {
        None
    }
}

} // verus!
