//! Which request each name stands for.

use crate::request::{
    blpop_request, bulk, bulk_texts, lpop_request, lrange_request, request_of, set_request,
    wait_request, xadd_request, xrange_request, xread_request, RequestView,
};
use crate::resp::ValueView;
use crate::text::lowercase;
use vstd::prelude::*;

verus! {

/// What `PING` stands for.
pub(crate) proof fn lemma_ping(args: Seq<ValueView>)
    ensures
        request_of("ping"@, args) == Some(RequestView::Ping),
{
}

/// What `ECHO` stands for.
pub(crate) proof fn lemma_echo(args: Seq<ValueView>)
    ensures
        request_of("echo"@, args) == (if args.len() > 0 {
            Some(RequestView::Echo(args[0]))
        } else {
            None
        }),
{
    reveal_strlit("ping");
    reveal_strlit("echo");
    assert("echo"@[0] != "ping"@[0]);
}

/// What `SET` stands for.
pub(crate) proof fn lemma_set(args: Seq<ValueView>)
    ensures
        request_of("set"@, args) == set_request(args),
{
    reveal_strlit("ping");
    reveal_strlit("echo");
    reveal_strlit("set");
    assert("set"@.len() != "ping"@.len());
    assert("set"@.len() != "echo"@.len());
}

/// What `GET` stands for.
pub(crate) proof fn lemma_get(args: Seq<ValueView>)
    ensures
        request_of("get"@, args) == (match bulk(args, 0) {
            Some(key) => Some(RequestView::Get { key }),
            None => None,
        }),
{
    reveal_strlit("ping");
    reveal_strlit("echo");
    reveal_strlit("set");
    reveal_strlit("get");
    assert("get"@.len() != "ping"@.len());
    assert("get"@.len() != "echo"@.len());
    assert("get"@[0] != "set"@[0]);
}

/// What `RPUSH` stands for.
pub(crate) proof fn lemma_rpush(args: Seq<ValueView>)
    ensures
        request_of("rpush"@, args) == (match bulk(args, 0) {
            Some(key) => Some(RequestView::RPush { key, items: bulk_texts(args.skip(1)) }),
            None => None,
        }),
{
    reveal_strlit("ping");
    reveal_strlit("echo");
    reveal_strlit("set");
    reveal_strlit("get");
    reveal_strlit("rpush");
    assert("rpush"@.len() != "ping"@.len());
    assert("rpush"@.len() != "echo"@.len());
    assert("rpush"@.len() != "set"@.len());
    assert("rpush"@.len() != "get"@.len());
}

/// What `LRANGE` stands for.
pub(crate) proof fn lemma_lrange(args: Seq<ValueView>)
    ensures
        request_of("lrange"@, args) == lrange_request(args),
{
    reveal_strlit("ping");
    reveal_strlit("echo");
    reveal_strlit("set");
    reveal_strlit("get");
    reveal_strlit("rpush");
    reveal_strlit("lrange");
    assert("lrange"@.len() != "ping"@.len());
    assert("lrange"@.len() != "echo"@.len());
    assert("lrange"@.len() != "set"@.len());
    assert("lrange"@.len() != "get"@.len());
    assert("lrange"@.len() != "rpush"@.len());
}

/// What `LPUSH` stands for.
pub(crate) proof fn lemma_lpush(args: Seq<ValueView>)
    ensures
        request_of("lpush"@, args) == (match bulk(args, 0) {
            Some(key) => Some(RequestView::LPush { key, items: bulk_texts(args.skip(1)) }),
            None => None,
        }),
{
    reveal_strlit("ping");
    reveal_strlit("echo");
    reveal_strlit("set");
    reveal_strlit("get");
    reveal_strlit("rpush");
    reveal_strlit("lrange");
    reveal_strlit("lpush");
    assert("lpush"@.len() != "ping"@.len());
    assert("lpush"@.len() != "echo"@.len());
    assert("lpush"@.len() != "set"@.len());
    assert("lpush"@.len() != "get"@.len());
    assert("lpush"@[0] != "rpush"@[0]);
    assert("lpush"@.len() != "lrange"@.len());
}

/// What `LLEN` stands for.
pub(crate) proof fn lemma_llen(args: Seq<ValueView>)
    ensures
        request_of("llen"@, args) == (match bulk(args, 0) {
            Some(key) => Some(RequestView::LLen { key }),
            None => None,
        }),
{
    reveal_strlit("ping");
    reveal_strlit("echo");
    reveal_strlit("set");
    reveal_strlit("get");
    reveal_strlit("rpush");
    reveal_strlit("lrange");
    reveal_strlit("lpush");
    reveal_strlit("llen");
    assert("llen"@[0] != "ping"@[0]);
    assert("llen"@[0] != "echo"@[0]);
    assert("llen"@.len() != "set"@.len());
    assert("llen"@.len() != "get"@.len());
    assert("llen"@.len() != "rpush"@.len());
    assert("llen"@.len() != "lrange"@.len());
    assert("llen"@.len() != "lpush"@.len());
}

/// What `LPOP` stands for.
pub(crate) proof fn lemma_lpop(args: Seq<ValueView>)
    ensures
        request_of("lpop"@, args) == lpop_request(args),
{
    reveal_strlit("ping");
    reveal_strlit("echo");
    reveal_strlit("set");
    reveal_strlit("get");
    reveal_strlit("rpush");
    reveal_strlit("lrange");
    reveal_strlit("lpush");
    reveal_strlit("llen");
    reveal_strlit("lpop");
    assert("lpop"@[0] != "ping"@[0]);
    assert("lpop"@[0] != "echo"@[0]);
    assert("lpop"@.len() != "set"@.len());
    assert("lpop"@.len() != "get"@.len());
    assert("lpop"@.len() != "rpush"@.len());
    assert("lpop"@.len() != "lrange"@.len());
    assert("lpop"@.len() != "lpush"@.len());
    assert("lpop"@[1] != "llen"@[1]);
}

/// What `BLPOP` stands for.
pub(crate) proof fn lemma_blpop(args: Seq<ValueView>)
    ensures
        request_of("blpop"@, args) == blpop_request(args),
{
    reveal_strlit("ping");
    reveal_strlit("echo");
    reveal_strlit("set");
    reveal_strlit("get");
    reveal_strlit("rpush");
    reveal_strlit("lrange");
    reveal_strlit("lpush");
    reveal_strlit("llen");
    reveal_strlit("lpop");
    reveal_strlit("blpop");
    assert("blpop"@.len() != "ping"@.len());
    assert("blpop"@.len() != "echo"@.len());
    assert("blpop"@.len() != "set"@.len());
    assert("blpop"@.len() != "get"@.len());
    assert("blpop"@[0] != "rpush"@[0]);
    assert("blpop"@.len() != "lrange"@.len());
    assert("blpop"@[0] != "lpush"@[0]);
    assert("blpop"@.len() != "llen"@.len());
    assert("blpop"@.len() != "lpop"@.len());
}

/// What `TYPE` stands for.
pub(crate) proof fn lemma_type(args: Seq<ValueView>)
    ensures
        request_of("type"@, args) == (match bulk(args, 0) {
            Some(key) => Some(RequestView::Type { key }),
            None => None,
        }),
{
    reveal_strlit("ping");
    reveal_strlit("echo");
    reveal_strlit("set");
    reveal_strlit("get");
    reveal_strlit("rpush");
    reveal_strlit("lrange");
    reveal_strlit("lpush");
    reveal_strlit("llen");
    reveal_strlit("lpop");
    reveal_strlit("blpop");
    reveal_strlit("type");
    assert("type"@[0] != "ping"@[0]);
    assert("type"@[0] != "echo"@[0]);
    assert("type"@.len() != "set"@.len());
    assert("type"@.len() != "get"@.len());
    assert("type"@.len() != "rpush"@.len());
    assert("type"@.len() != "lrange"@.len());
    assert("type"@.len() != "lpush"@.len());
    assert("type"@[0] != "llen"@[0]);
    assert("type"@[0] != "lpop"@[0]);
    assert("type"@.len() != "blpop"@.len());
}

/// What `XADD` stands for.
pub(crate) proof fn lemma_xadd(args: Seq<ValueView>)
    ensures
        request_of("xadd"@, args) == xadd_request(args),
{
    reveal_strlit("ping");
    reveal_strlit("echo");
    reveal_strlit("set");
    reveal_strlit("get");
    reveal_strlit("rpush");
    reveal_strlit("lrange");
    reveal_strlit("lpush");
    reveal_strlit("llen");
    reveal_strlit("lpop");
    reveal_strlit("blpop");
    reveal_strlit("type");
    reveal_strlit("xadd");
    assert("xadd"@[0] != "ping"@[0]);
    assert("xadd"@[0] != "echo"@[0]);
    assert("xadd"@.len() != "set"@.len());
    assert("xadd"@.len() != "get"@.len());
    assert("xadd"@.len() != "rpush"@.len());
    assert("xadd"@.len() != "lrange"@.len());
    assert("xadd"@.len() != "lpush"@.len());
    assert("xadd"@[0] != "llen"@[0]);
    assert("xadd"@[0] != "lpop"@[0]);
    assert("xadd"@.len() != "blpop"@.len());
    assert("xadd"@[0] != "type"@[0]);
}

/// What `XRANGE` stands for.
pub(crate) proof fn lemma_xrange(args: Seq<ValueView>)
    ensures
        request_of("xrange"@, args) == xrange_request(args),
{
    reveal_strlit("ping");
    reveal_strlit("echo");
    reveal_strlit("set");
    reveal_strlit("get");
    reveal_strlit("rpush");
    reveal_strlit("lrange");
    reveal_strlit("lpush");
    reveal_strlit("llen");
    reveal_strlit("lpop");
    reveal_strlit("blpop");
    reveal_strlit("type");
    reveal_strlit("xadd");
    reveal_strlit("xrange");
    assert("xrange"@.len() != "ping"@.len());
    assert("xrange"@.len() != "echo"@.len());
    assert("xrange"@.len() != "set"@.len());
    assert("xrange"@.len() != "get"@.len());
    assert("xrange"@.len() != "rpush"@.len());
    assert("xrange"@[0] != "lrange"@[0]);
    assert("xrange"@.len() != "lpush"@.len());
    assert("xrange"@.len() != "llen"@.len());
    assert("xrange"@.len() != "lpop"@.len());
    assert("xrange"@.len() != "blpop"@.len());
    assert("xrange"@.len() != "type"@.len());
    assert("xrange"@.len() != "xadd"@.len());
}

/// What `XREAD` stands for.
pub(crate) proof fn lemma_xread(args: Seq<ValueView>)
    ensures
        request_of("xread"@, args) == (match bulk(args, 0) {
            Some(first) => xread_request(lowercase(first) == "block"@, args),
            None => None,
        }),
{
    reveal_strlit("ping");
    reveal_strlit("echo");
    reveal_strlit("set");
    reveal_strlit("get");
    reveal_strlit("rpush");
    reveal_strlit("lrange");
    reveal_strlit("lpush");
    reveal_strlit("llen");
    reveal_strlit("lpop");
    reveal_strlit("blpop");
    reveal_strlit("type");
    reveal_strlit("xadd");
    reveal_strlit("xrange");
    reveal_strlit("xread");
    assert("xread"@.len() != "ping"@.len());
    assert("xread"@.len() != "echo"@.len());
    assert("xread"@.len() != "set"@.len());
    assert("xread"@.len() != "get"@.len());
    assert("xread"@[0] != "rpush"@[0]);
    assert("xread"@.len() != "lrange"@.len());
    assert("xread"@[0] != "lpush"@[0]);
    assert("xread"@.len() != "llen"@.len());
    assert("xread"@.len() != "lpop"@.len());
    assert("xread"@[0] != "blpop"@[0]);
    assert("xread"@.len() != "type"@.len());
    assert("xread"@.len() != "xadd"@.len());
    assert("xread"@.len() != "xrange"@.len());
}

/// What `INCR` stands for.
pub(crate) proof fn lemma_incr(args: Seq<ValueView>)
    ensures
        request_of("incr"@, args) == (match bulk(args, 0) {
            Some(key) => Some(RequestView::Incr { key }),
            None => None,
        }),
{
    reveal_strlit("ping");
    reveal_strlit("echo");
    reveal_strlit("set");
    reveal_strlit("get");
    reveal_strlit("rpush");
    reveal_strlit("lrange");
    reveal_strlit("lpush");
    reveal_strlit("llen");
    reveal_strlit("lpop");
    reveal_strlit("blpop");
    reveal_strlit("type");
    reveal_strlit("xadd");
    reveal_strlit("xrange");
    reveal_strlit("xread");
    reveal_strlit("incr");
    assert("incr"@[0] != "ping"@[0]);
    assert("incr"@[0] != "echo"@[0]);
    assert("incr"@.len() != "set"@.len());
    assert("incr"@.len() != "get"@.len());
    assert("incr"@.len() != "rpush"@.len());
    assert("incr"@.len() != "lrange"@.len());
    assert("incr"@.len() != "lpush"@.len());
    assert("incr"@[0] != "llen"@[0]);
    assert("incr"@[0] != "lpop"@[0]);
    assert("incr"@.len() != "blpop"@.len());
    assert("incr"@[0] != "type"@[0]);
    assert("incr"@[0] != "xadd"@[0]);
    assert("incr"@.len() != "xrange"@.len());
    assert("incr"@.len() != "xread"@.len());
}

/// What `WATCH` stands for.
pub(crate) proof fn lemma_watch(args: Seq<ValueView>)
    ensures
        request_of("watch"@, args) == Some(RequestView::Watch),
{
    reveal_strlit("ping");
    reveal_strlit("echo");
    reveal_strlit("set");
    reveal_strlit("get");
    reveal_strlit("rpush");
    reveal_strlit("lrange");
    reveal_strlit("lpush");
    reveal_strlit("llen");
    reveal_strlit("lpop");
    reveal_strlit("blpop");
    reveal_strlit("type");
    reveal_strlit("xadd");
    reveal_strlit("xrange");
    reveal_strlit("xread");
    reveal_strlit("incr");
    reveal_strlit("watch");
    assert("watch"@.len() != "ping"@.len());
    assert("watch"@.len() != "echo"@.len());
    assert("watch"@.len() != "set"@.len());
    assert("watch"@.len() != "get"@.len());
    assert("watch"@[0] != "rpush"@[0]);
    assert("watch"@.len() != "lrange"@.len());
    assert("watch"@[0] != "lpush"@[0]);
    assert("watch"@.len() != "llen"@.len());
    assert("watch"@.len() != "lpop"@.len());
    assert("watch"@[0] != "blpop"@[0]);
    assert("watch"@.len() != "type"@.len());
    assert("watch"@.len() != "xadd"@.len());
    assert("watch"@.len() != "xrange"@.len());
    assert("watch"@[0] != "xread"@[0]);
    assert("watch"@.len() != "incr"@.len());
}

/// What `INFO` stands for.
pub(crate) proof fn lemma_info(args: Seq<ValueView>)
    ensures
        request_of("info"@, args) == Some(RequestView::Info),
{
    reveal_strlit("ping");
    reveal_strlit("echo");
    reveal_strlit("set");
    reveal_strlit("get");
    reveal_strlit("rpush");
    reveal_strlit("lrange");
    reveal_strlit("lpush");
    reveal_strlit("llen");
    reveal_strlit("lpop");
    reveal_strlit("blpop");
    reveal_strlit("type");
    reveal_strlit("xadd");
    reveal_strlit("xrange");
    reveal_strlit("xread");
    reveal_strlit("incr");
    reveal_strlit("watch");
    reveal_strlit("info");
    assert("info"@[0] != "ping"@[0]);
    assert("info"@[0] != "echo"@[0]);
    assert("info"@.len() != "set"@.len());
    assert("info"@.len() != "get"@.len());
    assert("info"@.len() != "rpush"@.len());
    assert("info"@.len() != "lrange"@.len());
    assert("info"@.len() != "lpush"@.len());
    assert("info"@[0] != "llen"@[0]);
    assert("info"@[0] != "lpop"@[0]);
    assert("info"@.len() != "blpop"@.len());
    assert("info"@[0] != "type"@[0]);
    assert("info"@[0] != "xadd"@[0]);
    assert("info"@.len() != "xrange"@.len());
    assert("info"@.len() != "xread"@.len());
    assert("info"@[2] != "incr"@[2]);
    assert("info"@.len() != "watch"@.len());
}

/// What `REPLCONF` stands for.
pub(crate) proof fn lemma_replconf(args: Seq<ValueView>)
    ensures
        request_of("replconf"@, args) == Some(
            RequestView::ReplConf {
                get_ack: lowercase(
                    match bulk(args, 0) {
                        Some(s) => s,
                        None => Seq::empty(),
                    },
                ) == "getack"@,
            },
        ),
{
    reveal_strlit("ping");
    reveal_strlit("echo");
    reveal_strlit("set");
    reveal_strlit("get");
    reveal_strlit("rpush");
    reveal_strlit("lrange");
    reveal_strlit("lpush");
    reveal_strlit("llen");
    reveal_strlit("lpop");
    reveal_strlit("blpop");
    reveal_strlit("type");
    reveal_strlit("xadd");
    reveal_strlit("xrange");
    reveal_strlit("xread");
    reveal_strlit("incr");
    reveal_strlit("watch");
    reveal_strlit("info");
    reveal_strlit("replconf");
    assert("replconf"@.len() != "ping"@.len());
    assert("replconf"@.len() != "echo"@.len());
    assert("replconf"@.len() != "set"@.len());
    assert("replconf"@.len() != "get"@.len());
    assert("replconf"@.len() != "rpush"@.len());
    assert("replconf"@.len() != "lrange"@.len());
    assert("replconf"@.len() != "lpush"@.len());
    assert("replconf"@.len() != "llen"@.len());
    assert("replconf"@.len() != "lpop"@.len());
    assert("replconf"@.len() != "blpop"@.len());
    assert("replconf"@.len() != "type"@.len());
    assert("replconf"@.len() != "xadd"@.len());
    assert("replconf"@.len() != "xrange"@.len());
    assert("replconf"@.len() != "xread"@.len());
    assert("replconf"@.len() != "incr"@.len());
    assert("replconf"@.len() != "watch"@.len());
    assert("replconf"@.len() != "info"@.len());
}

/// What `PSYNC` stands for.
pub(crate) proof fn lemma_psync(args: Seq<ValueView>)
    ensures
        request_of("psync"@, args) == Some(RequestView::PSync),
{
    reveal_strlit("ping");
    reveal_strlit("echo");
    reveal_strlit("set");
    reveal_strlit("get");
    reveal_strlit("rpush");
    reveal_strlit("lrange");
    reveal_strlit("lpush");
    reveal_strlit("llen");
    reveal_strlit("lpop");
    reveal_strlit("blpop");
    reveal_strlit("type");
    reveal_strlit("xadd");
    reveal_strlit("xrange");
    reveal_strlit("xread");
    reveal_strlit("incr");
    reveal_strlit("watch");
    reveal_strlit("info");
    reveal_strlit("replconf");
    reveal_strlit("psync");
    assert("psync"@.len() != "ping"@.len());
    assert("psync"@.len() != "echo"@.len());
    assert("psync"@.len() != "set"@.len());
    assert("psync"@.len() != "get"@.len());
    assert("psync"@[0] != "rpush"@[0]);
    assert("psync"@.len() != "lrange"@.len());
    assert("psync"@[0] != "lpush"@[0]);
    assert("psync"@.len() != "llen"@.len());
    assert("psync"@.len() != "lpop"@.len());
    assert("psync"@[0] != "blpop"@[0]);
    assert("psync"@.len() != "type"@.len());
    assert("psync"@.len() != "xadd"@.len());
    assert("psync"@.len() != "xrange"@.len());
    assert("psync"@[0] != "xread"@[0]);
    assert("psync"@.len() != "incr"@.len());
    assert("psync"@[0] != "watch"@[0]);
    assert("psync"@.len() != "info"@.len());
    assert("psync"@.len() != "replconf"@.len());
}

/// What `WAIT` stands for.
pub(crate) proof fn lemma_wait(args: Seq<ValueView>)
    ensures
        request_of("wait"@, args) == Some(wait_request(args)),
{
    reveal_strlit("ping");
    reveal_strlit("echo");
    reveal_strlit("set");
    reveal_strlit("get");
    reveal_strlit("rpush");
    reveal_strlit("lrange");
    reveal_strlit("lpush");
    reveal_strlit("llen");
    reveal_strlit("lpop");
    reveal_strlit("blpop");
    reveal_strlit("type");
    reveal_strlit("xadd");
    reveal_strlit("xrange");
    reveal_strlit("xread");
    reveal_strlit("incr");
    reveal_strlit("watch");
    reveal_strlit("info");
    reveal_strlit("replconf");
    reveal_strlit("psync");
    reveal_strlit("wait");
    assert("wait"@[0] != "ping"@[0]);
    assert("wait"@[0] != "echo"@[0]);
    assert("wait"@.len() != "set"@.len());
    assert("wait"@.len() != "get"@.len());
    assert("wait"@.len() != "rpush"@.len());
    assert("wait"@.len() != "lrange"@.len());
    assert("wait"@.len() != "lpush"@.len());
    assert("wait"@[0] != "llen"@[0]);
    assert("wait"@[0] != "lpop"@[0]);
    assert("wait"@.len() != "blpop"@.len());
    assert("wait"@[0] != "type"@[0]);
    assert("wait"@[0] != "xadd"@[0]);
    assert("wait"@.len() != "xrange"@.len());
    assert("wait"@.len() != "xread"@.len());
    assert("wait"@[0] != "incr"@[0]);
    assert("wait"@.len() != "watch"@.len());
    assert("wait"@[0] != "info"@[0]);
    assert("wait"@.len() != "replconf"@.len());
    assert("wait"@.len() != "psync"@.len());
}

} // verus!
