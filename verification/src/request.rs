//! From the values that a client sends to the request that they stand for.

use crate::resp::{views, Value, ValueView};
use crate::store::{pair_texts, parse_id, read_id, texts};
use crate::text::{
    lowercase, no_capitals, parse_i64, parse_u64, parse_usize, same_text, split_at_hyphen,
    split_hyphen, to_i64, to_lower, to_u64, to_usize, trim, trimmed,
};
use vstd::prelude::*;
use vstd::utf8::is_ascii_chars;

verus! {

// ---------------------------------------------------------------------------
// Commands and bulk strings
// ---------------------------------------------------------------------------

/// Why a value is not a command.
#[derive(Debug, Clone, Copy, PartialEq, Eq)]
pub enum CommandError {
    /// The value is not an array.
    UnexpectedFormat,
    /// The name of the command is not a bulk string.
    ExpectedBulkString,
}

impl CommandError {
    /// The error in words.
    pub fn message(&self) -> (r: String)
        ensures
            r@ == match self {
                CommandError::UnexpectedFormat => "Unexpected command format"@,
                CommandError::ExpectedBulkString => "Expected command to be a bulk string"@,
            },
    {
        match self {
            CommandError::UnexpectedFormat => "Unexpected command format".to_string(),
            CommandError::ExpectedBulkString => "Expected command to be a bulk string".to_string(),
        }
    }
}

/// The text of a bulk string.
pub fn unpack_bulk_str(value: Value) -> (r: Result<String, CommandError>)
    ensures
        match value {
            Value::BulkString(s) => r == Ok::<String, CommandError>(s),
            _ => r == Err::<String, CommandError>(CommandError::ExpectedBulkString),
        },
{
    match value {
        Value::BulkString(s) => Ok(s),
        _ => Err(CommandError::ExpectedBulkString),
    }
}

/// The name, in lower case, and the arguments of a command.
pub open spec fn command_of(value: ValueView) -> Result<
    (Seq<char>, Seq<ValueView>),
    CommandError,
> {
    match value {
        ValueView::Array(a) => match a[0] {
            ValueView::BulkString(name) => Ok((lowercase(name), a.skip(1))),
            _ => Err(CommandError::ExpectedBulkString),
        },
        _ => Err(CommandError::UnexpectedFormat),
    }
}

/// The command with a name and arguments.
pub open spec fn built_command(name: Seq<char>, args: Seq<ValueView>) -> ValueView {
    ValueView::Array(seq![ValueView::BulkString(name)] + args)
}

/// A command that is built from a name in lower case and arguments is taken apart
/// into that name and those arguments.
pub proof fn law_built_command_comes_apart(name: Seq<char>, args: Seq<ValueView>)
    requires
        lowercase(name) == name,
    ensures
        command_of(built_command(name, args)) == Ok::<(Seq<char>, Seq<ValueView>), CommandError>(
            (name, args),
        ),
{
    let items = seq![ValueView::BulkString(name)] + args;
    assert(items[0] == ValueView::BulkString(name));
    assert(items.skip(1) =~= args);
}

/// An ASCII text without capital letters is in lower case.
pub proof fn lemma_lowered(s: Seq<char>)
    requires
        is_ascii_chars(s),
        no_capitals(s),
    ensures
        lowercase(s) == s,
{
    assert(lowercase(s) =~= s);
}

/// Splits a command into its name, in lower case, and its arguments. An array
/// has to hold a name.
///
/// Where the name that comes out is ASCII, a command that is built again from what
/// came out splits into the same.
pub fn extract_command(value: Value) -> (r: Result<(String, Vec<Value>), CommandError>)
    requires
        value@ matches ValueView::Array(a) ==> a.len() > 0,
    ensures
        match r {
            Ok((name, args)) => command_of(value@) == Ok::<
                (Seq<char>, Seq<ValueView>),
                CommandError,
            >((name@, views(args@))) && (is_ascii_chars(name@) ==> command_of(
                built_command(name@, views(args@)),
            ) == command_of(value@)),
            Err(e) => command_of(value@) == Err::<(Seq<char>, Seq<ValueView>), CommandError>(e),
        },
{
    match value {
        Value::Array(a) => {
            proof {
                crate::resp::lemma_array_view(a);
            }
            let mut args = a;
            let raw = unpack_bulk_str(args.remove(0));
            proof {
                assert(views(args@) =~= views(a@).skip(1));
            }
            match raw {
                Ok(name) => {
                    let lower = to_lower(name.as_str());
                    proof {
                        if is_ascii_chars(lower@) {
                            lemma_lowered(lower@);
                            law_built_command_comes_apart(lower@, views(args@));
                        }
                    }
                    Ok((lower, args))
                },
                Err(e) => Err(e),
            }
        },
        _ => Err(CommandError::UnexpectedFormat),
    }
}

/// The text of the bulk string at a place of a row.
pub open spec fn bulk(args: Seq<ValueView>, i: int) -> Option<Seq<char>> {
    if 0 <= i < args.len() {
        match args[i] {
            ValueView::BulkString(s) => Some(s),
            _ => None,
        }
    } else {
        None
    }
}

/// The text of the bulk string at a place of a row.
pub fn bulk_at(args: &Vec<Value>, i: usize) -> (r: Option<&str>)
    ensures
        match r {
            Some(s) => bulk(views(args@), i as int) == Some(s@),
            None => bulk(views(args@), i as int) is None,
        },
{
    if i < args.len() {
        match &args[i] {
            Value::BulkString(s) => Some(s.as_str()),
            _ => None,
        }
    } else {
        None
    }
}

/// The texts of the bulk strings of a row; other values are passed over.
pub open spec fn bulk_texts(args: Seq<ValueView>) -> Seq<Seq<char>>
    decreases args.len(),
{
    if args.len() == 0 {
        Seq::empty()
    } else {
        match args.last() {
            ValueView::BulkString(s) => bulk_texts(args.drop_last()).push(s),
            _ => bulk_texts(args.drop_last()),
        }
    }
}

/// The texts of the bulk strings from a place of a row on.
pub fn bulk_strings(args: &Vec<Value>, from: usize) -> (r: Vec<String>)
    requires
        from <= args.len(),
    ensures
        texts(r@) == bulk_texts(views(args@).skip(from as int)),
{
    let ghost all = views(args@).skip(from as int);
    let mut out: Vec<String> = Vec::new();
    let n = args.len();
    proof {
        assert(texts(out@) =~= bulk_texts(all.take(0)));
    }
    let mut i: usize = from;
    while i < n
        invariant
            from <= i <= n,
            n == args.len(),
            all == views(args@).skip(from as int),
            texts(out@) == bulk_texts(all.take(i - from)),
        decreases n - i,
    {
        proof {
            assert(all.take(i - from + 1).drop_last() =~= all.take(i - from));
            assert(all.take(i - from + 1).last() == args@[i as int]@);
        }
        let ghost before = out@;
        match &args[i] {
            Value::BulkString(s) => {
                out.push(s.clone());
                proof {
                    assert(texts(out@) =~= texts(before).push(s@));
                }
            },
            _ => {},
        }
        i += 1;
    }
    proof {
        assert(all.take(n - from) =~= all);
    }
    out
}

// ---------------------------------------------------------------------------
// Requests
// ---------------------------------------------------------------------------

/// The id that a new stream entry is to get.
#[derive(Debug)]
pub enum NewId {
    /// The current time and the next sequence number.
    Now,
    /// The given milliseconds and the next sequence number.
    At(u64),
    /// An id as the client wrote it.
    Explicit(String),
}

/// What a [`NewId`] holds.
pub enum NewIdView {
    Now,
    At(u64),
    Explicit(Seq<char>),
}

impl View for NewId {
    type V = NewIdView;

    open spec fn view(&self) -> NewIdView {
        match self {
            NewId::Now => NewIdView::Now,
            NewId::At(ms) => NewIdView::At(*ms),
            NewId::Explicit(id) => NewIdView::Explicit(id@),
        }
    }
}

/// A stream to read, and the id after which to read it; without an id, what is
/// added from now on.
#[derive(Debug)]
pub struct ReadFrom {
    pub key: String,
    pub after: Option<(u64, u64)>,
}

/// What a [`ReadFrom`] holds.
pub struct ReadFromView {
    pub key: Seq<char>,
    pub after: Option<(u64, u64)>,
}

impl View for ReadFrom {
    type V = ReadFromView;

    open spec fn view(&self) -> ReadFromView {
        ReadFromView { key: self.key@, after: self.after }
    }
}

/// A request with its arguments read.
#[derive(Debug)]
pub enum Request {
    Ping,
    Echo(Value),
    SetKey { key: String, value: String, expiry_ms: Option<u64> },
    Get { key: String },
    RPush { key: String, items: Vec<String> },
    LPush { key: String, items: Vec<String> },
    LRange { key: String, start: i64, stop: i64 },
    LLen { key: String },
    LPop { key: String, count: Option<usize> },
    BLPop { keys: Vec<String>, timeout: String },
    Type { key: String },
    XAdd { key: String, id: NewId, fields: Vec<(String, String)> },
    XRange { key: String, first: (u64, u64), last: (u64, u64) },
    XRead { block_ms: Option<u64>, streams: Vec<ReadFrom> },
    Incr { key: String },
    Watch,
    Info,
    /// `REPLCONF`, and whether it asks for an acknowledgement.
    ReplConf { get_ack: bool },
    PSync,
    Wait { num_replicas: usize, timeout_ms: u64 },
    /// Arguments or a name that are answered with an error.
    Refused { message: String },
}

/// What a [`Request`] holds.
pub enum RequestView {
    Ping,
    Echo(ValueView),
    SetKey { key: Seq<char>, value: Seq<char>, expiry_ms: Option<u64> },
    Get { key: Seq<char> },
    RPush { key: Seq<char>, items: Seq<Seq<char>> },
    LPush { key: Seq<char>, items: Seq<Seq<char>> },
    LRange { key: Seq<char>, start: i64, stop: i64 },
    LLen { key: Seq<char> },
    LPop { key: Seq<char>, count: Option<usize> },
    BLPop { keys: Seq<Seq<char>>, timeout: Seq<char> },
    Type { key: Seq<char> },
    XAdd { key: Seq<char>, id: NewIdView, fields: Seq<(Seq<char>, Seq<char>)> },
    XRange { key: Seq<char>, first: (u64, u64), last: (u64, u64) },
    XRead { block_ms: Option<u64>, streams: Seq<ReadFromView> },
    Incr { key: Seq<char> },
    Watch,
    Info,
    ReplConf { get_ack: bool },
    PSync,
    Wait { num_replicas: usize, timeout_ms: u64 },
    Refused { message: Seq<char> },
}

/// What a row of streams to read holds.
pub open spec fn read_from_views(s: Seq<ReadFrom>) -> Seq<ReadFromView> {
    s.map_values(|x: ReadFrom| x@)
}

impl View for Request {
    type V = RequestView;

    open spec fn view(&self) -> RequestView {
        match self {
            Request::Ping => RequestView::Ping,
            Request::Echo(v) => RequestView::Echo(v@),
            Request::SetKey { key, value, expiry_ms } => RequestView::SetKey {
                key: key@,
                value: value@,
                expiry_ms: *expiry_ms,
            },
            Request::Get { key } => RequestView::Get { key: key@ },
            Request::RPush { key, items } => RequestView::RPush {
                key: key@,
                items: texts(items@),
            },
            Request::LPush { key, items } => RequestView::LPush {
                key: key@,
                items: texts(items@),
            },
            Request::LRange { key, start, stop } => RequestView::LRange {
                key: key@,
                start: *start,
                stop: *stop,
            },
            Request::LLen { key } => RequestView::LLen { key: key@ },
            Request::LPop { key, count } => RequestView::LPop { key: key@, count: *count },
            Request::BLPop { keys, timeout } => RequestView::BLPop {
                keys: texts(keys@),
                timeout: timeout@,
            },
            Request::Type { key } => RequestView::Type { key: key@ },
            Request::XAdd { key, id, fields } => RequestView::XAdd {
                key: key@,
                id: id@,
                fields: pair_texts(fields@),
            },
            Request::XRange { key, first, last } => RequestView::XRange {
                key: key@,
                first: *first,
                last: *last,
            },
            Request::XRead { block_ms, streams } => RequestView::XRead {
                block_ms: *block_ms,
                streams: read_from_views(streams@),
            },
            Request::Incr { key } => RequestView::Incr { key: key@ },
            Request::Watch => RequestView::Watch,
            Request::Info => RequestView::Info,
            Request::ReplConf { get_ack } => RequestView::ReplConf { get_ack: *get_ack },
            Request::PSync => RequestView::PSync,
            Request::Wait { num_replicas, timeout_ms } => RequestView::Wait {
                num_replicas: *num_replicas,
                timeout_ms: *timeout_ms,
            },
            Request::Refused { message } => RequestView::Refused { message: message@ },
        }
    }
}

// ---------------------------------------------------------------------------
// SET
// ---------------------------------------------------------------------------

/// The life time that the option of a `SET` asks for, given the option in lower
/// case and the value behind it. Only `px` asks for one, and what it is followed
/// by has to be a bulk string.
pub open spec fn set_expiry(option: Seq<char>, arg: ValueView) -> Option<Option<u64>> {
    if option == "px"@ {
        match arg {
            ValueView::BulkString(ms) => Some(to_u64(trim(ms))),
            _ => None,
        }
    } else {
        Some(None)
    }
}

/// `SET key value [option argument]`.
pub open spec fn set_request(args: Seq<ValueView>) -> Option<RequestView> {
    match (bulk(args, 0), bulk(args, 1)) {
        (Some(key), Some(value)) => {
            let expiry = if args.len() >= 4 {
                match bulk(args, 2) {
                    Some(option) => set_expiry(lowercase(trim(option)), args[3]),
                    None => None,
                }
            } else {
                Some(None)
            };
            match expiry {
                Some(expiry_ms) => Some(RequestView::SetKey { key, value, expiry_ms }),
                None => None,
            }
        },
        _ => None,
    }
}

/// The life time that the option of a `SET` asks for.
pub fn read_set_expiry(option: &str, arg: &Value) -> (r: Option<Option<u64>>)
    ensures
        r == set_expiry(option@, arg@),
{
    if same_text(option, "px") {
        match arg {
            Value::BulkString(ms) => Some(parse_u64(trimmed(ms.as_str()))),
            _ => None,
        }
    } else {
        Some(None)
    }
}

/// Whether a reading is what a specification says.
pub open spec fn reads(r: Option<Request>, spec: Option<RequestView>) -> bool {
    match r {
        Some(q) => spec == Some(q@),
        None => spec is None,
    }
}

fn read_set(args: &Vec<Value>) -> (r: Option<Request>)
    ensures
        reads(r, set_request(views(args@))),
{
    match (bulk_at(args, 0), bulk_at(args, 1)) {
        (Some(key), Some(value)) => {
            let expiry = if args.len() >= 4 {
                match bulk_at(args, 2) {
                    Some(option) => {
                        let lower = to_lower(trimmed(option));
                        read_set_expiry(lower.as_str(), &args[3])
                    },
                    None => None,
                }
            } else {
                Some(None)
            };
            match expiry {
                Some(expiry_ms) => Some(
                    Request::SetKey { key: key.to_string(), value: value.to_string(), expiry_ms },
                ),
                None => None,
            }
        },
        _ => None,
    }
}

// ---------------------------------------------------------------------------
// Lists
// ---------------------------------------------------------------------------

/// `LRANGE key start stop`.
pub open spec fn lrange_request(args: Seq<ValueView>) -> Option<RequestView> {
    match (bulk(args, 0), bulk(args, 1), bulk(args, 2)) {
        (Some(key), Some(a), Some(b)) => match (to_i64(a), to_i64(b)) {
            (Some(start), Some(stop)) => Some(RequestView::LRange { key, start, stop }),
            _ => None,
        },
        _ => None,
    }
}

fn read_lrange(args: &Vec<Value>) -> (r: Option<Request>)
    ensures
        reads(r, lrange_request(views(args@))),
{
    match (bulk_at(args, 0), bulk_at(args, 1), bulk_at(args, 2)) {
        (Some(key), Some(a), Some(b)) => match (parse_i64(a), parse_i64(b)) {
            (Some(start), Some(stop)) => Some(
                Request::LRange { key: key.to_string(), start, stop },
            ),
            _ => None,
        },
        _ => None,
    }
}

/// `LPOP key [count]`.
pub open spec fn lpop_request(args: Seq<ValueView>) -> Option<RequestView> {
    match bulk(args, 0) {
        Some(key) => if args.len() >= 2 {
            match bulk(args, 1) {
                Some(count) => match to_usize(count) {
                    Some(n) => Some(RequestView::LPop { key, count: Some(n) }),
                    None => None,
                },
                None => None,
            }
        } else {
            Some(RequestView::LPop { key, count: None })
        },
        None => None,
    }
}

fn read_lpop(args: &Vec<Value>) -> (r: Option<Request>)
    ensures
        reads(r, lpop_request(views(args@))),
{
    match bulk_at(args, 0) {
        Some(key) => if args.len() >= 2 {
            match bulk_at(args, 1) {
                Some(count) => match parse_usize(count) {
                    Some(n) => Some(Request::LPop { key: key.to_string(), count: Some(n) }),
                    None => None,
                },
                None => None,
            }
        } else {
            Some(Request::LPop { key: key.to_string(), count: None })
        },
        None => None,
    }
}

/// Whether each of the values from one place of a row up to another is a bulk
/// string.
pub open spec fn all_bulk(args: Seq<ValueView>, from: int, to: int) -> bool {
    forall|i: int| from <= i < to ==> (#[trigger] bulk(args, i)) is Some
}

/// `BLPOP key ... timeout`.
pub open spec fn blpop_request(args: Seq<ValueView>) -> Option<RequestView> {
    let n = args.len() as int;
    if n > 0 && all_bulk(args, 0, n) {
        Some(
            RequestView::BLPop {
                keys: Seq::new((n - 1) as nat, |i: int| bulk(args, i)->0),
                timeout: bulk(args, n - 1)->0,
            },
        )
    } else {
        None
    }
}

fn read_blpop(args: &Vec<Value>) -> (r: Option<Request>)
    ensures
        reads(r, blpop_request(views(args@))),
{
    let n = args.len();
    if n == 0 {
        return None;
    }
    let ghost spec = views(args@);
    let timeout = match bulk_at(args, n - 1) {
        Some(t) => t.to_string(),
        None => {
            return None;
        },
    };
    let mut keys: Vec<String> = Vec::new();
    let mut i: usize = 0;
    while i < n - 1
        invariant
            i <= n - 1,
            n == args.len(),
            spec == views(args@),
            keys.len() == i,
            all_bulk(spec, 0, i as int),
            forall|k: int| 0 <= k < i ==> (#[trigger] keys@[k])@ == bulk(spec, k)->0,
        decreases n - i,
    {
        match bulk_at(args, i) {
            Some(key) => {
                keys.push(key.to_string());
            },
            None => {
                return None;
            },
        }
        i += 1;
    }
    proof {
        assert(texts(keys@) =~= Seq::new((n - 1) as nat, |i: int| bulk(spec, i)->0));
        assert(all_bulk(spec, 0, n as int)) by {
            assert forall|k: int| 0 <= k < n implies (#[trigger] bulk(spec, k)) is Some by {
                if k < n - 1 {
                    assert(bulk(spec, k) is Some);
                }
            }
        }
    }
    Some(Request::BLPop { keys, timeout })
}

// ---------------------------------------------------------------------------
// Streams
// ---------------------------------------------------------------------------

/// The id that an `XADD` asks for: `*`, milliseconds and `*`, or milliseconds and
/// a text, which need not be a number.
pub open spec fn new_id(id: Seq<char>) -> Option<NewIdView> {
    if id == "*"@ {
        Some(NewIdView::Now)
    } else {
        match split_hyphen(id) {
            Some((first, second)) => match to_u64(first) {
                Some(ms) => if second == "*"@ {
                    Some(NewIdView::At(ms))
                } else {
                    Some(NewIdView::Explicit(id))
                },
                None => None,
            },
            None => None,
        }
    }
}

fn read_new_id(id: &str) -> (r: Option<NewId>)
    ensures
        match r {
            Some(q) => new_id(id@) == Some(q@),
            None => new_id(id@) is None,
        },
{
    if same_text(id, "*") {
        Some(NewId::Now)
    } else {
        match split_at_hyphen(id) {
            Some((first, second)) => match parse_u64(first) {
                Some(ms) => if same_text(second, "*") {
                    Some(NewId::At(ms))
                } else {
                    Some(NewId::Explicit(id.to_string()))
                },
                None => None,
            },
            None => None,
        }
    }
}

/// The fields of a new entry: the values in pairs, each of them a bulk string. A
/// last value without a partner is passed over.
pub open spec fn entry_fields(args: Seq<ValueView>) -> Option<Seq<(Seq<char>, Seq<char>)>> {
    let n = args.len() / 2;
    if all_bulk(args, 0, 2 * n as int) {
        Some(Seq::new(n, |i: int| (bulk(args, 2 * i)->0, bulk(args, 2 * i + 1)->0)))
    } else {
        None
    }
}

fn read_entry_fields(args: &Vec<Value>, from: usize) -> (r: Option<Vec<(String, String)>>)
    requires
        from <= args.len(),
    ensures
        match r {
            Some(fields) => entry_fields(views(args@).skip(from as int)) == Some(
                pair_texts(fields@),
            ),
            None => entry_fields(views(args@).skip(from as int)) is None,
        },
{
    let ghost all = views(args@);
    let ghost spec = all.skip(from as int);
    let n = (args.len() - from) / 2;
    let mut fields: Vec<(String, String)> = Vec::new();
    let mut i: usize = 0;
    while i < n
        invariant
            i <= n,
            n == (args.len() - from) / 2,
            from <= args.len(),
            all == views(args@),
            spec == all.skip(from as int),
            fields.len() == i,
            all_bulk(spec, 0, 2 * i),
            forall|k: int|
                #![trigger fields@[k]]
                0 <= k < i ==> fields@[k].0@ == bulk(spec, 2 * k)->0 && fields@[k].1@ == bulk(
                    spec,
                    2 * k + 1,
                )->0,
        decreases n - i,
    {
        proof {
            assert(bulk(spec, 2 * i) == bulk(all, from + 2 * i));
            assert(bulk(spec, 2 * i + 1) == bulk(all, from + 2 * i + 1));
        }
        match (bulk_at(args, from + 2 * i), bulk_at(args, from + 2 * i + 1)) {
            (Some(k), Some(v)) => {
                fields.push((k.to_string(), v.to_string()));
            },
            _ => {
                return None;
            },
        }
        i += 1;
    }
    proof {
        assert(pair_texts(fields@) =~= Seq::new(
            n as nat,
            |i: int| (bulk(spec, 2 * i)->0, bulk(spec, 2 * i + 1)->0),
        ));
    }
    Some(fields)
}

/// `XADD key id field value ...`.
pub open spec fn xadd_request(args: Seq<ValueView>) -> Option<RequestView> {
    match (bulk(args, 0), bulk(args, 1)) {
        (Some(key), Some(id)) => match (new_id(id), entry_fields(args.skip(2))) {
            (Some(id), Some(fields)) => Some(RequestView::XAdd { key, id, fields }),
            _ => None,
        },
        _ => None,
    }
}

fn read_xadd(args: &Vec<Value>) -> (r: Option<Request>)
    ensures
        reads(r, xadd_request(views(args@))),
{
    match (bulk_at(args, 0), bulk_at(args, 1)) {
        (Some(key), Some(id)) => match (read_new_id(id), read_entry_fields(args, 2)) {
            (Some(id), Some(fields)) => Some(Request::XAdd { key: key.to_string(), id, fields }),
            _ => None,
        },
        _ => None,
    }
}

/// The lower end of a range of ids: `-` is the lowest, and milliseconds alone
/// start with the lowest sequence number.
pub open spec fn range_start(s: Seq<char>) -> Option<(u64, u64)> {
    if s == "-"@ {
        Some((0u64, 0u64))
    } else if s.contains('-') {
        parse_id(s)
    } else {
        match to_u64(s) {
            Some(ms) => Some((ms, 0u64)),
            None => None,
        }
    }
}

/// The upper end of a range of ids: `+` is the highest, and milliseconds alone
/// end with the highest sequence number.
pub open spec fn range_end(s: Seq<char>) -> Option<(u64, u64)> {
    if s == "+"@ {
        Some((u64::MAX, u64::MAX))
    } else if s.contains('-') {
        parse_id(s)
    } else {
        match to_u64(s) {
            Some(ms) => Some((ms, u64::MAX)),
            None => None,
        }
    }
}

fn read_range_start(s: &str) -> (r: Option<(u64, u64)>)
    ensures
        r == range_start(s@),
{
    if same_text(s, "-") {
        Some((0, 0))
    } else if split_at_hyphen(s).is_some() {
        read_id(s)
    } else {
        match parse_u64(s) {
            Some(ms) => Some((ms, 0)),
            None => None,
        }
    }
}

fn read_range_end(s: &str) -> (r: Option<(u64, u64)>)
    ensures
        r == range_end(s@),
{
    if same_text(s, "+") {
        Some((u64::MAX, u64::MAX))
    } else if split_at_hyphen(s).is_some() {
        read_id(s)
    } else {
        match parse_u64(s) {
            Some(ms) => Some((ms, u64::MAX)),
            None => None,
        }
    }
}

/// `XRANGE key start end`.
pub open spec fn xrange_request(args: Seq<ValueView>) -> Option<RequestView> {
    match (bulk(args, 0), bulk(args, 1), bulk(args, 2)) {
        (Some(key), Some(a), Some(b)) => match (range_start(a), range_end(b)) {
            (Some(first), Some(last)) => Some(RequestView::XRange { key, first, last }),
            _ => None,
        },
        _ => None,
    }
}

fn read_xrange(args: &Vec<Value>) -> (r: Option<Request>)
    ensures
        reads(r, xrange_request(views(args@))),
{
    match (bulk_at(args, 0), bulk_at(args, 1), bulk_at(args, 2)) {
        (Some(key), Some(a), Some(b)) => match (read_range_start(a), read_range_end(b)) {
            (Some(first), Some(last)) => Some(
                Request::XRange { key: key.to_string(), first, last },
            ),
            _ => None,
        },
        _ => None,
    }
}

/// The id after which a stream is to be read; `$` stands for the last one that
/// the stream has.
pub open spec fn read_after(id: Seq<char>) -> Option<Option<(u64, u64)>> {
    if id == "$"@ {
        Some(None)
    } else {
        match parse_id(id) {
            Some(p) => Some(Some(p)),
            None => None,
        }
    }
}

/// The streams of an `XREAD`: the first half of the values are the keys, and as
/// many that follow them are the ids. A value left over is passed over.
pub open spec fn read_streams_of(args: Seq<ValueView>) -> Option<Seq<ReadFromView>> {
    let n = (args.len() / 2) as int;
    if all_bulk(args, 0, 2 * n) && (forall|i: int|
        0 <= i < n ==> read_after((#[trigger] bulk(args, n + i))->0) is Some) {
        Some(
            Seq::new(
                n as nat,
                |i: int|
                    ReadFromView {
                        key: bulk(args, i)->0,
                        after: read_after(bulk(args, n + i)->0)->0,
                    },
            ),
        )
    } else {
        None
    }
}

fn read_streams(args: &Vec<Value>, from: usize) -> (r: Option<Vec<ReadFrom>>)
    requires
        from <= args.len(),
    ensures
        match r {
            Some(streams) => read_streams_of(views(args@).skip(from as int)) == Some(
                read_from_views(streams@),
            ),
            None => read_streams_of(views(args@).skip(from as int)) is None,
        },
{
    let ghost all = views(args@);
    let ghost spec = all.skip(from as int);
    let n = (args.len() - from) / 2;
    let mut streams: Vec<ReadFrom> = Vec::new();
    let mut i: usize = 0;
    while i < n
        invariant
            i <= n,
            n == (args.len() - from) / 2,
            from <= args.len(),
            all == views(args@),
            spec == all.skip(from as int),
            streams.len() == i,
            forall|k: int| 0 <= k < i ==> (#[trigger] bulk(spec, k)) is Some,
            forall|k: int| 0 <= k < i ==> (#[trigger] bulk(spec, n + k)) is Some,
            forall|k: int| 0 <= k < i ==> read_after((#[trigger] bulk(spec, n + k))->0) is Some,
            forall|k: int|
                #![trigger streams@[k]]
                0 <= k < i ==> streams@[k].key@ == bulk(spec, k)->0 && streams@[k].after
                    == read_after(bulk(spec, n + k)->0)->0,
        decreases n - i,
    {
        proof {
            assert(bulk(spec, i as int) == bulk(all, from + i));
            assert(bulk(spec, n + i) == bulk(all, from + n + i));
        }
        match (bulk_at(args, from + i), bulk_at(args, from + n + i)) {
            (Some(key), Some(id)) => {
                let after = if same_text(id, "$") {
                    None
                } else {
                    match read_id(id) {
                        Some(p) => Some(p),
                        None => {
                            return None;
                        },
                    }
                };
                streams.push(ReadFrom { key: key.to_string(), after });
            },
            _ => {
                return None;
            },
        }
        i += 1;
    }
    proof {
        assert(all_bulk(spec, 0, 2 * n)) by {
            assert forall|k: int| 0 <= k < 2 * n implies (#[trigger] bulk(spec, k)) is Some by {
                if k >= n {
                    assert(bulk(spec, n + (k - n)) is Some);
                }
            }
        }
        assert(read_from_views(streams@) =~= read_streams_of(spec)->0);
    }
    Some(streams)
}

/// `XREAD [BLOCK ms] STREAMS key ... id ...`, given whether the first argument is
/// the word `block`. The word before the keys is not looked at.
pub open spec fn xread_request(is_block: bool, args: Seq<ValueView>) -> Option<RequestView> {
    if is_block {
        match bulk(args, 1) {
            Some(text) => match to_u64(text) {
                Some(ms) => if args.len() >= 3 {
                    match read_streams_of(args.skip(3)) {
                        Some(streams) => Some(RequestView::XRead { block_ms: Some(ms), streams }),
                        None => None,
                    }
                } else {
                    None
                },
                None => None,
            },
            None => None,
        }
    } else {
        match read_streams_of(args.skip(1)) {
            Some(streams) => Some(RequestView::XRead { block_ms: None, streams }),
            None => None,
        }
    }
}

/// Reads the arguments of an `XREAD`, given whether the first one is the word
/// `block`.
pub fn read_xread(is_block: bool, args: &Vec<Value>) -> (r: Option<Request>)
    requires
        args.len() > 0,
    ensures
        reads(r, xread_request(is_block, views(args@))),
{
    if is_block {
        match bulk_at(args, 1) {
            Some(text) => match parse_u64(text) {
                Some(ms) => if args.len() >= 3 {
                    match read_streams(args, 3) {
                        Some(streams) => Some(Request::XRead { block_ms: Some(ms), streams }),
                        None => None,
                    }
                } else {
                    None
                },
                None => None,
            },
            None => None,
        }
    } else {
        match read_streams(args, 1) {
            Some(streams) => Some(Request::XRead { block_ms: None, streams }),
            None => None,
        }
    }
}

// ---------------------------------------------------------------------------
// Replication
// ---------------------------------------------------------------------------

/// The first argument of a `REPLCONF`, or no text where it is not a bulk string.
pub open spec fn replconf_word(args: Seq<ValueView>) -> Seq<char> {
    match bulk(args, 0) {
        Some(s) => s,
        None => Seq::empty(),
    }
}

/// The first argument of a `REPLCONF` in lower case.
fn read_replconf_word(args: &Vec<Value>) -> (r: String)
    ensures
        r@ == lowercase(replconf_word(views(args@))),
{
    match bulk_at(args, 0) {
        Some(s) => to_lower(s),
        None => to_lower(String::new().as_str()),
    }
}

/// `WAIT numreplicas timeout`; other arguments are answered with an error.
pub open spec fn wait_request(args: Seq<ValueView>) -> RequestView {
    match bulk(args, 0) {
        Some(a) => match to_usize(a) {
            Some(num_replicas) => match bulk(args, 1) {
                Some(b) => match to_u64(b) {
                    Some(timeout_ms) => RequestView::Wait { num_replicas, timeout_ms },
                    None => RequestView::Refused {
                        message: "ERR value is not an integer or out of range"@,
                    },
                },
                None => RequestView::Refused {
                    message: "ERR wrong number of arguments for 'wait' command"@,
                },
            },
            None => RequestView::Refused {
                message: "ERR value is not an integer or out of range"@,
            },
        },
        None => RequestView::Refused {
            message: "ERR wrong number of arguments for 'wait' command"@,
        },
    }
}

fn read_wait(args: &Vec<Value>) -> (r: Request)
    ensures
        r@ == wait_request(views(args@)),
{
    match bulk_at(args, 0) {
        Some(a) => match parse_usize(a) {
            Some(num_replicas) => match bulk_at(args, 1) {
                Some(b) => match parse_u64(b) {
                    Some(timeout_ms) => Request::Wait { num_replicas, timeout_ms },
                    None => Request::Refused {
                        message: "ERR value is not an integer or out of range".to_string(),
                    },
                },
                None => Request::Refused {
                    message: "ERR wrong number of arguments for 'wait' command".to_string(),
                },
            },
            None => Request::Refused {
                message: "ERR value is not an integer or out of range".to_string(),
            },
        },
        None => Request::Refused {
            message: "ERR wrong number of arguments for 'wait' command".to_string(),
        },
    }
}

// ---------------------------------------------------------------------------
// All requests
// ---------------------------------------------------------------------------

/// The request that a command stands for, given its name in lower case. There is
/// none where the arguments are not those that the command is defined on.
pub open spec fn request_of(name: Seq<char>, args: Seq<ValueView>) -> Option<RequestView> {
    if name == "ping"@ {
        Some(RequestView::Ping)
    } else if name == "echo"@ {
        if args.len() > 0 {
            Some(RequestView::Echo(args[0]))
        } else {
            None
        }
    } else if name == "set"@ {
        set_request(args)
    } else if name == "get"@ {
        match bulk(args, 0) {
            Some(key) => Some(RequestView::Get { key }),
            None => None,
        }
    } else if name == "rpush"@ {
        match bulk(args, 0) {
            Some(key) => Some(RequestView::RPush { key, items: bulk_texts(args.skip(1)) }),
            None => None,
        }
    } else if name == "lrange"@ {
        lrange_request(args)
    } else if name == "lpush"@ {
        match bulk(args, 0) {
            Some(key) => Some(RequestView::LPush { key, items: bulk_texts(args.skip(1)) }),
            None => None,
        }
    } else if name == "llen"@ {
        match bulk(args, 0) {
            Some(key) => Some(RequestView::LLen { key }),
            None => None,
        }
    } else if name == "lpop"@ {
        lpop_request(args)
    } else if name == "blpop"@ {
        blpop_request(args)
    } else if name == "type"@ {
        match bulk(args, 0) {
            Some(key) => Some(RequestView::Type { key }),
            None => None,
        }
    } else if name == "xadd"@ {
        xadd_request(args)
    } else if name == "xrange"@ {
        xrange_request(args)
    } else if name == "xread"@ {
        match bulk(args, 0) {
            Some(first) => xread_request(lowercase(first) == "block"@, args),
            None => None,
        }
    } else if name == "incr"@ {
        match bulk(args, 0) {
            Some(key) => Some(RequestView::Incr { key }),
            None => None,
        }
    } else if name == "watch"@ {
        Some(RequestView::Watch)
    } else if name == "info"@ {
        Some(RequestView::Info)
    } else if name == "replconf"@ {
        Some(
            RequestView::ReplConf { get_ack: lowercase(replconf_word(args)) == "getack"@ },
        )
    } else if name == "psync"@ {
        Some(RequestView::PSync)
    } else if name == "wait"@ {
        Some(wait_request(args))
    } else {
        Some(RequestView::Refused { message: "ERR unknown command"@ })
    }
}

/// Reads the request that a command stands for, given its name in lower case.
pub fn read_request(name: &str, args: &Vec<Value>) -> (r: Option<Request>)
    ensures
        reads(r, request_of(name@, views(args@))),
{
    if same_text(name, "ping") {
        Some(Request::Ping)
    } else if same_text(name, "echo") {
        if args.len() > 0 {
            Some(Request::Echo(args[0].clone()))
        } else {
            None
        }
    } else if same_text(name, "set") {
        read_set(args)
    } else if same_text(name, "get") {
        match bulk_at(args, 0) {
            Some(key) => Some(Request::Get { key: key.to_string() }),
            None => None,
        }
    } else if same_text(name, "rpush") {
        match bulk_at(args, 0) {
            Some(key) => Some(
                Request::RPush { key: key.to_string(), items: bulk_strings(args, 1) },
            ),
            None => None,
        }
    } else if same_text(name, "lrange") {
        read_lrange(args)
    } else if same_text(name, "lpush") {
        match bulk_at(args, 0) {
            Some(key) => Some(
                Request::LPush { key: key.to_string(), items: bulk_strings(args, 1) },
            ),
            None => None,
        }
    } else if same_text(name, "llen") {
        match bulk_at(args, 0) {
            Some(key) => Some(Request::LLen { key: key.to_string() }),
            None => None,
        }
    } else if same_text(name, "lpop") {
        read_lpop(args)
    } else if same_text(name, "blpop") {
        read_blpop(args)
    } else if same_text(name, "type") {
        match bulk_at(args, 0) {
            Some(key) => Some(Request::Type { key: key.to_string() }),
            None => None,
        }
    } else if same_text(name, "xadd") {
        read_xadd(args)
    } else if same_text(name, "xrange") {
        read_xrange(args)
    } else if same_text(name, "xread") {
        match bulk_at(args, 0) {
            Some(first) => {
                let lower = to_lower(first);
                let is_block = same_text(lower.as_str(), "block");
                read_xread(is_block, args)
            },
            None => None,
        }
    } else if same_text(name, "incr") {
        match bulk_at(args, 0) {
            Some(key) => Some(Request::Incr { key: key.to_string() }),
            None => None,
        }
    } else if same_text(name, "watch") {
        Some(Request::Watch)
    } else if same_text(name, "info") {
        Some(Request::Info)
    } else if same_text(name, "replconf") {
        let word = read_replconf_word(args);
        Some(Request::ReplConf { get_ack: same_text(word.as_str(), "getack") })
    } else if same_text(name, "psync") {
        Some(Request::PSync)
    } else if same_text(name, "wait") {
        Some(read_wait(args))
    } else {
        Some(Request::Refused { message: "ERR unknown command".to_string() })
    }
}

} // verus!
