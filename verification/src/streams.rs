//! Keys that hold a stream: `XADD`, `XRANGE` and the step that `XREAD` repeats.

use crate::request::{read_from_views, NewId, NewIdView, ReadFrom, ReadFromView};
use crate::resp::{lemma_array_view, views, Value, ValueView};
use crate::store::{
    entry_views, id_less, id_of, pair_texts, parse_id, read_id, valid_db, valid_entries, DataType,
    DataView, Db, DbValue, DbValueView, DbView, StreamEntry, StreamEntryView,
};
use crate::strings::WRONG_TYPE;
use crate::text::{
    decimal, decimal_text, is_digit, is_first_hyphen, law_parse_of_decimal, lemma_decimal,
    lemma_split_hyphen,
};
use vstd::prelude::*;
use vstd::string::*;

verus! {

/// The answer to an id that is not above `0-0`.
pub const ID_TOO_LOW: &'static str = "ERR The ID specified in XADD must be greater than 0-0";

/// The answer to an id that is not above the last one.
pub const ID_NOT_ABOVE_LAST: &'static str =
    "ERR The ID specified in XADD is equal or smaller than the target stream top item";

/// The stream that a key holds.
pub open spec fn stream_at(db: DbView, key: Seq<char>) -> Option<Seq<StreamEntryView>> {
    if db.contains_key(key) {
        match db[key].value {
            DataView::Stream(s) => Some(s),
            _ => None,
        }
    } else {
        None
    }
}

/// The order of entry ids.
fn id_lt(a: (u64, u64), b: (u64, u64)) -> (r: bool)
    ensures
        r == id_less(a, b),
{
    a.0 < b.0 || (a.0 == b.0 && a.1 < b.1)
}

/// The parsed id of an entry.
fn entry_id(e: &StreamEntry) -> (r: (u64, u64))
    requires
        parse_id(e@.id) is Some,
    ensures
        r == id_of(e@),
{
    match read_id(e.id.as_str()) {
        Some(p) => p,
        None => (0, 0),
    }
}

// ---------------------------------------------------------------------------
// XADD
// ---------------------------------------------------------------------------

/// The id that the server writes for milliseconds and a sequence number.
pub open spec fn id_text(ms: nat, seq: nat) -> Seq<char> {
    decimal(ms) + seq!['-'] + decimal(seq)
}

/// An id that the server writes reads as what it was written from.
pub proof fn law_id_text(ms: u64, seq: u64)
    ensures
        parse_id(id_text(ms as nat, seq as nat)) == Some((ms, seq)),
{
    let id = id_text(ms as nat, seq as nat);
    let n = decimal(ms as nat).len() as int;
    lemma_decimal(ms as nat);
    lemma_decimal(seq as nat);
    assert forall|k: int| 0 <= k < n implies id[k] != '-' by {
        assert(is_digit(decimal(ms as nat)[k]));
    }
    assert(is_first_hyphen(id, n));
    lemma_split_hyphen(id, n);
    assert(id.take(n) =~= decimal(ms as nat));
    assert(id.skip(n + 1) =~= decimal(seq as nat));
    law_parse_of_decimal(ms as nat, u64::MAX as nat);
    law_parse_of_decimal(seq as nat, u64::MAX as nat);
}

/// The sequence number that the server gives a new entry: one more than the last
/// entry's where the milliseconds are the same, otherwise the lowest that is
/// allowed.
pub open spec fn next_seq(entries: Seq<StreamEntryView>, ms: u64) -> nat {
    if entries.len() > 0 && id_of(entries.last()).0 == ms {
        id_of(entries.last()).1 as nat + 1
    } else if ms == 0 {
        1
    } else {
        0
    }
}

/// The entries of a stream, or none where the key does not exist.
pub open spec fn entries_or_none(db: DbView, key: Seq<char>) -> Seq<StreamEntryView> {
    match stream_at(db, key) {
        Some(s) => s,
        None => Seq::empty(),
    }
}

/// The milliseconds of an id that the server completes.
pub open spec fn generated_ms(id: NewIdView, unix_ms: u64) -> u64 {
    match id {
        NewIdView::At(ms) => ms,
        _ => unix_ms,
    }
}

/// Whether an `XADD` is defined: where the key can take an entry, an explicit id
/// is one, and a generated sequence number has room.
pub open spec fn xadd_defined(db: DbView, key: Seq<char>, id: NewIdView, unix_ms: u64) -> bool {
    (db.contains_key(key) ==> db[key].value is Stream) ==> match id {
        NewIdView::Explicit(id) => parse_id(id) is Some,
        _ => next_seq(entries_or_none(db, key), generated_ms(id, unix_ms)) <= u64::MAX,
    }
}

/// The database with one more entry in a stream, which is made where the key does
/// not exist.
pub open spec fn with_entry(db: DbView, key: Seq<char>, entry: StreamEntryView) -> DbView {
    let value = DataView::Stream(entries_or_none(db, key).push(entry));
    db.insert(
        key,
        if db.contains_key(key) {
            DbValueView { value, ..db[key] }
        } else {
            DbValueView { value, expires_at: None, version: 1 }
        },
    )
}

/// The id of a new entry, or the error that refuses it.
pub open spec fn chosen_id(
    entries: Seq<StreamEntryView>,
    id: NewIdView,
    unix_ms: u64,
) -> Result<Seq<char>, Seq<char>> {
    match id {
        NewIdView::Explicit(text) => {
            let new = parse_id(text)->0;
            if new == (0u64, 0u64) {
                Err(ID_TOO_LOW@)
            } else if entries.len() > 0 && !id_less(id_of(entries.last()), new) {
                Err(ID_NOT_ABOVE_LAST@)
            } else {
                Ok(text)
            }
        },
        _ => {
            let ms = generated_ms(id, unix_ms);
            Ok(id_text(ms as nat, next_seq(entries, ms)))
        },
    }
}

/// What an `XADD` does and answers.
pub open spec fn xadd_effect(
    db: DbView,
    key: Seq<char>,
    id: NewIdView,
    fields: Seq<(Seq<char>, Seq<char>)>,
    unix_ms: u64,
) -> (DbView, ValueView) {
    if db.contains_key(key) && !(db[key].value is Stream) {
        (db, ValueView::Error(WRONG_TYPE@))
    } else {
        match chosen_id(entries_or_none(db, key), id, unix_ms) {
            Ok(id) => (
                with_entry(db, key, StreamEntryView { id, fields }),
                ValueView::BulkString(id),
            ),
            Err(e) => (db, ValueView::Error(e)),
        }
    }
}

/// The last id of a stream.
fn last_id(entries: &Vec<StreamEntry>) -> (r: Option<(u64, u64)>)
    requires
        valid_entries(entry_views(entries@)),
    ensures
        match r {
            Some(p) => entries.len() > 0 && p == id_of(entry_views(entries@).last()),
            None => entries.len() == 0,
        },
{
    let n = entries.len();
    if n == 0 {
        None
    } else {
        proof {
            assert(entry_views(entries@)[n - 1] == entries@[n - 1]@);
        }
        Some(entry_id(&entries[n - 1]))
    }
}

/// The id of a new entry, or the error that refuses it.
fn choose_id(entries: &Vec<StreamEntry>, id: NewId, unix_ms: u64) -> (r: Result<String, String>)
    requires
        valid_entries(entry_views(entries@)),
        match id@ {
            NewIdView::Explicit(text) => parse_id(text) is Some,
            _ => next_seq(entry_views(entries@), generated_ms(id@, unix_ms)) <= u64::MAX,
        },
    ensures
        match r {
            Ok(s) => {
                &&& chosen_id(entry_views(entries@), id@, unix_ms) == Ok::<
                    Seq<char>,
                    Seq<char>,
                >(s@)
                &&& parse_id(s@) is Some
                &&& id_less((0, 0), parse_id(s@)->0)
            },
            Err(e) => chosen_id(entry_views(entries@), id@, unix_ms) == Err::<
                Seq<char>,
                Seq<char>,
            >(e@),
        },
{
    let last = last_id(entries);
    let ms = match id {
        NewId::Explicit(text) => {
            match read_id(text.as_str()) {
                Some(new) => {
                    if new.0 == 0 && new.1 == 0 {
                        return Err(ID_TOO_LOW.to_string());
                    }
                    match last {
                        Some(p) => {
                            if !id_lt(p, new) {
                                return Err(ID_NOT_ABOVE_LAST.to_string());
                            }
                        },
                        None => {},
                    }
                },
                None => {},
            }
            return Ok(text);
        },
        NewId::Now => unix_ms,
        NewId::At(ms) => ms,
    };
    let lowest: u64 = if ms == 0 {
        1
    } else {
        0
    };
    let seq: u64 = match last {
        Some(p) => if p.0 == ms {
            p.1 + 1
        } else {
            lowest
        },
        None => lowest,
    };
    let mut text = decimal_text(ms);
    text.append("-");
    text.append(decimal_text(seq).as_str());
    proof {
        reveal_strlit("-");
        assert(text@ =~= id_text(ms as nat, seq as nat));
        law_id_text(ms, seq);
    }
    Ok(text)
}

/// Whether an `XADD` is defined.
pub fn can_xadd(db: &Db, key: &str, id: &NewId, unix_ms: u64) -> (r: bool)
    requires
        db.wf(),
    ensures
        r == xadd_defined(db@, key@, id@, unix_ms),
{
    proof {
        Db::lemma_wf(*db);
    }
    let last = match db.get(key) {
        Some(v) => match &v.value {
            DataType::Stream(entries) => last_id(entries),
            _ => {
                return true;
            },
        },
        None => None,
    };
    let ms = match id {
        NewId::Explicit(text) => {
            return read_id(text.as_str()).is_some();
        },
        NewId::Now => unix_ms,
        NewId::At(ms) => *ms,
    };
    match last {
        Some(p) => p.0 != ms || p.1 < u64::MAX,
        None => true,
    }
}

/// Adds an entry to a stream.
pub fn xadd(db: &mut Db, key: String, id: NewId, fields: Vec<(String, String)>, unix_ms: u64) -> (r:
    Value)
    requires
        old(db).wf(),
        xadd_defined(old(db)@, key@, id@, unix_ms),
    ensures
        final(db).wf(),
        (final(db)@, r@) == xadd_effect(old(db)@, key@, id@, pair_texts(fields@), unix_ms),
{
    let fits = match db.get(key.as_str()) {
        Some(v) => matches!(v.value, DataType::Stream(_)),
        None => true,
    };
    if !fits {
        return Value::Error(WRONG_TYPE.to_string());
    }
    proof {
        Db::lemma_wf(*db);
    }
    let ghost spec = xadd_effect(db@, key@, id@, pair_texts(fields@), unix_ms);
    let (entries, expires_at, version) = match db.take(key.as_str()) {
        Some(DbValue { value: DataType::Stream(entries), expires_at, version }) => (
            entries,
            expires_at,
            version,
        ),
        _ => {
            let empty: Vec<StreamEntry> = Vec::new();
            proof {
                assert(entry_views(empty@) =~= Seq::<StreamEntryView>::empty());
            }
            match choose_id(&empty, id, unix_ms) {
                Ok(text) => {
                    let entry = StreamEntry { id: text.clone(), fields };
                    let entries = vec![entry];
                    proof {
                        assert(entry_views(entries@) =~= Seq::<StreamEntryView>::empty().push(
                            entry@,
                        ));
                    }
                    db.insert(
                        key,
                        DbValue { value: DataType::Stream(entries), expires_at: None, version: 1 },
                    );
                    proof {
                        assert(db@ =~= spec.0);
                    }
                    return Value::BulkString(text);
                },
                Err(e) => {
                    proof {
                        assert(db@ =~= spec.0);
                    }
                    return Value::Error(e);
                },
            }
        },
    };
    let mut entries = entries;
    let ghost before = entry_views(entries@);
    let chosen = choose_id(&entries, id, unix_ms);
    let reply = match chosen {
        Ok(text) => {
            let entry = StreamEntry { id: text.clone(), fields };
            entries.push(entry);
            proof {
                assert(entry_views(entries@) =~= before.push(entry@));
            }
            Value::BulkString(text)
        },
        Err(e) => Value::Error(e),
    };
    db.insert(key, DbValue { value: DataType::Stream(entries), expires_at, version });
    proof {
        assert(db@ =~= spec.0);
    }
    reply
}

// ---------------------------------------------------------------------------
// XRANGE and XREAD
// ---------------------------------------------------------------------------

/// Which entries of a stream are wanted.
pub enum Wanted {
    /// From the first id to the second, both included.
    Between((u64, u64), (u64, u64)),
    /// After the id.
    After((u64, u64)),
}

/// Whether an entry is wanted.
pub open spec fn is_wanted(want: Wanted, e: StreamEntryView) -> bool {
    match want {
        Wanted::Between(first, last) => !id_less(id_of(e), first) && !id_less(last, id_of(e)),
        Wanted::After(id) => id_less(id, id_of(e)),
    }
}

/// The fields of an entry as bulk strings, name and value in turn.
pub open spec fn field_values(fields: Seq<(Seq<char>, Seq<char>)>) -> Seq<ValueView> {
    Seq::new(
        2 * fields.len(),
        |i: int|
            ValueView::BulkString(
                if i % 2 == 0 {
                    fields[i / 2].0
                } else {
                    fields[i / 2].1
                },
            ),
    )
}

/// An entry as an answer: its id and its fields.
pub open spec fn entry_value(e: StreamEntryView) -> ValueView {
    ValueView::Array(
        seq![ValueView::BulkString(e.id), ValueView::Array(field_values(e.fields))],
    )
}

/// The wanted entries of a stream, in their order, as answers.
pub open spec fn selection(entries: Seq<StreamEntryView>, want: Wanted) -> Seq<ValueView> {
    entries.filter(|e: StreamEntryView| is_wanted(want, e)).map_values(
        |e: StreamEntryView| entry_value(e),
    )
}

fn to_entry_value(e: &StreamEntry) -> (r: Value)
    ensures
        r@ == entry_value(e@),
{
    let mut fields: Vec<Value> = Vec::new();
    let n = e.fields.len();
    let mut i: usize = 0;
    while i < n
        invariant
            i <= n,
            n == e.fields.len(),
            fields.len() == 2 * i,
            views(fields@) == field_values(e@.fields).take(2 * i),
        decreases n - i,
    {
        let ghost before = views(fields@);
        fields.push(Value::BulkString(e.fields[i].0.clone()));
        fields.push(Value::BulkString(e.fields[i].1.clone()));
        proof {
            assert(views(fields@) =~= field_values(e@.fields).take(2 * i + 2));
        }
        i += 1;
    }
    proof {
        lemma_array_view(fields);
        assert(views(fields@) =~= field_values(e@.fields));
    }
    let parts = vec![Value::BulkString(e.id.clone()), Value::Array(fields)];
    proof {
        lemma_array_view(parts);
        assert(views(parts@) =~= entry_value(e@)->Array_0);
    }
    Value::Array(parts)
}

fn select(entries: &Vec<StreamEntry>, want: &Wanted) -> (r: Vec<Value>)
    requires
        valid_entries(entry_views(entries@)),
    ensures
        views(r@) == selection(entry_views(entries@), *want),
{
    let ghost all = entry_views(entries@);
    let ghost pred = |e: StreamEntryView| is_wanted(*want, e);
    let ghost show = |e: StreamEntryView| entry_value(e);
    let mut out: Vec<Value> = Vec::new();
    let n = entries.len();
    let mut i: usize = 0;
    proof {
        reveal(Seq::filter);
        assert(views(out@) =~= all.take(0).filter(pred).map_values(show));
    }
    while i < n
        invariant
            i <= n,
            n == entries.len(),
            all == entry_views(entries@),
            valid_entries(all),
            pred == (|e: StreamEntryView| is_wanted(*want, e)),
            show == (|e: StreamEntryView| entry_value(e)),
            views(out@) == all.take(i as int).filter(pred).map_values(show),
        decreases n - i,
    {
        proof {
            reveal(Seq::filter);
            assert(all.take(i + 1).drop_last() =~= all.take(i as int));
            assert(all[i as int] == entries@[i as int]@);
        }
        let id = entry_id(&entries[i]);
        let take = match want {
            Wanted::Between(first, last) => !id_lt(id, *first) && !id_lt(*last, id),
            Wanted::After(after) => id_lt(*after, id),
        };
        let ghost before = views(out@);
        if take {
            out.push(to_entry_value(&entries[i]));
            proof {
                assert(views(out@) =~= before.push(entry_value(all[i as int])));
                assert(all.take(i + 1).filter(pred) =~= all.take(i as int).filter(pred).push(
                    all[i as int],
                ));
            }
        }
        proof {
            assert(views(out@) =~= all.take(i + 1).filter(pred).map_values(show));
        }
        i += 1;
    }
    proof {
        assert(all.take(n as int) =~= all);
    }
    out
}

/// The answer to an `XRANGE`.
pub open spec fn xrange_reply(
    db: DbView,
    key: Seq<char>,
    first: (u64, u64),
    last: (u64, u64),
) -> ValueView {
    ValueView::Array(selection(entries_or_none(db, key), Wanted::Between(first, last)))
}

/// The entries of a stream between two ids.
pub fn xrange(db: &Db, key: &str, first: (u64, u64), last: (u64, u64)) -> (r: Value)
    requires
        db.wf(),
    ensures
        r@ == xrange_reply(db@, key@, first, last),
{
    proof {
        Db::lemma_wf(*db);
    }
    let want = Wanted::Between(first, last);
    let items = match db.get(key) {
        Some(v) => match &v.value {
            DataType::Stream(entries) => select(entries, &want),
            _ => Vec::new(),
        },
        None => Vec::new(),
    };
    proof {
        lemma_array_view(items);
        if stream_at(db@, key@) is None {
            lemma_empty_selection(want);
            assert(views(items@) =~= Seq::<ValueView>::empty());
        }
    }
    Value::Array(items)
}

/// Nothing is wanted of no entries.
proof fn lemma_empty_selection(want: Wanted)
    ensures
        selection(Seq::empty(), want) == Seq::<ValueView>::empty(),
{
    reveal(Seq::filter);
    assert(selection(Seq::empty(), want) =~= Seq::<ValueView>::empty());
}

/// A stream to read and the id after which to read it.
#[derive(Debug)]
pub struct Start {
    pub key: String,
    pub after: (u64, u64),
}

/// What a [`Start`] holds.
pub struct StartView {
    pub key: Seq<char>,
    pub after: (u64, u64),
}

impl View for Start {
    type V = StartView;

    open spec fn view(&self) -> StartView {
        StartView { key: self.key@, after: self.after }
    }
}

/// What a row of starts holds.
pub open spec fn start_views(s: Seq<Start>) -> Seq<StartView> {
    s.map_values(|x: Start| x@)
}

/// Where the reading of a stream starts: after the given id, or after the last
/// one that the stream has, or after `0-0` where it has none.
pub open spec fn start_of(db: DbView, from: ReadFromView) -> StartView {
    let entries = entries_or_none(db, from.key);
    StartView {
        key: from.key,
        after: match from.after {
            Some(id) => id,
            None => if entries.len() > 0 {
                id_of(entries.last())
            } else {
                (0u64, 0u64)
            },
        },
    }
}

/// Where the reading of each stream starts.
pub open spec fn starts_of(db: DbView, streams: Seq<ReadFromView>) -> Seq<StartView> {
    streams.map_values(|f: ReadFromView| start_of(db, f))
}

/// Settles where the reading of each stream starts.
pub fn resolve_starts(db: &Db, streams: Vec<ReadFrom>) -> (r: Vec<Start>)
    requires
        db.wf(),
    ensures
        start_views(r@) == starts_of(db@, read_from_views(streams@)),
{
    proof {
        Db::lemma_wf(*db);
    }
    let mut out: Vec<Start> = Vec::new();
    let n = streams.len();
    let mut i: usize = 0;
    while i < n
        invariant
            i <= n,
            n == streams.len(),
            db.wf(),
            valid_db(db@),
            out.len() == i,
            forall|k: int| 0 <= k < i ==> (#[trigger] out@[k])@ == start_of(db@, streams@[k]@),
        decreases n - i,
    {
        let after = match streams[i].after {
            Some(id) => id,
            None => match db.get(streams[i].key.as_str()) {
                Some(v) => match &v.value {
                    DataType::Stream(entries) => match last_id(entries) {
                        Some(id) => id,
                        None => (0, 0),
                    },
                    _ => (0, 0),
                },
                None => (0, 0),
            },
        };
        out.push(Start { key: streams[i].key.clone(), after });
        i += 1;
    }
    proof {
        assert(start_views(out@) =~= starts_of(db@, read_from_views(streams@)));
    }
    out
}

/// What a look at one stream adds to the answer of an `XREAD`: the stream and its
/// new entries, where it has any.
pub open spec fn stream_result(db: DbView, start: StartView) -> Seq<ValueView> {
    let found = selection(entries_or_none(db, start.key), Wanted::After(start.after));
    if found.len() > 0 {
        seq![
            ValueView::Array(seq![ValueView::BulkString(start.key), ValueView::Array(found)]),
        ]
    } else {
        Seq::empty()
    }
}

/// One look of an `XREAD` at its streams.
pub open spec fn stream_results(db: DbView, starts: Seq<StartView>) -> Seq<ValueView>
    decreases starts.len(),
{
    if starts.len() == 0 {
        Seq::empty()
    } else {
        stream_results(db, starts.drop_last()) + stream_result(db, starts.last())
    }
}

/// One look of an `XREAD` at its streams.
pub fn read_streams(db: &Db, starts: &Vec<Start>) -> (r: Vec<Value>)
    requires
        db.wf(),
    ensures
        views(r@) == stream_results(db@, start_views(starts@)),
{
    proof {
        Db::lemma_wf(*db);
    }
    let ghost all = start_views(starts@);
    let mut out: Vec<Value> = Vec::new();
    let n = starts.len();
    let mut i: usize = 0;
    proof {
        assert(views(out@) =~= stream_results(db@, all.take(0)));
    }
    while i < n
        invariant
            i <= n,
            n == starts.len(),
            db.wf(),
            valid_db(db@),
            all == start_views(starts@),
            views(out@) == stream_results(db@, all.take(i as int)),
        decreases n - i,
    {
        proof {
            assert(all.take(i + 1).drop_last() =~= all.take(i as int));
            assert(all.take(i + 1).last() == starts@[i as int]@);
        }
        let want = Wanted::After(starts[i].after);
        let found = match db.get(starts[i].key.as_str()) {
            Some(v) => match &v.value {
                DataType::Stream(entries) => select(entries, &want),
                _ => Vec::new(),
            },
            None => Vec::new(),
        };
        proof {
            lemma_array_view(found);
            if stream_at(db@, starts@[i as int].key@) is None {
                lemma_empty_selection(want);
                assert(views(found@) =~= Seq::<ValueView>::empty());
            }
            assert(views(found@) == selection(
                entries_or_none(db@, starts@[i as int].key@),
                Wanted::After(starts@[i as int].after),
            ));
            assert(views(found@).len() == found@.len());
        }
        let ghost before = views(out@);
        if found.len() > 0 {
            let parts = vec![Value::BulkString(starts[i].key.clone()), Value::Array(found)];
            proof {
                lemma_array_view(parts);
                assert(views(parts@) =~= seq![
                    ValueView::BulkString(starts@[i as int].key@),
                    ValueView::Array(views(found@)),
                ]);
            }
            out.push(Value::Array(parts));
        }
        proof {
            assert(views(out@) =~= before + stream_result(db@, starts@[i as int]@));
        }
        i += 1;
    }
    proof {
        assert(all.take(n as int) =~= all);
    }
    out
}

} // verus!
