//! Keys that hold a list: `RPUSH`, `LPUSH`, `LRANGE`, `LLEN`, `LPOP` and the step
//! that `BLPOP` repeats.

use crate::resp::{lemma_array_view, views, Value, ValueView};
use crate::store::{texts, DataType, DataView, Db, DbValue, DbValueView, DbView};
use crate::strings::WRONG_TYPE;
use vstd::prelude::*;

verus! {

/// The list that a key holds.
pub open spec fn list_at(db: DbView, key: Seq<char>) -> Option<Seq<Seq<char>>> {
    if db.contains_key(key) {
        match db[key].value {
            DataView::List(l) => Some(l),
            _ => None,
        }
    } else {
        None
    }
}

/// The database with another list under a key that exists.
pub open spec fn with_list(db: DbView, key: Seq<char>, list: Seq<Seq<char>>) -> DbView {
    db.insert(key, DbValueView { value: DataView::List(list), ..db[key] })
}

/// The texts of a list as bulk strings.
pub open spec fn bulk_values(list: Seq<Seq<char>>) -> Seq<ValueView> {
    list.map_values(|s: Seq<char>| ValueView::BulkString(s))
}

/// The strings of a list from one place up to another, as bulk strings.
fn to_values(list: &Vec<String>, from: usize, to: usize) -> (r: Vec<Value>)
    requires
        from <= to <= list.len(),
    ensures
        views(r@) == bulk_values(texts(list@).subrange(from as int, to as int)),
{
    let mut out: Vec<Value> = Vec::new();
    let mut i: usize = from;
    while i < to
        invariant
            from <= i <= to <= list.len(),
            out.len() == i - from,
            forall|k: int|
                0 <= k < i - from ==> (#[trigger] out@[k])@ == ValueView::BulkString(
                    list@[from + k]@,
                ),
        decreases to - i,
    {
        out.push(Value::BulkString(list[i].clone()));
        i += 1;
    }
    proof {
        assert(views(out@) =~= bulk_values(texts(list@).subrange(from as int, to as int)));
    }
    out
}

// ---------------------------------------------------------------------------
// RPUSH and LPUSH
// ---------------------------------------------------------------------------

/// Whether a push is defined: a key that exists holds a list.
pub open spec fn push_defined(db: DbView, key: Seq<char>) -> bool {
    db.contains_key(key) ==> db[key].value is List
}

/// Whether a push is defined.
pub fn can_push(db: &Db, key: &str) -> (r: bool)
    requires
        db.wf(),
    ensures
        r == push_defined(db@, key@),
{
    match db.get(key) {
        Some(v) => matches!(v.value, DataType::List(_)),
        None => true,
    }
}

/// What an `RPUSH` does and answers: the items go behind the list, or become the
/// list of a new key.
pub open spec fn rpush_effect(
    db: DbView,
    key: Seq<char>,
    items: Seq<Seq<char>>,
) -> (DbView, ValueView) {
    match list_at(db, key) {
        Some(l) => (
            with_list(db, key, l + items),
            ValueView::Integer((l.len() + items.len()) as i64),
        ),
        None => (
            db.insert(
                key,
                DbValueView { value: DataView::List(items), expires_at: None, version: 1 },
            ),
            ValueView::Integer(items.len() as i64),
        ),
    }
}

/// What an `LPUSH` does and answers: each item in turn goes in front of the list,
/// or the items in their order become the list of a new key.
pub open spec fn lpush_effect(
    db: DbView,
    key: Seq<char>,
    items: Seq<Seq<char>>,
) -> (DbView, ValueView) {
    match list_at(db, key) {
        Some(l) => (
            with_list(db, key, items.reverse() + l),
            ValueView::Integer((items.len() + l.len()) as i64),
        ),
        None => (
            db.insert(
                key,
                DbValueView { value: DataView::List(items), expires_at: None, version: 0 },
            ),
            ValueView::Integer(items.len() as i64),
        ),
    }
}

/// Puts items behind a list.
pub fn rpush(db: &mut Db, key: String, items: Vec<String>) -> (r: Value)
    requires
        old(db).wf(),
        push_defined(old(db)@, key@),
    ensures
        final(db).wf(),
        (final(db)@, r@) == rpush_effect(old(db)@, key@, texts(items@)),
{
    let ghost new_items = texts(items@);
    let mut items = items;
    match db.take(key.as_str()) {
        Some(DbValue { value: DataType::List(list), expires_at, version }) => {
            let ghost before = texts(list@);
            let mut list = list;
            list.append(&mut items);
            let len = list.len();
            proof {
                assert(texts(list@) =~= before + new_items);
            }
            db.insert(key, DbValue { value: DataType::List(list), expires_at, version });
            proof {
                assert(db@ =~= rpush_effect(old(db)@, key@, new_items).0);
            }
            Value::Integer(len as i64)
        },
        _ => {
            let len = items.len();
            db.insert(key, DbValue { value: DataType::List(items), expires_at: None, version: 1 });
            proof {
                assert(db@ =~= rpush_effect(old(db)@, key@, new_items).0);
            }
            Value::Integer(len as i64)
        },
    }
}

/// The strings in reverse order.
fn reversed(items: Vec<String>) -> (r: Vec<String>)
    ensures
        texts(r@) == texts(items@).reverse(),
{
    let ghost all = items@;
    let n = items.len();
    let mut items = items;
    let mut out: Vec<String> = Vec::new();
    while items.len() > 0
        invariant
            n == all.len(),
            out.len() + items.len() == n,
            items@ == all.take(items.len() as int),
            forall|k: int| 0 <= k < out.len() ==> #[trigger] out@[k] == all[n - 1 - k],
        decreases items.len(),
    {
        match items.pop() {
            Some(x) => {
                out.push(x);
            },
            None => {},
        }
    }
    proof {
        assert(texts(out@) =~= texts(all).reverse());
    }
    out
}

/// Puts items in front of a list.
pub fn lpush(db: &mut Db, key: String, items: Vec<String>) -> (r: Value)
    requires
        old(db).wf(),
        push_defined(old(db)@, key@),
    ensures
        final(db).wf(),
        (final(db)@, r@) == lpush_effect(old(db)@, key@, texts(items@)),
{
    let ghost new_items = texts(items@);
    match db.take(key.as_str()) {
        Some(DbValue { value: DataType::List(list), expires_at, version }) => {
            let ghost before = texts(list@);
            let mut list = list;
            let mut front = reversed(items);
            let ghost front_texts = texts(front@);
            front.append(&mut list);
            let len = front.len();
            proof {
                assert(texts(front@) =~= front_texts + before);
                assert(front_texts.len() == new_items.len());
            }
            db.insert(key, DbValue { value: DataType::List(front), expires_at, version });
            proof {
                assert(db@ =~= lpush_effect(old(db)@, key@, new_items).0);
            }
            Value::Integer(len as i64)
        },
        _ => {
            let len = items.len();
            db.insert(key, DbValue { value: DataType::List(items), expires_at: None, version: 0 });
            proof {
                assert(db@ =~= lpush_effect(old(db)@, key@, new_items).0);
            }
            Value::Integer(len as i64)
        },
    }
}

// ---------------------------------------------------------------------------
// LRANGE and LLEN
// ---------------------------------------------------------------------------

/// The place that an index of `LRANGE` means in a list of a given length: a
/// negative one counts from the end, and none lies before the start.
pub open spec fn list_index(i: int, len: int) -> int {
    let j = if i < 0 {
        i + len
    } else {
        i
    };
    if j < 0 {
        0
    } else {
        j
    }
}

/// The part of a list between two indices, both included.
pub open spec fn list_range(list: Seq<Seq<char>>, start: int, stop: int) -> Seq<Seq<char>> {
    let len = list.len() as int;
    let a = list_index(start, len);
    let b = list_index(stop, len);
    if a >= len || a > b {
        Seq::empty()
    } else if b >= len {
        list.skip(a)
    } else {
        list.subrange(a, b + 1)
    }
}

/// The answer to an `LRANGE`.
pub open spec fn lrange_reply(db: DbView, key: Seq<char>, start: i64, stop: i64) -> ValueView {
    if !db.contains_key(key) {
        ValueView::Array(Seq::empty())
    } else {
        match db[key].value {
            DataView::List(l) => ValueView::Array(
                bulk_values(list_range(l, start as int, stop as int)),
            ),
            _ => ValueView::Error(WRONG_TYPE@),
        }
    }
}

fn index_in(i: i64, len: usize) -> (r: i128)
    ensures
        r == list_index(i as int, len as int),
{
    let j: i128 = if i < 0 {
        i as i128 + len as i128
    } else {
        i as i128
    };
    if j < 0 {
        0
    } else {
        j
    }
}

/// The part of a list between two indices.
pub fn lrange(db: &Db, key: &str, start: i64, stop: i64) -> (r: Value)
    requires
        db.wf(),
    ensures
        r@ == lrange_reply(db@, key@, start, stop),
{
    match db.get(key) {
        Some(v) => match &v.value {
            DataType::List(list) => {
                let len = list.len();
                let a = index_in(start, len);
                let b = index_in(stop, len);
                let items = if a >= len as i128 || a > b {
                    Vec::new()
                } else {
                    let end = if b >= len as i128 {
                        len
                    } else {
                        (b + 1) as usize
                    };
                    to_values(list, a as usize, end)
                };
                proof {
                    lemma_array_view(items);
                    let l = texts(list@);
                    if a >= len || a > b {
                        assert(views(items@) =~= bulk_values(Seq::<Seq<char>>::empty()));
                    } else if b >= len {
                        assert(l.skip(a as int) =~= l.subrange(a as int, len as int));
                    }
                }
                Value::Array(items)
            },
            _ => Value::Error(WRONG_TYPE.to_string()),
        },
        None => {
            let items: Vec<Value> = Vec::new();
            proof {
                lemma_array_view(items);
                assert(views(items@) =~= Seq::<ValueView>::empty());
            }
            Value::Array(items)
        },
    }
}

/// The answer to an `LLEN`.
pub open spec fn llen_reply(db: DbView, key: Seq<char>) -> ValueView {
    match list_at(db, key) {
        Some(l) => ValueView::Integer(l.len() as i64),
        None => ValueView::Integer(0),
    }
}

/// The length of a list.
pub fn llen(db: &Db, key: &str) -> (r: Value)
    requires
        db.wf(),
    ensures
        r@ == llen_reply(db@, key@),
{
    let len = match db.get(key) {
        Some(v) => match &v.value {
            DataType::List(list) => list.len(),
            _ => 0,
        },
        None => 0,
    };
    Value::Integer(len as i64)
}

// ---------------------------------------------------------------------------
// LPOP and BLPOP
// ---------------------------------------------------------------------------

/// How many items an `LPOP` takes from a list.
pub open spec fn pop_count(count: Option<usize>, len: nat) -> int {
    match count {
        Some(n) => if n as nat <= len {
            n as int
        } else {
            len as int
        },
        None => if len > 0 {
            1
        } else {
            0
        },
    }
}

/// What an `LPOP` does and answers: with a count the items taken, without one the
/// item taken.
pub open spec fn lpop_effect(
    db: DbView,
    key: Seq<char>,
    count: Option<usize>,
) -> (DbView, ValueView) {
    match list_at(db, key) {
        Some(l) => {
            let n = pop_count(count, l.len());
            (
                with_list(db, key, l.skip(n)),
                if count is Some {
                    ValueView::Array(bulk_values(l.take(n)))
                } else if l.len() > 0 {
                    ValueView::BulkString(l[0])
                } else {
                    ValueView::NullBulkString
                },
            )
        },
        None => (db, ValueView::NullBulkString),
    }
}

/// Takes items from the front of a list.
pub fn lpop(db: &mut Db, key: &str, count: Option<usize>) -> (r: Value)
    requires
        old(db).wf(),
    ensures
        final(db).wf(),
        (final(db)@, r@) == lpop_effect(old(db)@, key@, count),
{
    let is_list = match db.get(key) {
        Some(v) => matches!(v.value, DataType::List(_)),
        None => false,
    };
    if !is_list {
        return Value::NullBulkString;
    }
    match db.take(key) {
        Some(DbValue { value: DataType::List(list), expires_at, version }) => {
            let ghost l = texts(list@);
            let len = list.len();
            let n = match count {
                Some(n) => if n <= len {
                    n
                } else {
                    len
                },
                None => if len > 0 {
                    1
                } else {
                    0
                },
            };
            let mut front = list;
            let rest = front.split_off(n);
            proof {
                assert(texts(rest@) =~= l.skip(n as int));
                assert(texts(front@) =~= l.take(n as int));
            }
            db.insert(
                key.to_string(),
                DbValue { value: DataType::List(rest), expires_at, version },
            );
            proof {
                assert(db@ =~= lpop_effect(old(db)@, key@, count).0);
            }
            match count {
                Some(_) => {
                    let items = to_values(&front, 0, n);
                    proof {
                        lemma_array_view(items);
                        assert(l.take(n as int).subrange(0, n as int) =~= l.take(n as int));
                    }
                    Value::Array(items)
                },
                None => match front.pop() {
                    Some(s) => {
                        proof {
                            assert(l.take(1)[0] == l[0]);
                        }
                        Value::BulkString(s)
                    },
                    None => Value::NullBulkString,
                },
            }
        },
        _ => Value::NullBulkString,
    }
}

/// Whether a key holds a list with an item.
pub open spec fn has_item(db: DbView, key: Seq<char>) -> bool {
    list_at(db, key) matches Some(l) && l.len() > 0
}

/// One look of a `BLPOP` at its keys: the first key, in the order given, that
/// holds a list with an item loses its first item, and key and item are the
/// answer.
pub open spec fn pop_first_effect(db: DbView, keys: Seq<Seq<char>>) -> (DbView, Option<ValueView>)
    decreases keys.len(),
{
    if keys.len() == 0 {
        (db, None)
    } else if has_item(db, keys[0]) {
        let l = list_at(db, keys[0])->0;
        (
            with_list(db, keys[0], l.skip(1)),
            Some(
                ValueView::Array(
                    seq![ValueView::BulkString(keys[0]), ValueView::BulkString(l[0])],
                ),
            ),
        )
    } else {
        pop_first_effect(db, keys.skip(1))
    }
}

/// One look of a `BLPOP` at its keys.
pub fn pop_first(db: &mut Db, keys: &Vec<String>) -> (r: Option<Value>)
    requires
        old(db).wf(),
    ensures
        final(db).wf(),
        final(db)@ == pop_first_effect(old(db)@, texts(keys@)).0,
        match r {
            Some(v) => pop_first_effect(old(db)@, texts(keys@)).1 == Some(v@),
            None => pop_first_effect(old(db)@, texts(keys@)).1 is None,
        },
{
    let ghost spec = pop_first_effect(db@, texts(keys@));
    let n = keys.len();
    let mut i: usize = 0;
    proof {
        assert(texts(keys@).skip(0) =~= texts(keys@));
    }
    while i < n
        invariant
            i <= n,
            n == keys.len(),
            db.wf(),
            db@ == old(db)@,
            spec == pop_first_effect(old(db)@, texts(keys@)),
            pop_first_effect(db@, texts(keys@).skip(i as int)) == spec,
        decreases n - i,
    {
        proof {
            assert(texts(keys@).skip(i as int)[0] == keys@[i as int]@);
            assert(texts(keys@).skip(i as int).skip(1) =~= texts(keys@).skip(i + 1));
        }
        let ready = match db.get(keys[i].as_str()) {
            Some(v) => match &v.value {
                DataType::List(list) => list.len() > 0,
                _ => false,
            },
            None => false,
        };
        if ready {
            let item = lpop(db, keys[i].as_str(), None);
            let items = vec![Value::BulkString(keys[i].clone()), item];
            proof {
                lemma_array_view(items);
                assert(views(items@) =~= spec.1->0->Array_0);
            }
            return Some(Value::Array(items));
        }
        i += 1;
    }
    None
}

} // verus!
