//! What the commands on lists do, item by item.

use crate::command_laws::wrong_type;
use crate::execute::{accepted, command_effect, Env, OutcomeView};
use crate::lists::pop_first_effect;
use crate::names::{
    lemma_blpop, lemma_llen, lemma_lpop, lemma_lpush, lemma_lrange, lemma_rpush,
};
use crate::request::{all_bulk, bulk, bulk_texts};
use crate::resp::ValueView;
use crate::store::{DataView, DbValueView, DbView};
use crate::text::{to_i64, to_usize};
use vstd::prelude::*;

verus! {

/// Whether a key holds a list.
pub open spec fn is_list(db: DbView, key: Seq<char>) -> bool {
    db.contains_key(key) && db[key].value is List
}

/// The list that a key holds.
pub open spec fn items_of(db: DbView, key: Seq<char>) -> Seq<Seq<char>> {
    db[key].value->List_0
}

// ---------------------------------------------------------------------------
// The words of a push
// ---------------------------------------------------------------------------

/// The texts of a row are those of its bulk strings, each of them once and in the
/// order of the row: the places at which they stand grow, and no bulk string stands
/// anywhere else.
pub proof fn law_texts_of_a_row(args: Seq<ValueView>) -> (places: Seq<int>)
    ensures
        places.len() == bulk_texts(args).len(),
        forall|j: int|
            #![trigger places[j]]
            0 <= j < places.len() ==> 0 <= places[j] < args.len() && args[places[j]]
                == ValueView::BulkString(bulk_texts(args)[j]),
        forall|j: int, k: int|
            #![trigger places[j], places[k]]
            0 <= j < k < places.len() ==> places[j] < places[k],
        forall|i: int|
            #![trigger args[i]]
            0 <= i < args.len() && args[i] is BulkString ==> places.contains(i),
    decreases args.len(),
{
    if args.len() == 0 {
        Seq::empty()
    } else {
        let front = args.drop_last();
        let before = law_texts_of_a_row(front);
        let last = args.len() - 1;
        let places = if args.last() is BulkString {
            before.push(last)
        } else {
            before
        };
        assert forall|j: int|
            #![trigger places[j]]
            0 <= j < places.len() implies 0 <= places[j] < args.len() && args[places[j]]
            == ValueView::BulkString(bulk_texts(args)[j]) by {
            if j < before.len() {
                assert(places[j] == before[j]);
                assert(front[before[j]] == args[before[j]]);
            }
        }
        assert forall|j: int, k: int|
            #![trigger places[j], places[k]]
            0 <= j < k < places.len() implies places[j] < places[k] by {
            assert(places[j] == before[j]);
            if k < before.len() {
                assert(places[k] == before[k]);
            }
        }
        assert forall|i: int|
            #![trigger args[i]]
            0 <= i < args.len() && args[i] is BulkString implies places.contains(i) by {
            if i < last {
                assert(front[i] == args[i]);
                let j = choose|j: int| 0 <= j < before.len() && before[j] == i;
                assert(places[j] == i);
            } else {
                assert(places[before.len() as int] == i);
            }
        }
        places
    }
}

/// The texts of a row of bulk strings are all of them.
pub proof fn law_texts_of_bulk_strings(args: Seq<ValueView>, words: Seq<Seq<char>>)
    requires
        args.len() == words.len(),
        forall|i: int| 0 <= i < args.len() ==> #[trigger] args[i] == ValueView::BulkString(words[i]),
    ensures
        bulk_texts(args) == words,
    decreases args.len(),
{
    if args.len() > 0 {
        let front = args.drop_last();
        assert forall|i: int| 0 <= i < front.len() implies #[trigger] front[i]
            == ValueView::BulkString(words.drop_last()[i]) by {
            assert(front[i] == args[i]);
        }
        law_texts_of_bulk_strings(front, words.drop_last());
        assert(args[args.len() - 1] == ValueView::BulkString(words.last()));
        assert(bulk_texts(args) =~= words);
    } else {
        assert(bulk_texts(args) =~= words);
    }
}

// ---------------------------------------------------------------------------
// RPUSH and LPUSH
// ---------------------------------------------------------------------------

/// `RPUSH` leaves the items of the list where they are and puts the new ones behind
/// them in the order given; it is answered with the length. A missing key starts with
/// no items, the first version and no end. Life time and version of a list stay.
pub proof fn law_rpush(args: Seq<ValueView>, key: Seq<char>, db: DbView, env: Env)
    requires
        args.len() > 0,
        args[0] == ValueView::BulkString(key),
        !db.contains_key(key) || is_list(db, key),
    ensures
        ({
            let (after, outcome) = command_effect("rpush"@, args, db, env);
            let old = if db.contains_key(key) {
                items_of(db, key)
            } else {
                Seq::empty()
            };
            let new = bulk_texts(args.skip(1));
            let list = items_of(after, key);
            &&& accepted("rpush"@, args, db, env)
            &&& is_list(after, key)
            &&& list.len() == old.len() + new.len()
            &&& forall|i: int| 0 <= i < old.len() ==> #[trigger] list[i] == old[i]
            &&& forall|i: int| 0 <= i < new.len() ==> list[old.len() + i] == #[trigger] new[i]
            &&& outcome == OutcomeView::Reply(ValueView::Integer(list.len() as i64))
            &&& db.contains_key(key) ==> after[key].expires_at == db[key].expires_at
                && after[key].version == db[key].version
            &&& !db.contains_key(key) ==> after[key].expires_at is None && after[key].version == 1
            &&& forall|k: Seq<char>|
                k != key ==> (#[trigger] after.contains_key(k) <==> db.contains_key(k))
            &&& forall|k: Seq<char>|
                k != key && db.contains_key(k) ==> #[trigger] after[k] == db[k]
        }),
{
    lemma_rpush(args);
}

/// `LPUSH` to a list puts each new item in front, so that the last one given stands
/// first, and leaves the items of the list behind them; life time and version stay.
/// On a missing key the items stand in the order given, at version zero and without
/// an end. It is answered with the length.
pub proof fn law_lpush(args: Seq<ValueView>, key: Seq<char>, db: DbView, env: Env)
    requires
        args.len() > 0,
        args[0] == ValueView::BulkString(key),
        !db.contains_key(key) || is_list(db, key),
    ensures
        ({
            let (after, outcome) = command_effect("lpush"@, args, db, env);
            let new = bulk_texts(args.skip(1));
            let list = items_of(after, key);
            &&& accepted("lpush"@, args, db, env)
            &&& is_list(after, key)
            &&& outcome == OutcomeView::Reply(ValueView::Integer(list.len() as i64))
            &&& db.contains_key(key) ==> {
                let old = items_of(db, key);
                &&& list.len() == new.len() + old.len()
                &&& forall|i: int|
                    0 <= i < new.len() ==> list[new.len() - 1 - i] == #[trigger] new[i]
                &&& forall|i: int| 0 <= i < old.len() ==> list[new.len() + i] == #[trigger] old[i]
                &&& after[key].expires_at == db[key].expires_at
                &&& after[key].version == db[key].version
            }
            &&& !db.contains_key(key) ==> {
                &&& list == new
                &&& after[key].expires_at is None
                &&& after[key].version == 0
            }
            &&& forall|k: Seq<char>|
                k != key ==> (#[trigger] after.contains_key(k) <==> db.contains_key(k))
            &&& forall|k: Seq<char>|
                k != key && db.contains_key(k) ==> #[trigger] after[k] == db[k]
        }),
{
    lemma_lpush(args);
    if db.contains_key(key) {
        let old = items_of(db, key);
        let new = bulk_texts(args.skip(1));
        let list = items_of(command_effect("lpush"@, args, db, env).0, key);
        assert(list =~= new.reverse() + old);
        assert forall|i: int| 0 <= i < new.len() implies list[new.len() - 1 - i]
            == #[trigger] new[i] by {
            assert(new.reverse()[new.len() - 1 - i] == new[i]);
        }
        assert forall|i: int| 0 <= i < old.len() implies list[new.len() + i]
            == #[trigger] old[i] by {
            assert(new.reverse().len() == new.len());
        }
    }
}

/// A push is not defined without a key, nor on a key of another kind.
pub proof fn law_pushes_need_a_list(args: Seq<ValueView>, db: DbView, env: Env)
    requires
        args.len() > 0 && args[0] is BulkString ==> db.contains_key(args[0]->BulkString_0)
            && !(db[args[0]->BulkString_0].value is List),
    ensures
        !accepted("rpush"@, args, db, env),
        !accepted("lpush"@, args, db, env),
{
    lemma_rpush(args);
    lemma_lpush(args);
}

// ---------------------------------------------------------------------------
// LRANGE and LLEN
// ---------------------------------------------------------------------------

/// The answer to an `LRANGE` of a key between two indices.
pub open spec fn range_answer(
    args: Seq<ValueView>,
    db: DbView,
    env: Env,
) -> ValueView {
    command_effect("lrange"@, args, db, env).1->Reply_0
}

/// Whether words ask for the items of a key between two indices.
pub open spec fn asks_for_range(
    args: Seq<ValueView>,
    key: Seq<char>,
    start: int,
    stop: int,
) -> bool {
    &&& args.len() >= 3
    &&& args[0] == ValueView::BulkString(key)
    &&& args[1] matches ValueView::BulkString(a)
    &&& to_i64(a) matches Some(i)
    &&& i == start
    &&& args[2] matches ValueView::BulkString(b)
    &&& to_i64(b) matches Some(j)
    &&& j == stop
}

/// The range between two places of a list, both included, holds `stop - start + 1`
/// items, and the item at each of its places is that of the list so much further on.
pub proof fn law_range_inside(
    args: Seq<ValueView>,
    key: Seq<char>,
    start: int,
    stop: int,
    db: DbView,
    env: Env,
)
    requires
        asks_for_range(args, key, start, stop),
        is_list(db, key),
        0 <= start <= stop < items_of(db, key).len(),
    ensures
        ({
            let list = items_of(db, key);
            let (after, outcome) = command_effect("lrange"@, args, db, env);
            &&& accepted("lrange"@, args, db, env)
            &&& after == db
            &&& outcome matches OutcomeView::Reply(ValueView::Array(a))
            &&& a.len() == stop - start + 1
            &&& forall|i: int|
                0 <= i < a.len() ==> #[trigger] a[i] == ValueView::BulkString(list[start + i])
        }),
{
    lemma_lrange(args);
}

/// A negative index counts from the end: it asks for what the index plus the length
/// asks for. One before the start is the start, and a stop behind the end is the end.
pub proof fn law_range_indices(
    args: Seq<ValueView>,
    other: Seq<ValueView>,
    key: Seq<char>,
    start: int,
    stop: int,
    other_start: int,
    other_stop: int,
    db: DbView,
    env: Env,
)
    requires
        asks_for_range(args, key, start, stop),
        asks_for_range(other, key, other_start, other_stop),
        is_list(db, key),
        ({
            let len = items_of(db, key).len() as int;
            &&& len > 0
            &&& other_start == start || (start < 0 && other_start == start + len) || (start < -len
                && other_start == 0)
            &&& other_stop == stop || (stop < 0 && other_stop == stop + len) || (stop < -len
                && other_stop == 0) || (stop >= len && other_stop == len - 1)
            &&& start < -len ==> other_start == start || other_start == 0
            &&& stop < -len ==> other_stop == stop || other_stop == 0
        }),
    ensures
        range_answer(args, db, env) == range_answer(other, db, env),
{
    lemma_lrange(args);
    lemma_lrange(other);
    let list = items_of(db, key);
    let len = list.len() as int;
    assert forall|a: int| 0 <= a < len implies #[trigger] list.skip(a) == list.subrange(a, len) by {
        assert(list.skip(a) =~= list.subrange(a, len));
    }
}

/// A range that starts behind the end, or behind its stop, is empty; and so is every
/// range of a list without items and of a key that does not exist. A key of another kind is refused. Nothing
/// changes.
pub proof fn law_range_outside(
    args: Seq<ValueView>,
    key: Seq<char>,
    start: int,
    stop: int,
    db: DbView,
    env: Env,
)
    requires
        asks_for_range(args, key, start, stop),
    ensures
        accepted("lrange"@, args, db, env),
        command_effect("lrange"@, args, db, env).0 == db,
        !db.contains_key(key) ==> command_effect("lrange"@, args, db, env).1 == OutcomeView::Reply(
            ValueView::Array(Seq::empty()),
        ),
        is_list(db, key) && (items_of(db, key).len() == 0 || start >= items_of(db, key).len() || (0 <= stop < start))
            ==> command_effect("lrange"@, args, db, env).1 == OutcomeView::Reply(
            ValueView::Array(Seq::empty()),
        ),
        db.contains_key(key) && !is_list(db, key) ==> command_effect("lrange"@, args, db, env).1
            == wrong_type(),
{
    lemma_lrange(args);
    if is_list(db, key) && (items_of(db, key).len() == 0 || start >= items_of(db, key).len() || (0 <= stop < start)) {
        assert(command_effect("lrange"@, args, db, env).1->Reply_0->Array_0 =~= Seq::empty());
    }
}

/// `LRANGE` needs a key and two numbers.
pub proof fn law_range_needs_numbers(args: Seq<ValueView>, db: DbView, env: Env)
    requires
        args.len() < 3 || !(args[0] is BulkString) || !(args[1] is BulkString) || !(
        args[2] is BulkString) || to_i64(args[1]->BulkString_0) is None || to_i64(
            args[2]->BulkString_0,
        ) is None,
    ensures
        !accepted("lrange"@, args, db, env),
{
    lemma_lrange(args);
}

/// `LLEN` counts the items of a list; anything else has none.
pub proof fn law_llen(args: Seq<ValueView>, key: Seq<char>, db: DbView, env: Env)
    requires
        args.len() > 0,
        args[0] == ValueView::BulkString(key),
    ensures
        accepted("llen"@, args, db, env),
        command_effect("llen"@, args, db, env) == (
            db,
            OutcomeView::Reply(
                ValueView::Integer(
                    if is_list(db, key) {
                        items_of(db, key).len() as i64
                    } else {
                        0
                    },
                ),
            ),
        ),
{
    lemma_llen(args);
}

// ---------------------------------------------------------------------------
// LPOP and BLPOP
// ---------------------------------------------------------------------------

/// `LPOP` without a count takes the first item of a list that has one; the others
/// move up, and life time and version stay. Anything else is answered with nothing
/// and stays.
pub proof fn law_lpop_one(args: Seq<ValueView>, key: Seq<char>, db: DbView, env: Env)
    requires
        args.len() == 1,
        args[0] == ValueView::BulkString(key),
    ensures
        ({
            let (after, outcome) = command_effect("lpop"@, args, db, env);
            &&& accepted("lpop"@, args, db, env)
            &&& if is_list(db, key) && items_of(db, key).len() > 0 {
                let old = items_of(db, key);
                let list = items_of(after, key);
                &&& outcome == OutcomeView::Reply(ValueView::BulkString(old[0]))
                &&& after == db.insert(
                    key,
                    DbValueView {
                        value: DataView::List(list),
                        expires_at: db[key].expires_at,
                        version: db[key].version,
                    },
                )
                &&& list.len() == old.len() - 1
                &&& forall|i: int| 0 <= i < list.len() ==> #[trigger] list[i] == old[i + 1]
            } else {
                &&& outcome == OutcomeView::Reply(ValueView::NullBulkString)
                &&& after == db
            }
        }),
{
    lemma_lpop(args);
    if is_list(db, key) && items_of(db, key).len() == 0 {
        let old = items_of(db, key);
        assert(old.skip(0) =~= old);
        assert(command_effect("lpop"@, args, db, env).0 =~= db);
    }
}

/// `LPOP` with a count takes that many items of a list, or all of them where there
/// are fewer, and answers with them in their order; the others move up, and life time
/// and version stay. Anything but a list is answered with nothing and stays.
pub proof fn law_lpop_many(
    args: Seq<ValueView>,
    key: Seq<char>,
    count: usize,
    db: DbView,
    env: Env,
)
    requires
        args.len() >= 2,
        args[0] == ValueView::BulkString(key),
        args[1] is BulkString,
        to_usize(args[1]->BulkString_0) == Some(count),
    ensures
        ({
            let (after, outcome) = command_effect("lpop"@, args, db, env);
            &&& accepted("lpop"@, args, db, env)
            &&& if is_list(db, key) {
                let old = items_of(db, key);
                let list = items_of(after, key);
                let n = if count <= old.len() {
                    count as int
                } else {
                    old.len() as int
                };
                &&& outcome matches OutcomeView::Reply(ValueView::Array(a))
                &&& a.len() == n
                &&& forall|i: int| 0 <= i < n ==> #[trigger] a[i] == ValueView::BulkString(old[i])
                &&& after == db.insert(
                    key,
                    DbValueView {
                        value: DataView::List(list),
                        expires_at: db[key].expires_at,
                        version: db[key].version,
                    },
                )
                &&& list.len() == old.len() - n
                &&& forall|i: int| 0 <= i < list.len() ==> #[trigger] list[i] == old[n + i]
            } else {
                &&& outcome == OutcomeView::Reply(ValueView::NullBulkString)
                &&& after == db
            }
        }),
{
    lemma_lpop(args);
}

/// `LPOP` and `LLEN` need a key, and a count has to be a number.
pub proof fn law_pop_needs_a_key(args: Seq<ValueView>, db: DbView, env: Env)
    ensures
        args.len() == 0 || !(args[0] is BulkString) ==> !accepted("lpop"@, args, db, env)
            && !accepted("llen"@, args, db, env),
        args.len() >= 2 && (!(args[1] is BulkString) || to_usize(args[1]->BulkString_0) is None)
            ==> !accepted("lpop"@, args, db, env),
{
    lemma_lpop(args);
    lemma_llen(args);
}

/// `BLPOP` looks at all its words but the last as keys, and its last word is the time
/// limit; it changes nothing before it looks. It needs a time limit, and every word
/// has to be a bulk string.
pub proof fn law_blpop(args: Seq<ValueView>, words: Seq<Seq<char>>, db: DbView, env: Env)
    requires
        args.len() == words.len(),
        args.len() > 0,
        forall|i: int| 0 <= i < args.len() ==> #[trigger] args[i] == ValueView::BulkString(words[i]),
    ensures
        accepted("blpop"@, args, db, env),
        command_effect("blpop"@, args, db, env) == (
            db,
            OutcomeView::PopFromLists { keys: words.drop_last(), timeout: words.last() },
        ),
{
    lemma_blpop(args);
    assert(all_bulk(args, 0, args.len() as int)) by {
        assert forall|i: int| 0 <= i < args.len() implies (#[trigger] bulk(
            args,
            i,
        )) is Some by {
            assert(args[i] == ValueView::BulkString(words[i]));
        }
    }
    assert(args[args.len() - 1] == ValueView::BulkString(words.last()));
    let keys = command_effect("blpop"@, args, db, env).1->PopFromLists_keys;
    assert forall|i: int| 0 <= i < words.len() - 1 implies #[trigger] keys[i] == words[i] by {
        assert(args[i] == ValueView::BulkString(words[i]));
    }
    assert(keys =~= words.drop_last());
}

/// `BLPOP` is not defined on words that are no bulk strings, nor without words.
pub proof fn law_blpop_needs_bulk_strings(args: Seq<ValueView>, db: DbView, env: Env)
    requires
        args.len() == 0 || exists|i: int|
            0 <= i < args.len() && !((#[trigger] args[i]) is BulkString),
    ensures
        !accepted("blpop"@, args, db, env),
{
    lemma_blpop(args);
    if args.len() > 0 {
        let i = choose|i: int| 0 <= i < args.len() && !((#[trigger] args[i]) is BulkString);
        assert(bulk(args, i) is None);
    }
}

/// A look of a `BLPOP` takes the first item of the first key, in the order given, that
/// holds a list with an item: it answers with key and item, the other items move up,
/// and every other key stays.
pub proof fn law_look_takes_the_first(db: DbView, keys: Seq<Seq<char>>, n: int)
    requires
        0 <= n < keys.len(),
        is_list(db, keys[n]) && items_of(db, keys[n]).len() > 0,
        forall|j: int|
            0 <= j < n ==> !(is_list(db, #[trigger] keys[j]) && items_of(db, keys[j]).len() > 0),
    ensures
        ({
            let (after, found) = pop_first_effect(db, keys);
            let key = keys[n];
            let old = items_of(db, key);
            let list = items_of(after, key);
            &&& found == Some(
                ValueView::Array(
                    seq![ValueView::BulkString(key), ValueView::BulkString(old[0])],
                ),
            )
            &&& after == db.insert(
                key,
                DbValueView {
                    value: DataView::List(list),
                    expires_at: db[key].expires_at,
                    version: db[key].version,
                },
            )
            &&& list.len() == old.len() - 1
            &&& forall|i: int| 0 <= i < list.len() ==> #[trigger] list[i] == old[i + 1]
        }),
    decreases keys.len(),
{
    if n > 0 {
        let rest = keys.skip(1);
        assert(rest[n - 1] == keys[n]);
        assert(!(is_list(db, keys[0]) && items_of(db, keys[0]).len() > 0));
        assert forall|j: int| 0 <= j < n - 1 implies !(is_list(db, #[trigger] rest[j]) && items_of(
            db,
            rest[j],
        ).len() > 0) by {
            assert(rest[j] == keys[j + 1]);
        }
        law_look_takes_the_first(db, rest, n - 1);
    }
}

/// A look of a `BLPOP` at keys without items finds nothing and changes nothing.
pub proof fn law_look_finds_nothing(db: DbView, keys: Seq<Seq<char>>)
    requires
        forall|j: int|
            0 <= j < keys.len() ==> !(is_list(db, #[trigger] keys[j]) && items_of(
                db,
                keys[j],
            ).len() > 0),
    ensures
        pop_first_effect(db, keys) == (db, None::<ValueView>),
    decreases keys.len(),
{
    if keys.len() > 0 {
        let rest = keys.skip(1);
        assert(!(is_list(db, keys[0]) && items_of(db, keys[0]).len() > 0));
        assert forall|j: int| 0 <= j < rest.len() implies !(is_list(db, #[trigger] rest[j])
            && items_of(db, rest[j]).len() > 0) by {
            assert(rest[j] == keys[j + 1]);
        }
        law_look_finds_nothing(db, rest);
    }
}

} // verus!
