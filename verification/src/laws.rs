//! What holds of the commands taken together.

use crate::execute::{defined, effect, Env, OutcomeView};
use crate::lists::{
    bulk_values, has_item, list_at, llen_reply, lpop_effect, lpush_effect, lrange_reply,
    pop_first_effect, push_defined, rpush_effect, with_list,
};
use crate::request::{NewIdView, ReadFromView, RequestView};
use crate::resp::ValueView;
use crate::store::{
    id_less, id_of, parse_id, valid_db, valid_entries, versions_fit, DataView, DbView,
    StreamEntryView,
};
use crate::streams::{
    chosen_id, entries_or_none, entry_value, generated_ms, is_wanted, law_id_text, next_seq,
    selection, starts_of, stream_result, stream_results, xadd_defined, xadd_effect, xrange_reply,
    StartView, Wanted,
};
use crate::strings::{expired, get_reply, incr_defined, incr_effect, swept, type_reply};
use crate::text::{decimal_int, law_parse_of_decimal_int};
use vstd::prelude::*;

verus! {

// ---------------------------------------------------------------------------
// All requests
// ---------------------------------------------------------------------------

/// The key that a request may change.
pub open spec fn changed_key(q: RequestView) -> Option<Seq<char>> {
    match q {
        RequestView::SetKey { key, value, expiry_ms } => Some(key),
        RequestView::Get { key } => Some(key),
        RequestView::RPush { key, items } => Some(key),
        RequestView::LPush { key, items } => Some(key),
        RequestView::LPop { key, count } => Some(key),
        RequestView::Type { key } => Some(key),
        RequestView::XAdd { key, id, fields } => Some(key),
        RequestView::Incr { key } => Some(key),
        _ => None,
    }
}

/// A request changes no key but its own.
pub proof fn law_other_keys_stay(q: RequestView, db: DbView, env: Env, other: Seq<char>)
    requires
        changed_key(q) != Some(other),
    ensures
        effect(q, db, env).0.contains_key(other) == db.contains_key(other),
        db.contains_key(other) ==> effect(q, db, env).0[other] == db[other],
{
}

/// A request without a key of its own leaves the database as it is.
pub proof fn law_reading_changes_nothing(q: RequestView, db: DbView, env: Env)
    requires
        changed_key(q) is None,
    ensures
        effect(q, db, env).0 == db,
{
}

/// An answer with an error goes with an unchanged database.
pub proof fn law_error_changes_nothing(q: RequestView, db: DbView, env: Env)
    requires
        effect(q, db, env).1 matches OutcomeView::Reply(ValueView::Error(e)),
    ensures
        effect(q, db, env).0 == db,
{
}

/// Every request keeps the entries of the streams valid: each has an id, and the
/// id lies above `0-0`.
pub proof fn law_streams_stay_valid(q: RequestView, db: DbView, env: Env)
    requires
        valid_db(db),
        defined(q, db, env),
    ensures
        valid_db(effect(q, db, env).0),
{
    let after = effect(q, db, env).0;
    if let RequestView::XAdd { key, id, fields } = q {
        let entries = entries_or_none(db, key);
        assert(valid_entries(entries));
        if let Ok(text) = chosen_id(entries, id, env.unix_ms) {
            if let NewIdView::Explicit(t) = id {
            } else {
                let ms = generated_ms(id, env.unix_ms);
                if next_seq(entries, ms) <= u64::MAX {
                    law_id_text(ms, next_seq(entries, ms) as u64);
                }
            }
            let grown = entries.push(StreamEntryView { id: text, fields });
            if xadd_effect(db, key, id, fields, env.unix_ms).0 != db {
                assert forall|i: int| 0 <= i < grown.len() implies parse_id(
                    (#[trigger] grown[i]).id,
                ) is Some && id_less((0, 0), id_of(grown[i])) by {
                    if i < entries.len() {
                        assert(grown[i] == entries[i]);
                    }
                }
            }
        }
    }
    assert forall|k: Seq<char>| #[trigger]
        after.contains_key(k) implies (after[k].value matches DataView::Stream(s) ==> valid_entries(
        s,
    )) by {
        if changed_key(q) != Some(k) {
            law_other_keys_stay(q, db, env, k);
            assert(db.contains_key(k));
        } else {
            assert(db.contains_key(k) ==> (db[k].value matches DataView::Stream(s)
                ==> valid_entries(s)));
        }
    }
}

/// Every request keeps the versions within a machine word.
pub proof fn law_versions_keep_fitting(q: RequestView, db: DbView, env: Env)
    requires
        versions_fit(db),
        defined(q, db, env),
    ensures
        versions_fit(effect(q, db, env).0),
{
    let after = effect(q, db, env).0;
    assert forall|k: Seq<char>| #[trigger] after.contains_key(k) implies after[k].version
        <= usize::MAX by {
        if changed_key(q) != Some(k) {
            law_other_keys_stay(q, db, env, k);
        }
        if db.contains_key(k) {
            assert(db[k].version <= usize::MAX);
        }
    }
}

// ---------------------------------------------------------------------------
// Texts
// ---------------------------------------------------------------------------

/// A `GET` gives back what a `SET` wrote, as long as it has not expired; after
/// that it gives nothing, and the key is gone.
pub proof fn law_get_after_set(
    db: DbView,
    key: Seq<char>,
    value: Seq<char>,
    expiry_ms: Option<u64>,
    set_env: Env,
    get_env: Env,
)
    ensures
        ({
            let after_set = effect(
                RequestView::SetKey { key, value, expiry_ms },
                db,
                set_env,
            ).0;
            let (after_get, outcome) = effect(RequestView::Get { key }, after_set, get_env);
            if expiry_ms is None || get_env.now <= set_env.now + expiry_ms->0 * 1_000_000 {
                after_get == after_set && outcome == OutcomeView::Reply(
                    ValueView::BulkString(value),
                )
            } else {
                !after_get.contains_key(key) && outcome == OutcomeView::Reply(
                    ValueView::NullBulkString,
                )
            }
        }),
{
}

/// `TYPE` answers `none` exactly where `GET` finds nothing, and `string` exactly
/// where `GET` finds a text.
pub proof fn law_type_agrees_with_get(db: DbView, key: Seq<char>, env: Env)
    ensures
        get_reply(db, key, env.now) is NullBulkString <==> type_reply(db, key, env.now)
            == ValueView::SimpleString("none"@),
        get_reply(db, key, env.now) is BulkString <==> type_reply(db, key, env.now)
            == ValueView::SimpleString("string"@),
        swept(swept(db, key, env.now), key, env.now) == swept(db, key, env.now),
{
    reveal_strlit("none");
    reveal_strlit("string");
    reveal_strlit("list");
    reveal_strlit("stream");
    assert("none"@.len() != "string"@.len() && "none"@.len() != "stream"@.len());
    assert("none"@[0] != "list"@[0]);
    assert("list"@.len() != "string"@.len());
    assert("stream"@[3] != "string"@[3]);
}

/// A number that is set and incremented is one more, in the answer and in the
/// text, and its life time stays.
pub proof fn law_incr_after_set(
    db: DbView,
    key: Seq<char>,
    n: i64,
    expiry_ms: Option<u64>,
    set_env: Env,
    incr_env: Env,
)
    requires
        n < i64::MAX,
    ensures
        ({
            let after_set = effect(
                RequestView::SetKey { key, value: decimal_int(n as int), expiry_ms },
                db,
                set_env,
            ).0;
            let (after, outcome) = effect(RequestView::Incr { key }, after_set, incr_env);
            &&& defined(RequestView::Incr { key }, after_set, incr_env)
            &&& outcome == OutcomeView::Reply(ValueView::Integer((n + 1) as i64))
            &&& after[key].value == DataView::String(decimal_int(n + 1))
            &&& after[key].expires_at == after_set[key].expires_at
        }),
{
    law_parse_of_decimal_int(n);
}

/// An `INCR` right after an `INCR` answers one more.
pub proof fn law_incr_again(db: DbView, key: Seq<char>, n: i64)
    requires
        incr_defined(db, key),
        incr_effect(db, key).1 == ValueView::Integer(n),
        n < i64::MAX,
    ensures
        incr_defined(incr_effect(db, key).0, key),
        incr_effect(incr_effect(db, key).0, key).1 == ValueView::Integer((n + 1) as i64),
{
    reveal_strlit("1");
    assert("1"@ =~= decimal_int(1));
    law_parse_of_decimal_int(n);
}

// ---------------------------------------------------------------------------
// Lists
// ---------------------------------------------------------------------------

/// The whole of a list is what it held before, followed by what was pushed to its
/// end.
pub proof fn law_range_after_rpush(db: DbView, key: Seq<char>, items: Seq<Seq<char>>)
    requires
        push_defined(db, key),
    ensures
        lrange_reply(rpush_effect(db, key, items).0, key, 0, -1i64) == ValueView::Array(
            bulk_values(
                (match list_at(db, key) {
                    Some(l) => l,
                    None => Seq::empty(),
                }) + items,
            ),
        ),
{
    let l = match list_at(db, key) {
        Some(l) => l,
        None => Seq::empty(),
    };
    let after = rpush_effect(db, key, items).0;
    assert(list_at(after, key)->0 =~= l + items);
    assert((l + items).subrange(0, (l + items).len() as int) =~= l + items);
    if (l + items).len() == 0 {
        assert((l + items) =~= Seq::<Seq<char>>::empty());
    }
}

/// The whole of a list that exists is what was pushed to its front, the last of it
/// first, followed by what it held before.
pub proof fn law_range_after_lpush(db: DbView, key: Seq<char>, items: Seq<Seq<char>>)
    requires
        list_at(db, key) is Some,
    ensures
        lrange_reply(lpush_effect(db, key, items).0, key, 0, -1i64) == ValueView::Array(
            bulk_values(items.reverse() + list_at(db, key)->0),
        ),
{
    let l = items.reverse() + list_at(db, key)->0;
    assert(list_at(lpush_effect(db, key, items).0, key) == Some(l));
    assert(l.subrange(0, l.len() as int) =~= l);
    if l.len() == 0 {
        assert(l =~= Seq::<Seq<char>>::empty());
    }
}

/// The answer to a push is the length that `LLEN` then answers.
pub proof fn law_push_answers_length(db: DbView, key: Seq<char>, items: Seq<Seq<char>>)
    requires
        push_defined(db, key),
    ensures
        rpush_effect(db, key, items).1 == llen_reply(rpush_effect(db, key, items).0, key),
        lpush_effect(db, key, items).1 == llen_reply(lpush_effect(db, key, items).0, key),
{
    let rev = items.reverse();
    assert(rev.len() == items.len());
}

/// What is pushed to the front of a list that exists is popped first, and leaves
/// the list as it was.
pub proof fn law_pop_undoes_lpush(db: DbView, key: Seq<char>, item: Seq<char>)
    requires
        list_at(db, key) is Some,
    ensures
        lpop_effect(lpush_effect(db, key, seq![item]).0, key, None) == (
            db,
            ValueView::BulkString(item),
        ),
{
    let l = list_at(db, key)->0;
    let pushed = lpush_effect(db, key, seq![item]).0;
    let longer = seq![item].reverse() + l;
    assert(list_at(pushed, key) == Some(longer));
    assert(longer[0] == item);
    assert(longer.skip(1) =~= l);
    assert(with_list(pushed, key, l) =~= db);
}

/// Items come out of a list in the order in which they were pushed to its end.
pub proof fn law_first_in_first_out(db: DbView, key: Seq<char>, items: Seq<Seq<char>>, n: usize)
    requires
        !db.contains_key(key),
        n <= items.len(),
    ensures
        lpop_effect(rpush_effect(db, key, items).0, key, Some(n)).1 == ValueView::Array(
            bulk_values(items.take(n as int)),
        ),
        list_at(lpop_effect(rpush_effect(db, key, items).0, key, Some(n)).0, key) == Some(
            items.skip(n as int),
        ),
{
}

/// A pop takes items and loses none: those taken and those left are the list.
pub proof fn law_pop_loses_nothing(db: DbView, key: Seq<char>, count: usize)
    requires
        list_at(db, key) is Some,
    ensures
        ({
            let (after, reply) = lpop_effect(db, key, Some(count));
            &&& list_at(after, key) is Some
            &&& reply is Array
            &&& reply->Array_0 + bulk_values(list_at(after, key)->0) == bulk_values(
                list_at(db, key)->0,
            )
            &&& reply->Array_0.len() <= count
        }),
{
    let l = list_at(db, key)->0;
    let (after, reply) = lpop_effect(db, key, Some(count));
    assert(reply->Array_0 + bulk_values(list_at(after, key)->0) =~= bulk_values(l));
}

/// A look of a `BLPOP` finds nothing exactly where no key has an item, and then
/// changes nothing.
pub proof fn law_pop_first_finds(db: DbView, keys: Seq<Seq<char>>)
    ensures
        pop_first_effect(db, keys).1 is None <==> forall|i: int|
            0 <= i < keys.len() ==> !has_item(db, #[trigger] keys[i]),
        pop_first_effect(db, keys).1 is None ==> pop_first_effect(db, keys).0 == db,
    decreases keys.len(),
{
    if keys.len() > 0 && !has_item(db, keys[0]) {
        let rest = keys.skip(1);
        law_pop_first_finds(db, rest);
        if forall|i: int| 0 <= i < rest.len() ==> !has_item(db, #[trigger] rest[i]) {
            assert forall|i: int| 0 <= i < keys.len() implies !has_item(db, #[trigger] keys[i]) by {
                if i > 0 {
                    assert(rest[i - 1] == keys[i]);
                }
            }
        } else {
            let i = choose|i: int| 0 <= i < rest.len() && has_item(db, #[trigger] rest[i]);
            assert(has_item(db, keys[i + 1]));
        }
    }
}

/// A look of a `BLPOP` pops from the first key that has an item, as an `LPOP`
/// does.
pub proof fn law_pop_first_is_lpop(db: DbView, keys: Seq<Seq<char>>, i: int)
    requires
        0 <= i < keys.len(),
        has_item(db, keys[i]),
        forall|j: int| 0 <= j < i ==> !has_item(db, #[trigger] keys[j]),
    ensures
        pop_first_effect(db, keys).0 == lpop_effect(db, keys[i], None).0,
        pop_first_effect(db, keys).1 == Some(
            ValueView::Array(
                seq![ValueView::BulkString(keys[i]), lpop_effect(db, keys[i], None).1],
            ),
        ),
    decreases keys.len(),
{
    if i > 0 {
        let rest = keys.skip(1);
        assert(rest[i - 1] == keys[i]);
        assert forall|j: int| 0 <= j < i - 1 implies !has_item(db, #[trigger] rest[j]) by {
            assert(rest[j] == keys[j + 1]);
        }
        assert(!has_item(db, keys[0]));
        law_pop_first_is_lpop(db, rest, i - 1);
    }
}

// ---------------------------------------------------------------------------
// Streams
// ---------------------------------------------------------------------------

/// Whether the ids of a stream grow from entry to entry.
pub open spec fn ids_grow(entries: Seq<StreamEntryView>) -> bool {
    forall|i: int, j: int|
        0 <= i < j < entries.len() ==> id_less(
            id_of(#[trigger] entries[i]),
            id_of(#[trigger] entries[j]),
        )
}

/// Whether the milliseconds of a new entry's id do not lie before those of the
/// last entry. An explicit id is held to that by `XADD` itself.
pub open spec fn not_in_the_past(
    entries: Seq<StreamEntryView>,
    id: NewIdView,
    unix_ms: u64,
) -> bool {
    id is Explicit || entries.len() == 0 || id_of(entries.last()).0 <= generated_ms(id, unix_ms)
}

/// Where an `XADD` adds an entry whose milliseconds are not in the past, its id
/// lies above the last one.
pub proof fn law_new_id_is_highest(
    entries: Seq<StreamEntryView>,
    id: NewIdView,
    unix_ms: u64,
)
    requires
        id matches NewIdView::Explicit(text) ==> parse_id(text) is Some,
        !(id is Explicit) ==> next_seq(entries, generated_ms(id, unix_ms)) <= u64::MAX,
        not_in_the_past(entries, id, unix_ms),
        entries.len() > 0,
        chosen_id(entries, id, unix_ms) is Ok,
    ensures
        parse_id(chosen_id(entries, id, unix_ms)->Ok_0) is Some,
        id_less(id_of(entries.last()), parse_id(chosen_id(entries, id, unix_ms)->Ok_0)->0),
{
    if !(id is Explicit) {
        let ms = generated_ms(id, unix_ms);
        law_id_text(ms, next_seq(entries, ms) as u64);
    }
}

/// The ids of a stream keep growing.
pub proof fn law_ids_keep_growing(
    db: DbView,
    key: Seq<char>,
    id: NewIdView,
    fields: Seq<(Seq<char>, Seq<char>)>,
    unix_ms: u64,
)
    requires
        valid_db(db),
        xadd_defined(db, key, id, unix_ms),
        ids_grow(entries_or_none(db, key)),
        not_in_the_past(entries_or_none(db, key), id, unix_ms),
    ensures
        ids_grow(entries_or_none(xadd_effect(db, key, id, fields, unix_ms).0, key)),
{
    let entries = entries_or_none(db, key);
    if !(db.contains_key(key) && !(db[key].value is Stream)) {
        if let Ok(text) = chosen_id(entries, id, unix_ms) {
            let grown = entries.push(StreamEntryView { id: text, fields });
            assert(entries_or_none(xadd_effect(db, key, id, fields, unix_ms).0, key) == grown);
            if entries.len() > 0 {
                law_new_id_is_highest(entries, id, unix_ms);
            }
            assert forall|i: int, j: int| 0 <= i < j < grown.len() implies id_less(
                id_of(#[trigger] grown[i]),
                id_of(#[trigger] grown[j]),
            ) by {
                if j < entries.len() {
                    assert(grown[i] == entries[i] && grown[j] == entries[j]);
                } else {
                    assert(grown[i] == entries[i]);
                    if i < entries.len() - 1 {
                        assert(id_less(id_of(entries[i]), id_of(entries[entries.len() - 1])));
                    }
                }
            }
        }
    }
}

proof fn lemma_filter_keeps_all(entries: Seq<StreamEntryView>, want: Wanted)
    requires
        forall|i: int| 0 <= i < entries.len() ==> is_wanted(want, #[trigger] entries[i]),
    ensures
        entries.filter(|e: StreamEntryView| is_wanted(want, e)) == entries,
    decreases entries.len(),
{
    reveal(Seq::filter);
    let pred = |e: StreamEntryView| is_wanted(want, e);
    if entries.len() > 0 {
        let front = entries.drop_last();
        assert forall|i: int| 0 <= i < front.len() implies is_wanted(want, #[trigger] front[i]) by {
            assert(front[i] == entries[i]);
        }
        lemma_filter_keeps_all(front, want);
        assert(is_wanted(want, entries[entries.len() - 1]));
        assert(entries.filter(pred) =~= entries);
    }
}

proof fn lemma_filter_keeps_none(entries: Seq<StreamEntryView>, want: Wanted)
    requires
        forall|i: int| 0 <= i < entries.len() ==> !is_wanted(want, #[trigger] entries[i]),
    ensures
        entries.filter(|e: StreamEntryView| is_wanted(want, e)) == Seq::<StreamEntryView>::empty(),
    decreases entries.len(),
{
    reveal(Seq::filter);
    if entries.len() > 0 {
        let front = entries.drop_last();
        assert forall|i: int| 0 <= i < front.len() implies !is_wanted(
            want,
            #[trigger] front[i],
        ) by {
            assert(front[i] == entries[i]);
        }
        lemma_filter_keeps_none(front, want);
        assert(!is_wanted(want, entries[entries.len() - 1]));
    }
}

/// The range from `-` to `+` is the whole stream, in its order.
pub proof fn law_full_range(db: DbView, key: Seq<char>)
    ensures
        xrange_reply(db, key, (0, 0), (u64::MAX, u64::MAX)) == ValueView::Array(
            entries_or_none(db, key).map_values(|e: StreamEntryView| entry_value(e)),
        ),
{
    lemma_filter_keeps_all(
        entries_or_none(db, key),
        Wanted::Between((0, 0), (u64::MAX, u64::MAX)),
    );
}

/// What `XADD` added stands at the end of the whole stream, under the id that it
/// answered with.
pub proof fn law_range_after_xadd(
    db: DbView,
    key: Seq<char>,
    id: NewIdView,
    fields: Seq<(Seq<char>, Seq<char>)>,
    unix_ms: u64,
    text: Seq<char>,
)
    requires
        xadd_effect(db, key, id, fields, unix_ms).1 == ValueView::BulkString(text),
    ensures
        xrange_reply(
            xadd_effect(db, key, id, fields, unix_ms).0,
            key,
            (0, 0),
            (u64::MAX, u64::MAX),
        ) == ValueView::Array(
            entries_or_none(db, key).map_values(|e: StreamEntryView| entry_value(e)).push(
                entry_value(StreamEntryView { id: text, fields }),
            ),
        ),
{
    let after = xadd_effect(db, key, id, fields, unix_ms).0;
    let entries = entries_or_none(db, key);
    let e = StreamEntryView { id: text, fields };
    law_full_range(after, key);
    assert(entries_or_none(after, key) == entries.push(e));
    assert(entries.push(e).map_values(|e: StreamEntryView| entry_value(e)) =~= entries.map_values(
        |e: StreamEntryView| entry_value(e),
    ).push(entry_value(e)));
}

/// A reader that starts after the last entry of a stream whose ids grow sees
/// nothing of what is there.
pub proof fn law_read_from_the_end_finds_nothing(db: DbView, key: Seq<char>)
    requires
        valid_db(db),
        ids_grow(entries_or_none(db, key)),
    ensures
        stream_results(db, starts_of(db, seq![ReadFromView { key, after: None }]))
            == Seq::<ValueView>::empty(),
{
    let from = ReadFromView { key, after: None };
    let starts = starts_of(db, seq![from]);
    let entries = entries_or_none(db, key);
    let want = Wanted::After(starts[0].after);
    assert forall|i: int| 0 <= i < entries.len() implies !is_wanted(
        want,
        #[trigger] entries[i],
    ) by {
        if i < entries.len() - 1 {
            assert(id_less(id_of(entries[i]), id_of(entries[entries.len() - 1])));
        }
    }
    lemma_filter_keeps_none(entries, want);
    assert(selection(entries, want) =~= Seq::<ValueView>::empty());
    assert(starts.drop_last() =~= Seq::<StartView>::empty());
    assert(stream_results(db, starts.drop_last()) =~= Seq::<ValueView>::empty());
    assert(stream_results(db, starts) =~= Seq::<ValueView>::empty());
}

/// A reader that starts after the last entry of a stream whose ids grow sees the
/// next entry that is added with an id that is not in the past, and nothing else.
pub proof fn law_read_from_the_end_finds_the_new(
    db: DbView,
    key: Seq<char>,
    id: NewIdView,
    fields: Seq<(Seq<char>, Seq<char>)>,
    unix_ms: u64,
    text: Seq<char>,
)
    requires
        valid_db(db),
        xadd_defined(db, key, id, unix_ms),
        ids_grow(entries_or_none(db, key)),
        not_in_the_past(entries_or_none(db, key), id, unix_ms),
        xadd_effect(db, key, id, fields, unix_ms).1 == ValueView::BulkString(text),
    ensures
        stream_results(
            xadd_effect(db, key, id, fields, unix_ms).0,
            starts_of(db, seq![ReadFromView { key, after: None }]),
        ) == seq![
            ValueView::Array(
                seq![
                    ValueView::BulkString(key),
                    ValueView::Array(seq![entry_value(StreamEntryView { id: text, fields })]),
                ],
            ),
        ],
{
    let from = ReadFromView { key, after: None };
    let starts = starts_of(db, seq![from]);
    let entries = entries_or_none(db, key);
    let want = Wanted::After(starts[0].after);
    let after = xadd_effect(db, key, id, fields, unix_ms).0;
    let e = StreamEntryView { id: text, fields };
    let grown = entries.push(e);
    assert(entries_or_none(after, key) == grown);
    assert forall|i: int| 0 <= i < entries.len() implies !is_wanted(
        want,
        #[trigger] entries[i],
    ) by {
        if i < entries.len() - 1 {
            assert(id_less(id_of(entries[i]), id_of(entries[entries.len() - 1])));
        }
    }
    lemma_filter_keeps_none(entries, want);
    if entries.len() > 0 {
        law_new_id_is_highest(entries, id, unix_ms);
    } else if !(id is Explicit) {
        law_id_text(
            generated_ms(id, unix_ms),
            next_seq(entries, generated_ms(id, unix_ms)) as u64,
        );
    }
    assert(is_wanted(want, e));
    assert(grown.filter(|e: StreamEntryView| is_wanted(want, e)) =~= seq![e]) by {
        reveal(Seq::filter);
        assert(grown.drop_last() =~= entries);
    }
    assert(selection(grown, want) =~= seq![entry_value(e)]);
    assert(starts.drop_last() =~= Seq::<StartView>::empty());
    assert(stream_results(after, starts.drop_last()) =~= Seq::<ValueView>::empty());
    assert(stream_results(after, starts) =~= stream_result(after, starts[0]));
}

} // verus!
