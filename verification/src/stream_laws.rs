//! What the commands on streams do, entry by entry.

use crate::command_laws::wrong_type;
use crate::execute::{accepted, command_effect, defined, effect, Env, OutcomeView};
use crate::names::{lemma_xadd, lemma_xrange, lemma_xread};
use crate::request::{
    all_bulk, bulk, new_id, read_after, read_streams_of, request_of, NewIdView, ReadFromView,
    RequestView,
};
use crate::resp::ValueView;
use crate::store::{id_less, parse_id, DbView, StreamEntryView};
use crate::streams::{
    entry_value, is_wanted, selection, start_of, starts_of, stream_result, stream_results,
    StartView, Wanted,
};
use crate::text::{decimal, is_first_hyphen, lemma_split_hyphen, lowercase, split_hyphen, to_u64};
use vstd::prelude::*;

verus! {

// ---------------------------------------------------------------------------
// Ids
// ---------------------------------------------------------------------------

/// The place of an id among all ids.
pub open spec fn rank(id: (u64, u64)) -> int {
    id.0 * 0x1_0000_0000_0000_0000 + id.1
}

/// Ids are ordered as the numbers that their milliseconds and, below them, their
/// sequence numbers make.
pub proof fn law_order_of_ids(a: (u64, u64), b: (u64, u64))
    ensures
        id_less(a, b) <==> rank(a) < rank(b),
        rank(a) == rank(b) <==> a == b,
{
}

/// An id is two numbers with a hyphen between them; the first hyphen counts.
pub proof fn law_id_is_two_numbers(ms: Seq<char>, seq: Seq<char>)
    requires
        !ms.contains('-'),
    ensures
        parse_id(ms + seq!['-'] + seq) == (match (to_u64(ms), to_u64(seq)) {
            (Some(m), Some(s)) => Some((m, s)),
            _ => None,
        }),
{
    let id = ms + seq!['-'] + seq;
    let n = ms.len() as int;
    assert(is_first_hyphen(id, n)) by {
        assert forall|k: int| 0 <= k < n implies id[k] != '-' by {
            assert(ms.contains(ms[k]));
        }
    }
    lemma_split_hyphen(id, n);
    assert(id.take(n) =~= ms);
    assert(id.skip(n + 1) =~= seq);
}

/// A text without a hyphen is no id.
pub proof fn law_id_has_a_hyphen(text: Seq<char>)
    requires
        !text.contains('-'),
    ensures
        parse_id(text) is None,
{
}

// ---------------------------------------------------------------------------
// XADD
// ---------------------------------------------------------------------------

/// Whether a key holds a stream.
pub open spec fn is_stream(db: DbView, key: Seq<char>) -> bool {
    db.contains_key(key) && db[key].value is Stream
}

/// The entries of a key; one that does not exist or is of another kind has none.
pub open spec fn entries_of(db: DbView, key: Seq<char>) -> Seq<StreamEntryView> {
    if is_stream(db, key) {
        db[key].value->Stream_0
    } else {
        Seq::empty()
    }
}

/// What is added to a stream: an entry behind those that are there, under a key whose
/// life time and version stay, or under a new key at version one and without an end;
/// every other key stays, and the id is the answer.
pub open spec fn adds(
    db: DbView,
    key: Seq<char>,
    entry: StreamEntryView,
    after: DbView,
    outcome: OutcomeView,
) -> bool {
    let old = entries_of(db, key);
    let new = entries_of(after, key);
    &&& outcome == OutcomeView::Reply(ValueView::BulkString(entry.id))
    &&& is_stream(after, key)
    &&& new.len() == old.len() + 1
    &&& forall|i: int| 0 <= i < old.len() ==> #[trigger] new[i] == old[i]
    &&& new[old.len() as int] == entry
    &&& db.contains_key(key) ==> after[key].expires_at == db[key].expires_at && after[key].version
        == db[key].version
    &&& !db.contains_key(key) ==> after[key].expires_at is None && after[key].version == 1
    &&& forall|k: Seq<char>| k != key ==> (#[trigger] after.contains_key(k) <==> db.contains_key(k))
    &&& forall|k: Seq<char>| k != key && db.contains_key(k) ==> #[trigger] after[k] == db[k]
}

/// The milliseconds of the id that an `XADD` has the server complete: the time, or
/// those that were given.
pub open spec fn given_ms(id: NewIdView, unix_ms: u64) -> u64 {
    if let NewIdView::At(ms) = id {
        ms
    } else {
        unix_ms
    }
}

/// Where the server completes an id, the sequence number is one more than that of the
/// last entry if the milliseconds are the same; otherwise it is zero, or one for the
/// milliseconds zero. It is not defined where the number has no room.
pub proof fn law_generated_id(
    db: DbView,
    key: Seq<char>,
    id: NewIdView,
    fields: Seq<(Seq<char>, Seq<char>)>,
    env: Env,
    last: (u64, u64),
    seq: int,
)
    requires
        !(id is Explicit),
        !db.contains_key(key) || is_stream(db, key),
        entries_of(db, key).len() > 0 ==> parse_id(entries_of(db, key).last().id) == Some(last),
        seq == (if entries_of(db, key).len() > 0 && last.0 == given_ms(id, env.unix_ms) {
            last.1 + 1
        } else if given_ms(id, env.unix_ms) == 0 {
            1
        } else {
            0
        }),
    ensures
        ({
            let q = RequestView::XAdd { key, id, fields };
            let (after, outcome) = effect(q, db, env);
            let text = decimal(given_ms(id, env.unix_ms) as nat) + seq!['-'] + decimal(seq as nat);
            &&& defined(q, db, env) <==> seq <= u64::MAX
            &&& adds(db, key, StreamEntryView { id: text, fields }, after, outcome)
        }),
{
}

/// An explicit id is taken as it was written where it lies above `0-0` and above the
/// last entry; otherwise it is refused and nothing changes. It has to be an id.
pub proof fn law_explicit_id(
    db: DbView,
    key: Seq<char>,
    text: Seq<char>,
    fields: Seq<(Seq<char>, Seq<char>)>,
    env: Env,
    last: (u64, u64),
)
    requires
        !db.contains_key(key) || is_stream(db, key),
        entries_of(db, key).len() > 0 ==> parse_id(entries_of(db, key).last().id) == Some(last),
    ensures
        ({
            let q = RequestView::XAdd { key, id: NewIdView::Explicit(text), fields };
            let (after, outcome) = effect(q, db, env);
            let id = parse_id(text);
            &&& defined(q, db, env) <==> id is Some
            &&& id is Some && rank(id->0) == 0 ==> after == db && outcome == OutcomeView::Reply(
                ValueView::Error("ERR The ID specified in XADD must be greater than 0-0"@),
            )
            &&& id is Some && rank(id->0) > 0 && entries_of(db, key).len() > 0 && rank(id->0)
                <= rank(last) ==> after == db && outcome == OutcomeView::Reply(
                ValueView::Error(
                    "ERR The ID specified in XADD is equal or smaller than the target stream top item"@,
                ),
            )
            &&& id is Some && rank(id->0) > 0 && (entries_of(db, key).len() == 0 || rank(id->0)
                > rank(last)) ==> adds(
                db,
                key,
                StreamEntryView { id: text, fields },
                after,
                outcome,
            )
        }),
{
}

/// A key of another kind refuses an entry and stays.
pub proof fn law_xadd_to_another_kind(
    db: DbView,
    key: Seq<char>,
    id: NewIdView,
    fields: Seq<(Seq<char>, Seq<char>)>,
    env: Env,
)
    requires
        db.contains_key(key),
        !is_stream(db, key),
    ensures
        defined(RequestView::XAdd { key, id, fields }, db, env),
        effect(RequestView::XAdd { key, id, fields }, db, env) == (db, wrong_type()),
{
}

/// Two texts with a hyphen between them.
pub open spec fn hyphened(first: Seq<char>, second: Seq<char>) -> Seq<char> {
    first + seq!['-'] + second
}

/// The text of one character.
pub open spec fn seq_of(c: char) -> Seq<char> {
    seq![c]
}

/// Whether a text asks for an id: `*` for the time, milliseconds and `-*` for those
/// milliseconds, milliseconds and a hyphen and anything else for that text.
pub open spec fn asks_for_id(text: Seq<char>, id: NewIdView) -> bool {
    match id {
        NewIdView::Now => text == seq_of('*'),
        NewIdView::At(ms) => exists|first: Seq<char>|
            !first.contains('-') && to_u64(first) == Some(ms) && #[trigger] hyphened(
                first,
                seq_of('*'),
            ) == text,
        NewIdView::Explicit(t) => {
            &&& t == text
            &&& exists|first: Seq<char>, second: Seq<char>|
                !first.contains('-') && to_u64(first) is Some && second != seq_of('*')
                    && #[trigger] hyphened(first, second) == text
        },
    }
}

/// The words of an `XADD`: the key, the id, and then names and values of fields in
/// turn, in the order in which the entry holds them. A last name without a value is
/// passed over.
pub proof fn law_words_of_xadd(
    args: Seq<ValueView>,
    key: Seq<char>,
    text: Seq<char>,
    id: NewIdView,
    fields: Seq<(Seq<char>, Seq<char>)>,
    db: DbView,
    env: Env,
)
    requires
        args.len() >= 2,
        args[0] == ValueView::BulkString(key),
        args[1] == ValueView::BulkString(text),
        asks_for_id(text, id),
        fields.len() == (args.len() - 2) / 2,
        forall|i: int|
            #![trigger fields[i]]
            0 <= i < fields.len() ==> args[2 + 2 * i] == ValueView::BulkString(fields[i].0)
                && args[3 + 2 * i] == ValueView::BulkString(fields[i].1),
    ensures
        ({
            let q = RequestView::XAdd { key, id, fields };
            &&& request_of("xadd"@, args) == Some(q)
            &&& command_effect("xadd"@, args, db, env) == effect(q, db, env)
            &&& accepted("xadd"@, args, db, env) == defined(q, db, env)
        }),
{
    lemma_xadd(args);
    reveal_strlit("*");
    assert("*"@ =~= seq!['*']);
    lemma_new_id(text, id);
    let rest = args.skip(2);
    let n = fields.len() as int;
    assert(rest.len() / 2 == n);
    assert forall|k: int| 0 <= k < 2 * n implies (#[trigger] bulk(rest, k)) is Some by {
        let f = fields[k / 2];
        assert(rest[k] == args[2 + k]);
        assert(k == 2 * (k / 2) || k == 2 * (k / 2) + 1);
    }
    assert(all_bulk(rest, 0, 2 * n));
    let read = Seq::new(n as nat, |i: int| (bulk(rest, 2 * i)->0, bulk(rest, 2 * i + 1)->0));
    assert forall|i: int| 0 <= i < n implies #[trigger] read[i] == fields[i] by {
        assert(rest[2 * i] == args[2 + 2 * i]);
        assert(rest[2 * i + 1] == args[3 + 2 * i]);
    }
    assert(read =~= fields);
}

proof fn lemma_new_id(text: Seq<char>, id: NewIdView)
    ensures
        asks_for_id(text, id) <==> new_id(text) == Some(id),
{
    reveal_strlit("*");
    assert("*"@ =~= seq_of('*'));
    if asks_for_id(text, id) {
        match id {
            NewIdView::Now => {},
            NewIdView::At(ms) => {
                let first = choose|first: Seq<char>|
                    !first.contains('-') && to_u64(first) == Some(ms) && #[trigger] hyphened(
                        first,
                        seq_of('*'),
                    ) == text;
                lemma_hyphen(first, seq_of('*'));
                assert(text[first.len() as int] == '-');
            },
            NewIdView::Explicit(t) => {
                let (first, second) = choose|first: Seq<char>, second: Seq<char>|
                    !first.contains('-') && to_u64(first) is Some && second != seq_of('*')
                        && #[trigger] hyphened(first, second) == text;
                lemma_hyphen(first, second);
                assert(text[first.len() as int] == '-');
            },
        }
    }
    if new_id(text) == Some(id) && text != seq_of('*') {
        let n = lemma_first_hyphen(text);
        let first = text.take(n);
        let second = text.skip(n + 1);
        lemma_split_hyphen(text, n);
        assert(hyphened(first, second) =~= text);
        assert(!first.contains('-'));
    }
}

proof fn lemma_first_hyphen(text: Seq<char>) -> (n: int)
    requires
        text.contains('-'),
    ensures
        is_first_hyphen(text, n),
    decreases text.len(),
{
    let front = text.drop_last();
    if front.contains('-') {
        let n = lemma_first_hyphen(front);
        assert forall|k: int| 0 <= k < n implies text[k] != '-' by {
            assert(front[k] == text[k]);
        }
        assert(text[n] == front[n]);
        n
    } else {
        let i = choose|i: int| 0 <= i < text.len() && text[i] == '-';
        assert forall|k: int| 0 <= k < text.len() - 1 implies text[k] != '-' by {
            assert(front.contains(front[k]));
        }
        i
    }
}

proof fn lemma_hyphen(first: Seq<char>, second: Seq<char>)
    requires
        !first.contains('-'),
    ensures
        split_hyphen(hyphened(first, second)) == Some((first, second)),
{
    let text = hyphened(first, second);
    let n = first.len() as int;
    assert(is_first_hyphen(text, n)) by {
        assert forall|k: int| 0 <= k < n implies text[k] != '-' by {
            assert(first.contains(first[k]));
        }
    }
    lemma_split_hyphen(text, n);
    assert(text.take(n) =~= first);
    assert(text.skip(n + 1) =~= second);
}

/// `XADD` is not defined without a key and an id, on a text that asks for no id, or on
/// a field that is no bulk string.
pub proof fn law_xadd_needs(args: Seq<ValueView>, db: DbView, env: Env)
    requires
        args.len() < 2 || !(args[0] is BulkString) || !(args[1] is BulkString) || (forall|
            id: NewIdView,
        |
            !#[trigger] asks_for_id(args[1]->BulkString_0, id)) || (exists|i: int|
            2 <= i < 2 + 2 * ((args.len() - 2) / 2) && !((#[trigger] args[i]) is BulkString)),
    ensures
        !accepted("xadd"@, args, db, env),
{
    lemma_xadd(args);
    if args.len() >= 2 && args[0] is BulkString && args[1] is BulkString {
        if let Some(id) = new_id(args[1]->BulkString_0) {
            lemma_new_id(args[1]->BulkString_0, id);
            let i = choose|i: int|
                2 <= i < 2 + 2 * ((args.len() - 2) / 2) && !((#[trigger] args[i]) is BulkString);
            assert(args.skip(2)[i - 2] == args[i]);
            assert(bulk(args.skip(2), i - 2) is None);
        }
    }
}

// ---------------------------------------------------------------------------
// Entries in answers
// ---------------------------------------------------------------------------

/// Whether a value shows an entry: its id, and the names and values of its fields in
/// turn.
pub open spec fn shows(v: ValueView, e: StreamEntryView) -> bool {
    &&& v matches ValueView::Array(parts)
    &&& parts.len() == 2
    &&& parts[0] == ValueView::BulkString(e.id)
    &&& parts[1] matches ValueView::Array(words)
    &&& words.len() == 2 * e.fields.len()
    &&& forall|i: int|
        #![trigger e.fields[i]]
        0 <= i < e.fields.len() ==> words[2 * i] == ValueView::BulkString(e.fields[i].0)
            && words[2 * i + 1] == ValueView::BulkString(e.fields[i].1)
}

/// Whether answers show the entries of a stream at given places, each of them and in
/// the order of the stream, where the places are all those whose ids are wanted.
pub open spec fn shows_all(
    answers: Seq<ValueView>,
    entries: Seq<StreamEntryView>,
    places: Seq<int>,
    wanted: spec_fn((u64, u64)) -> bool,
) -> bool {
    &&& answers.len() == places.len()
    &&& forall|j: int|
        #![trigger places[j]]
        0 <= j < places.len() ==> 0 <= places[j] < entries.len() && shows(
            answers[j],
            entries[places[j]],
        ) && wanted(parse_id(entries[places[j]].id)->0)
    &&& forall|j: int, k: int|
        #![trigger places[j], places[k]]
        0 <= j < k < places.len() ==> places[j] < places[k]
    &&& forall|i: int|
        #![trigger entries[i]]
        0 <= i < entries.len() && wanted(parse_id(entries[i].id)->0) ==> places.contains(i)
}

proof fn lemma_shows(e: StreamEntryView)
    ensures
        shows(entry_value(e), e),
{
    let words = entry_value(e)->Array_0[1]->Array_0;
    assert forall|i: int|
        #![trigger e.fields[i]]
        0 <= i < e.fields.len() implies words[2 * i] == ValueView::BulkString(e.fields[i].0)
        && words[2 * i + 1] == ValueView::BulkString(e.fields[i].1) by {
        assert((2 * i) / 2 == i && (2 * i) % 2 == 0);
        assert((2 * i + 1) / 2 == i && (2 * i + 1) % 2 == 1);
    }
}

proof fn lemma_selection(
    entries: Seq<StreamEntryView>,
    want: Wanted,
    wanted: spec_fn((u64, u64)) -> bool,
) -> (places: Seq<int>)
    requires
        forall|e: StreamEntryView| #[trigger]
            is_wanted(want, e) <==> wanted(parse_id(e.id)->0),
    ensures
        shows_all(selection(entries, want), entries, places, wanted),
    decreases entries.len(),
{
    reveal(Seq::filter);
    let pred = |e: StreamEntryView| is_wanted(want, e);
    let show = |e: StreamEntryView| entry_value(e);
    if entries.len() == 0 {
        assert(selection(entries, want) =~= Seq::<ValueView>::empty());
        Seq::empty()
    } else {
        let front = entries.drop_last();
        let last = entries.len() - 1;
        let e = entries.last();
        let before = lemma_selection(front, want, wanted);
        let places = if is_wanted(want, e) {
            before.push(last)
        } else {
            before
        };
        lemma_shows(e);
        if is_wanted(want, e) {
            assert(entries.filter(pred) =~= front.filter(pred).push(e));
            assert(selection(entries, want) =~= selection(front, want).push(entry_value(e)));
        } else {
            assert(entries.filter(pred) =~= front.filter(pred));
            assert(selection(entries, want) =~= selection(front, want));
        }
        let answers = selection(entries, want);
        assert forall|j: int|
            #![trigger places[j]]
            0 <= j < places.len() implies 0 <= places[j] < entries.len() && shows(
            answers[j],
            entries[places[j]],
        ) && wanted(parse_id(entries[places[j]].id)->0) by {
            if j < before.len() {
                assert(places[j] == before[j]);
                assert(front[before[j]] == entries[before[j]]);
            }
        }
        assert forall|j: int, k: int|
            #![trigger places[j], places[k]]
            0 <= j < k < places.len() implies places[j] < places[k] by {
            assert(places[j] == before[j]);
            if k < before.len() {
                assert(places[k] == before[k]);
            }
        }
        assert forall|i: int|
            #![trigger entries[i]]
            0 <= i < entries.len() && wanted(parse_id(entries[i].id)->0) implies places.contains(
            i,
        ) by {
            if i < last {
                assert(front[i] == entries[i]);
                let j = choose|j: int| 0 <= j < before.len() && before[j] == i;
                assert(places[j] == i);
            } else {
                assert(places[before.len() as int] == i);
            }
        }
        places
    }
}

// ---------------------------------------------------------------------------
// XRANGE
// ---------------------------------------------------------------------------

/// Whether words ask for the entries of a key between two ids: `-` is the lowest and
/// `+` the highest, and milliseconds alone start with the lowest and end with the
/// highest sequence number.
pub open spec fn asks_between(
    args: Seq<ValueView>,
    key: Seq<char>,
    first: (u64, u64),
    last: (u64, u64),
) -> bool {
    &&& args.len() >= 3
    &&& args[0] == ValueView::BulkString(key)
    &&& args[1] matches ValueView::BulkString(a)
    &&& args[2] matches ValueView::BulkString(b)
    &&& a == seq!['-'] ==> first == (0u64, 0u64)
    &&& a != seq!['-'] && a.contains('-') ==> parse_id(a) == Some(first)
    &&& !a.contains('-') ==> to_u64(a) == Some(first.0) && first.1 == 0
    &&& b == seq!['+'] ==> last == (u64::MAX, u64::MAX)
    &&& b != seq!['+'] && b.contains('-') ==> parse_id(b) == Some(last)
    &&& b != seq!['+'] && !b.contains('-') ==> to_u64(b) == Some(last.0) && last.1 == u64::MAX
}

/// `XRANGE` answers with every entry whose id lies between the two, both included, and
/// with no other, in the order of the stream, and changes nothing. A key that does not
/// exist or is of another kind has no entries.
pub proof fn law_xrange(
    args: Seq<ValueView>,
    key: Seq<char>,
    first: (u64, u64),
    last: (u64, u64),
    db: DbView,
    env: Env,
) -> (places: Seq<int>)
    requires
        asks_between(args, key, first, last),
    ensures
        ({
            let (after, outcome) = command_effect("xrange"@, args, db, env);
            &&& accepted("xrange"@, args, db, env)
            &&& after == db
            &&& outcome matches OutcomeView::Reply(ValueView::Array(answers))
            &&& shows_all(
                answers,
                entries_of(db, key),
                places,
                |id: (u64, u64)| rank(first) <= rank(id) <= rank(last),
            )
        }),
{
    lemma_xrange(args);
    reveal_strlit("-");
    reveal_strlit("+");
    assert("-"@ =~= seq!['-']);
    assert("+"@ =~= seq!['+']);
    assert(seq!['-'].contains(seq!['-'][0]));
    lemma_selection(
        entries_of(db, key),
        Wanted::Between(first, last),
        |id: (u64, u64)| rank(first) <= rank(id) <= rank(last),
    )
}

/// `XRANGE` needs a key and two ends.
pub proof fn law_xrange_needs(args: Seq<ValueView>, db: DbView, env: Env)
    requires
        forall|key: Seq<char>, first: (u64, u64), last: (u64, u64)|
            !#[trigger] asks_between(args, key, first, last),
    ensures
        !accepted("xrange"@, args, db, env),
{
    lemma_xrange(args);
    reveal_strlit("-");
    reveal_strlit("+");
    assert("-"@ =~= seq!['-']);
    assert("+"@ =~= seq!['+']);
    assert(seq!['-'].contains(seq!['-'][0]));
    if let Some(RequestView::XRange { key, first, last }) = request_of("xrange"@, args) {
        assert(asks_between(args, key, first, last));
    }
}

// ---------------------------------------------------------------------------
// XREAD
// ---------------------------------------------------------------------------

/// The id after which a stream is read: the one that was given, or that of the last
/// entry, or the lowest of all where there is no entry.
pub proof fn law_start_of_a_stream(db: DbView, key: Seq<char>, after: Option<(u64, u64)>)
    ensures
        ({
            let start = start_of(db, ReadFromView { key, after });
            let entries = entries_of(db, key);
            &&& start.key == key
            &&& after is Some ==> start.after == after->0
            &&& after is None && entries.len() > 0 ==> start.after == parse_id(
                entries[entries.len() - 1].id,
            )->0
            &&& after is None && entries.len() == 0 ==> rank(start.after) == 0
        }),
{
}

/// Whether an answer shows a stream: its key, and every entry whose id lies above the
/// start, and no other, in the order of the stream.
pub open spec fn shows_stream(
    answer: ValueView,
    start: StartView,
    entries: Seq<StreamEntryView>,
    places: Seq<int>,
) -> bool {
    &&& answer matches ValueView::Array(parts)
    &&& parts.len() == 2
    &&& parts[0] == ValueView::BulkString(start.key)
    &&& parts[1] matches ValueView::Array(answers)
    &&& shows_all(answers, entries, places, |id: (u64, u64)| rank(id) > rank(start.after))
}

/// A look of an `XREAD` at one stream answers with the stream and all of its entries
/// above the start where there is one, and with nothing where there is none.
pub proof fn law_look_at_a_stream(db: DbView, start: StartView) -> (places: Seq<int>)
    ensures
        ({
            let entries = entries_of(db, start.key);
            let result = stream_results(db, seq![start]);
            &&& places.len() == 0 ==> result.len() == 0 && shows_all(
                Seq::empty(),
                entries,
                places,
                |id: (u64, u64)| rank(id) > rank(start.after),
            )
            &&& places.len() > 0 ==> result.len() == 1 && shows_stream(
                result[0],
                start,
                entries,
                places,
            )
        }),
{
    let entries = entries_of(db, start.key);
    let want = Wanted::After(start.after);
    let places = lemma_selection(
        entries,
        want,
        |id: (u64, u64)| rank(id) > rank(start.after),
    );
    let one = seq![start];
    assert(one.drop_last() =~= Seq::<StartView>::empty());
    assert(stream_results(db, one.drop_last()) =~= Seq::<ValueView>::empty());
    assert(stream_results(db, one) =~= stream_result(db, start));
    if places.len() == 0 {
        assert(selection(entries, want) =~= Seq::<ValueView>::empty());
    }
    places
}

/// A look of an `XREAD` at streams answers with what looks at each of them answer
/// with, one after the other.
pub proof fn law_look_at_streams(db: DbView, first: Seq<StartView>, second: Seq<StartView>)
    ensures
        stream_results(db, first + second) == stream_results(db, first) + stream_results(
            db,
            second,
        ),
        stream_results(db, Seq::empty()).len() == 0,
    decreases second.len(),
{
    if second.len() == 0 {
        assert(first + second =~= first);
        assert(stream_results(db, first) + stream_results(db, second) =~= stream_results(
            db,
            first,
        ));
    } else {
        assert((first + second).drop_last() =~= first + second.drop_last());
        law_look_at_streams(db, first, second.drop_last());
        assert(stream_results(db, first + second) =~= stream_results(db, first) + stream_results(
            db,
            second,
        ));
    }
}

/// The words of an `XREAD` that does not wait: a word that is not looked at, keys, and
/// as many ids, `$` for the last one of the stream. Key and id at the same place go
/// together, and a word left over is passed over. With `BLOCK` and milliseconds in
/// front, the command waits.
pub proof fn law_words_of_xread(
    args: Seq<ValueView>,
    block_ms: Option<u64>,
    streams: Seq<ReadFromView>,
    db: DbView,
    env: Env,
)
    requires
        args.len() > 0,
        args[0] is BulkString,
        block_ms is None <==> lowercase(args[0]->BulkString_0) != "block"@,
        block_ms is Some ==> args.len() >= 3 && args[1] is BulkString && to_u64(
            args[1]->BulkString_0,
        ) == block_ms,
        ({
            let from: int = if block_ms is Some {
                3
            } else {
                1
            };
            let n = streams.len();
            &&& n == (args.len() - from) / 2
            &&& forall|i: int|
                #![trigger streams[i]]
                0 <= i < n ==> {
                    &&& args[from + i] == ValueView::BulkString(streams[i].key)
                    &&& args[from + n + i] matches ValueView::BulkString(id)
                    &&& id == seq!['$'] ==> streams[i].after is None
                    &&& id != seq!['$'] ==> streams[i].after is Some && streams[i].after
                        == parse_id(id)
                }
        }),
    ensures
        accepted("xread"@, args, db, env),
        ({
            let (after, outcome) = command_effect("xread"@, args, db, env);
            &&& after == db
            &&& outcome matches OutcomeView::ReadStreams { block_ms: b, starts }
            &&& b == block_ms
            &&& starts.len() == streams.len()
            &&& forall|i: int|
                #![trigger starts[i]]
                0 <= i < starts.len() ==> starts[i] == start_of(db, streams[i])
        }),
{
    lemma_xread(args);
    reveal_strlit("$");
    assert("$"@ =~= seq!['$']);
    let from: int = if block_ms is Some {
        3
    } else {
        1
    };
    let rest = args.skip(from);
    let n = streams.len() as int;
    assert(rest.len() / 2 == n);
    assert forall|k: int| 0 <= k < 2 * n implies (#[trigger] bulk(rest, k)) is Some by {
        assert(rest[k] == args[from + k]);
        if k < n {
            let s = streams[k];
        } else {
            let s = streams[k - n];
            assert(args[from + n + (k - n)] is BulkString);
        }
    }
    assert(all_bulk(rest, 0, 2 * n));
    assert forall|i: int| 0 <= i < n implies read_after(
        (#[trigger] bulk(rest, n + i))->0,
    ) == Some(streams[i].after) by {
        let s = streams[i];
        assert(rest[n + i] == args[from + n + i]);
    }
    let read = read_streams_of(rest);
    assert(read is Some);
    assert forall|i: int| 0 <= i < n implies #[trigger] read->0[i] == streams[i] by {
        let s = streams[i];
        assert(rest[i] == args[from + i]);
        assert(bulk(rest, n + i) is Some);
    }
    assert(read->0 =~= streams);
    let starts = starts_of(db, streams);
    assert forall|i: int| 0 <= i < starts.len() implies #[trigger] starts[i] == start_of(
        db,
        streams[i],
    ) by {}
}

/// `XREAD` is not defined on words that are no bulk strings, on ids that are none, or
/// on a time limit that is no number.
pub proof fn law_xread_needs(args: Seq<ValueView>, db: DbView, env: Env, i: int)
    ensures
        args.len() == 0 || !(args[0] is BulkString) ==> !accepted("xread"@, args, db, env),
        args.len() > 0 && args[0] is BulkString && lowercase(args[0]->BulkString_0) == "block"@ && (
        args.len() < 3 || !(args[1] is BulkString) || to_u64(args[1]->BulkString_0) is None)
            ==> !accepted("xread"@, args, db, env),
        args.len() > 0 && args[0] is BulkString && ({
            let from: int = if lowercase(args[0]->BulkString_0) == "block"@ {
                3
            } else {
                1
            };
            let n = (args.len() - from) / 2;
            &&& args.len() >= from
            &&& from <= i < from + 2 * n
            &&& !(args[i] is BulkString) || (i >= from + n && args[i]->BulkString_0 != seq!['$']
                && parse_id(args[i]->BulkString_0) is None)
        }) ==> !accepted("xread"@, args, db, env),
{
    lemma_xread(args);
    reveal_strlit("$");
    assert("$"@ =~= seq!['$']);
    if args.len() > 0 && args[0] is BulkString {
        let from: int = if lowercase(args[0]->BulkString_0) == "block"@ {
            3
        } else {
            1
        };
        let rest = args.skip(from);
        let n = (rest.len() / 2) as int;
        if args.len() >= from && from <= i < from + 2 * n {
            assert(rest[i - from] == args[i]);
            if i >= from + n {
                assert(bulk(rest, n + (i - from - n)) == bulk(rest, i - from));
            }
            assert(bulk(rest, i - from) is Some <==> args[i] is BulkString);
        }
    }
}

} // verus!
