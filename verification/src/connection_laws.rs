//! What holds of a connection as a whole: what came in, and what goes out.

use crate::blocking::{pop_step, read_step, StepView};
use crate::decode::{
    decode_items, decode_value, first_crlf, lemma_decoded_size, stated_size, DecodedView, ItemsView,
};
use crate::execute::{effect, Env, OutcomeView};
use crate::lists::pop_first_effect;
use crate::replication_laws::{is_trimmed, law_case_does_not_matter};
use crate::request::{request_of, RequestView};
use crate::resp::ValueView;
use crate::session::{
    is_command, is_sent, offset_after, receive_step, session_step, ActionView, ReceivedView,
    SessionView,
};
use crate::store::DbView;
use crate::streams::stream_results;
use crate::text::{ascii_lower, lowercase};
use vstd::prelude::*;
use vstd::utf8::is_ascii_chars;

verus! {

// ---------------------------------------------------------------------------
// Answers to requests
// ---------------------------------------------------------------------------

/// Whether a request can end with an answer: its own, or, where it waits, that of
/// any look at whatever the database holds by then.
pub open spec fn can_answer(q: RequestView, db: DbView, env: Env, answer: ValueView) -> bool {
    match effect(q, db, env).1 {
        OutcomeView::Reply(v) => answer == v,
        OutcomeView::Broadcast { message, reply } => answer == reply,
        OutcomeView::Resync { payload } => answer == ValueView::NoReply,
        OutcomeView::PopFromLists { keys, timeout } => exists|later: DbView, time_is_up: bool|
            #[trigger] pop_step(pop_first_effect(later, keys).1, time_is_up) == StepView::Reply(
                answer,
            ),
        OutcomeView::ReadStreams { block_ms, starts } => exists|later: DbView, elapsed_ms: u64|
            #[trigger] read_step(stream_results(later, starts), block_ms, elapsed_ms)
                == StepView::Reply(answer),
    }
}

/// What a look of a `BLPOP` finds is an array.
proof fn lemma_found_is_array(db: DbView, keys: Seq<Seq<char>>)
    ensures
        pop_first_effect(db, keys).1 matches Some(v) ==> v is Array,
    decreases keys.len(),
{
    if keys.len() > 0 {
        lemma_found_is_array(db, keys.skip(1));
    }
}

/// Every request has an answer but a `PSYNC`, and an `ECHO` of no answer.
pub proof fn law_only_psync_is_silent(q: RequestView, db: DbView, env: Env, answer: ValueView)
    requires
        can_answer(q, db, env, answer),
        !(q is PSync),
        q != RequestView::Echo(ValueView::NoReply),
    ensures
        !(answer is NoReply),
{
    if let OutcomeView::PopFromLists { keys, timeout } = effect(q, db, env).1 {
        let (later, time_is_up) = choose|later: DbView, time_is_up: bool|
            #[trigger] pop_step(pop_first_effect(later, keys).1, time_is_up) == StepView::Reply(
                answer,
            );
        lemma_found_is_array(later, keys);
    }
}

// ---------------------------------------------------------------------------
// Waiting
// ---------------------------------------------------------------------------

/// A `BLPOP` ends with what a look found; where it found nothing it ends with the null
/// array exactly once the time is up, and otherwise looks again after fifty
/// milliseconds.
pub proof fn law_how_blpop_waits(found: Option<ValueView>, time_is_up: bool)
    ensures
        found matches Some(v) ==> pop_step(found, time_is_up) == StepView::Reply(v),
        found is None && time_is_up ==> pop_step(found, time_is_up) == StepView::Reply(
            ValueView::NullArray,
        ),
        found is None && !time_is_up ==> pop_step(found, time_is_up) == StepView::Pause(50),
{
}

/// An `XREAD` ends with what a look found, all of it and in its order. One that does not
/// wait ends with nothing found too. One that waits ends with the null array once so many
/// milliseconds have passed, never for the limit zero, and otherwise looks again after
/// twenty milliseconds.
pub proof fn law_how_xread_waits(found: Seq<ValueView>, block_ms: Option<u64>, elapsed_ms: u64)
    ensures
        ({
            let step = read_step(found, block_ms, elapsed_ms);
            &&& found.len() > 0 || block_ms is None ==> step == StepView::Reply(
                ValueView::Array(found),
            )
            &&& found.len() == 0 && block_ms == Some(0u64) ==> step == StepView::Pause(20)
            &&& found.len() == 0 && (block_ms matches Some(ms) && ms > 0 && elapsed_ms < ms)
                ==> step == StepView::Pause(20)
            &&& found.len() == 0 && (block_ms matches Some(ms) && ms > 0 && elapsed_ms >= ms)
                ==> step == StepView::Reply(ValueView::NullArray)
        }),
{
}

// ---------------------------------------------------------------------------
// Values that come in
// ---------------------------------------------------------------------------

/// Whether a value says something, and each value in it does.
pub open spec fn speaks(v: ValueView) -> bool
    decreases v,
{
    match v {
        ValueView::NoReply => false,
        ValueView::Array(a) => forall|i: int| 0 <= i < a.len() ==> speaks(#[trigger] a[i]),
        _ => true,
    }
}

proof fn lemma_items_speak(b: Seq<u8>, count: nat)
    ensures
        decode_items(b, count) matches ItemsView::Complete(items, n) ==> forall|i: int|
            0 <= i < items.len() ==> speaks(#[trigger] items[i]),
    decreases b.len(), 1int, count as int,
{
    if count > 0 {
        law_decoded_values_speak(b);
        lemma_decoded_size(b);
        if let DecodedView::Complete(v, n) = decode_value(b) {
            lemma_items_speak(b.skip(n), (count - 1) as nat);
        }
    }
}

/// What is read from bytes never stands for no answer, nor does anything in it.
pub proof fn law_decoded_values_speak(b: Seq<u8>)
    ensures
        decode_value(b) matches DecodedView::Complete(v, n) ==> speaks(v),
    decreases b.len(), 0int, 0int,
{
    if b.len() > 0 {
        if let Some(n) = first_crlf(b.skip(1)) {
            let head = n + 3;
            if let Some(size) = stated_size(b.subrange(1, 1 + n)) {
                if 0 < head <= b.len() {
                    lemma_items_speak(b.skip(head), size as nat);
                }
            }
        }
    }
}

/// What a value asks for: it is a command where it is an array that starts with a bulk
/// string. A name of ASCII letters and no white space around it counts in lower case, and
/// the other items are the arguments; `REPLCONF` with a first argument `GETACK`, both in
/// any case, is the question how far this server has come.
pub proof fn law_command_is_received(
    s: SessionView,
    name: Seq<char>,
    args: Seq<ValueView>,
    db: DbView,
)
    requires
        is_ascii_chars(name),
        is_trimmed(name),
    ensures
        ({
            let value = ValueView::Array(seq![ValueView::BulkString(name)] + args);
            let low = name.map_values(|c: char| ascii_lower(c));
            let (after, action) = session_step(s, low, args, value, db);
            let get_ack = low == "replconf"@ && args.len() > 0 && args[0] is BulkString
                && lowercase(args[0]->BulkString_0) == "getack"@;
            receive_step(s, value, db) == (after, ReceivedView::Accepted { action, get_ack })
        }),
{
    law_case_does_not_matter(name, args);
}

/// A value is refused where it is no array, or an array that does not start with a bulk
/// string.
pub proof fn law_what_is_refused(s: SessionView, value: ValueView, db: DbView)
    ensures
        (receive_step(s, value, db).1 is Refused) <==> !(value is Array && value->Array_0.len() > 0
            && value->Array_0[0] is BulkString),
{
}

/// A value that is no command is answered with `ERR bad protocol` and changes
/// nothing: an open transaction, its queue and the watched keys stay.
pub proof fn law_bad_protocol_changes_nothing(s: SessionView, value: ValueView, db: DbView)
    requires
        !is_command(value),
    ensures
        receive_step(s, value, db) == (
            s,
            ReceivedView::Refused(ValueView::Error("ERR bad protocol"@)),
        ),
{
}

// ---------------------------------------------------------------------------
// A client's connection
// ---------------------------------------------------------------------------

/// One turn of a connection: the value that was read and its bytes, the database
/// that it met, what a command that it asks for met, and the answer.
pub struct Turn {
    pub value: ValueView,
    pub bytes: nat,
    pub db: DbView,
    pub run_db: DbView,
    pub env: Env,
    pub answer: ValueView,
}

/// Whether a turn is one that a connection can take: its answer is the refusal, that
/// of the session, one that the command can end with, or the array of the answers of
/// a transaction.
pub open spec fn is_turn(s: SessionView, t: Turn) -> bool {
    match receive_step(s, t.value, t.db).1 {
        ReceivedView::Refused(v) => t.answer == v,
        ReceivedView::Accepted { action, get_ack } => match action {
            ActionView::Reply(v) => t.answer == v,
            ActionView::Execute { name, args } => {
                &&& request_of(lowercase(name), args) matches Some(q)
                &&& can_answer(q, t.run_db, t.env, t.answer)
            },
            ActionView::ExecuteAll(queue) => {
                &&& t.answer matches ValueView::Array(answers)
                &&& answers.len() == queue.len()
            },
        },
    }
}

/// Whether a turn carries out a `PSYNC`.
pub open spec fn runs_psync(s: SessionView, t: Turn) -> bool {
    &&& receive_step(s, t.value, t.db).1 matches ReceivedView::Accepted { action, get_ack }
    &&& action matches ActionView::Execute { name, args }
    &&& request_of(lowercase(name), args) == Some(RequestView::PSync)
}

/// What a turn sends. A refusal is sent whoever the value came from.
pub open spec fn turn_sends(s: SessionView, t: Turn, from_master: bool) -> Seq<ValueView> {
    let sent = match receive_step(s, t.value, t.db).1 {
        ReceivedView::Refused(v) => true,
        ReceivedView::Accepted { action, get_ack } => is_sent(t.answer, from_master, get_ack),
    };
    if sent {
        seq![t.answer]
    } else {
        Seq::empty()
    }
}

/// The offset after a turn. A value that is no command does not count.
pub open spec fn turn_offset(s: SessionView, t: Turn, from_master: bool, offset: nat) -> nat {
    match receive_step(s, t.value, t.db).1 {
        ReceivedView::Refused(v) => offset,
        ReceivedView::Accepted { action, get_ack } => offset_after(offset, from_master, t.bytes),
    }
}

/// The session after a row of turns.
pub open spec fn session_after(s: SessionView, turns: Seq<Turn>) -> SessionView
    decreases turns.len(),
{
    if turns.len() == 0 {
        s
    } else {
        let t = turns.last();
        receive_step(session_after(s, turns.drop_last()), t.value, t.db).0
    }
}

/// What a row of turns sends, in its order.
pub open spec fn all_sent(s: SessionView, turns: Seq<Turn>, from_master: bool) -> Seq<ValueView>
    decreases turns.len(),
{
    if turns.len() == 0 {
        Seq::empty()
    } else {
        let before = turns.drop_last();
        all_sent(s, before, from_master) + turn_sends(
            session_after(s, before),
            turns.last(),
            from_master,
        )
    }
}

/// The offset after a row of turns.
pub open spec fn offset_of_turns(
    s: SessionView,
    turns: Seq<Turn>,
    from_master: bool,
    offset: nat,
) -> nat
    decreases turns.len(),
{
    if turns.len() == 0 {
        offset
    } else {
        let before = turns.drop_last();
        turn_offset(
            session_after(s, before),
            turns.last(),
            from_master,
            offset_of_turns(s, before, from_master, offset),
        )
    }
}

/// Whether every turn of a row is one that a connection can take, none of them
/// carries out a `PSYNC`, and every value that was read says something.
pub open spec fn are_turns(s: SessionView, turns: Seq<Turn>) -> bool {
    forall|i: int|
        #![trigger turns[i]]
        0 <= i < turns.len() ==> {
            let at = session_after(s, turns.take(i));
            is_turn(at, turns[i]) && !runs_psync(at, turns[i]) && speaks(turns[i].value)
        }
}

/// The answer of a turn is never no answer.
proof fn lemma_turn_answers(s: SessionView, t: Turn)
    requires
        is_turn(s, t),
        !runs_psync(s, t),
        speaks(t.value),
    ensures
        !(t.answer is NoReply),
{
    if let ReceivedView::Accepted { action, get_ack } = receive_step(s, t.value, t.db).1 {
        if let ActionView::Execute { name, args } = action {
            let items = t.value->Array_0;
            let q = request_of(lowercase(name), args)->0;
            if let RequestView::Echo(v) = q {
                assert(args.len() > 0 && v == args[0]);
                assert(args[0] == items[1]);
                assert(speaks(items[1]));
            }
            law_only_psync_is_silent(q, t.run_db, t.env, t.answer);
        }
    }
}

/// A client that does not become a replica gets exactly one answer for each value
/// that it sends, in their order, the refused ones among them; and its connection
/// leaves the offset as it is.
pub proof fn law_one_answer_for_each_value(s: SessionView, turns: Seq<Turn>, offset: nat)
    requires
        are_turns(s, turns),
    ensures
        all_sent(s, turns, false) == turns.map_values(|t: Turn| t.answer),
        offset_of_turns(s, turns, false, offset) == offset,
    decreases turns.len(),
{
    let answers = turns.map_values(|t: Turn| t.answer);
    if turns.len() == 0 {
        assert(answers =~= Seq::<ValueView>::empty());
    } else {
        let before = turns.drop_last();
        let last = turns.len() - 1;
        assert forall|i: int|
            #![trigger before[i]]
            0 <= i < before.len() implies {
            let at = session_after(s, before.take(i));
            is_turn(at, before[i]) && !runs_psync(at, before[i]) && speaks(before[i].value)
        } by {
            assert(before[i] == turns[i]);
            assert(before.take(i) =~= turns.take(i));
        }
        law_one_answer_for_each_value(s, before, offset);
        assert(turns.take(last) =~= before);
        assert(turns[last] == turns.last());
        lemma_turn_answers(session_after(s, before), turns.last());
        assert(answers =~= before.map_values(|t: Turn| t.answer) + seq![turns.last().answer]);
    }
}

} // verus!
