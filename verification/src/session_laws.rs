//! What holds of transactions and watched keys, whatever a client sends.

use crate::blocking::{read_step, StepView};
use crate::execute::{accepted, command_effect, defined, effect, Env, OutcomeView};
use crate::lists::pop_first_effect;
use crate::replication::replconf_reply;
use crate::request::{bulk_texts, command_of, RequestView};
use crate::resp::ValueView;
use crate::session::{
    batch_step, current_version, is_dirty, is_sent, offset_after, refuse, session_step, simple,
    ActionView, BatchStepView, BatchView, SessionView,
};
use crate::store::{versions_fit, DbView};
use crate::streams::{stream_results, xadd_effect};
use crate::strings::expired;
use crate::text::{decimal, lowercase};
use vstd::prelude::*;

verus! {

// ---------------------------------------------------------------------------
// Transactions
// ---------------------------------------------------------------------------

/// A command that came in, and the database that it met.
pub struct Sent {
    pub name: Seq<char>,
    pub args: Seq<ValueView>,
    pub value: ValueView,
    pub db: DbView,
}

/// The connection after a row of commands.
pub open spec fn after_all(s: SessionView, sent: Seq<Sent>) -> SessionView
    decreases sent.len(),
{
    if sent.len() == 0 {
        s
    } else {
        let c = sent.last();
        session_step(after_all(s, sent.drop_last()), c.name, c.args, c.value, c.db).0
    }
}

/// Whether a command in a transaction is kept for later.
pub open spec fn is_kept(name: Seq<char>) -> bool {
    name != "exec"@ && name != "discard"@ && name != "watch"@
}

/// A connection without a transaction and without watched keys.
pub open spec fn fresh() -> SessionView {
    SessionView { in_transaction: false, queue: Seq::empty(), watched: Map::empty() }
}

proof fn lemma_names()
    ensures
        "multi"@ != "exec"@,
        "multi"@ != "discard"@,
        "exec"@ != "discard"@,
        "watch"@ != "exec"@,
        "watch"@ != "discard"@,
        "watch"@ != "multi"@,
        "unwatch"@ != "exec"@,
        "unwatch"@ != "discard"@,
        "unwatch"@ != "multi"@,
        "unwatch"@ != "watch"@,
{
    reveal_strlit("multi");
    reveal_strlit("exec");
    reveal_strlit("discard");
    reveal_strlit("watch");
    reveal_strlit("unwatch");
    assert("multi"@.len() != "exec"@.len());
    assert("multi"@.len() != "discard"@.len());
    assert("exec"@.len() != "discard"@.len());
    assert("watch"@.len() != "exec"@.len());
    assert("watch"@.len() != "discard"@.len());
    assert("watch"@[0] != "multi"@[0]);
    assert("unwatch"@[0] != "exec"@[0]);
    assert("unwatch"@[0] != "discard"@[0]);
    assert("unwatch"@[0] != "multi"@[0]);
    assert("unwatch"@[0] != "watch"@[0]);
}

/// In a transaction, a command is kept for later and answered with `QUEUED`; that
/// goes for a second `MULTI` too. A `WATCH` is refused and changes nothing.
pub proof fn law_transaction_keeps_commands(s: SessionView, c: Sent)
    requires
        s.in_transaction,
    ensures
        is_kept(c.name) ==> session_step(s, c.name, c.args, c.value, c.db) == (
            SessionView { queue: s.queue.push(c.value), ..s },
            simple("QUEUED"@),
        ),
        c.name == "watch"@ ==> session_step(s, c.name, c.args, c.value, c.db) == (
            s,
            refuse("ERR WATCH inside MULTI is not allowed"@),
        ),
        is_kept("multi"@),
{
    lemma_names();
}

proof fn lemma_queue(s: SessionView, sent: Seq<Sent>)
    requires
        s.in_transaction,
        forall|i: int| 0 <= i < sent.len() ==> is_kept((#[trigger] sent[i]).name),
    ensures
        after_all(s, sent) == (SessionView {
            queue: s.queue + sent.map_values(|c: Sent| c.value),
            ..s
        }),
    decreases sent.len(),
{
    let values = sent.map_values(|c: Sent| c.value);
    if sent.len() == 0 {
        assert(s.queue + values =~= s.queue);
    } else {
        let front = sent.drop_last();
        assert forall|i: int| 0 <= i < front.len() implies is_kept((#[trigger] front[i]).name) by {
            assert(front[i] == sent[i]);
        }
        lemma_queue(s, front);
        assert(is_kept(sent[sent.len() - 1].name));
        law_transaction_keeps_commands(after_all(s, front), sent.last());
        assert(s.queue + values =~= (s.queue + front.map_values(|c: Sent| c.value)).push(
            sent.last().value,
        ));
    }
}

/// `EXEC` carries out what came in since `MULTI`, all of it and in its order, or,
/// where a watched key has changed, nothing; and it ends the transaction.
pub proof fn law_exec_runs_the_queue(s: SessionView, multi: Sent, sent: Seq<Sent>, exec: Sent)
    requires
        !s.in_transaction,
        multi.name == "multi"@,
        exec.name == "exec"@,
        forall|i: int| 0 <= i < sent.len() ==> is_kept((#[trigger] sent[i]).name),
    ensures
        ({
            let open = session_step(s, multi.name, multi.args, multi.value, multi.db).0;
            session_step(after_all(open, sent), exec.name, exec.args, exec.value, exec.db) == (
                fresh(),
                if is_dirty(s.watched, exec.db) {
                    ActionView::Reply(ValueView::NullArray)
                } else {
                    ActionView::ExecuteAll(sent.map_values(|c: Sent| c.value))
                },
            )
        }),
{
    lemma_names();
    let open = session_step(s, multi.name, multi.args, multi.value, multi.db).0;
    lemma_queue(open, sent);
    let values = sent.map_values(|c: Sent| c.value);
    assert(Seq::<ValueView>::empty() + values =~= values);
}

/// `DISCARD` forgets what came in since `MULTI`: after it an `EXEC` is refused, and
/// a new transaction starts with nothing to carry out.
pub proof fn law_discard_forgets(s: SessionView, discard: Sent, next: Sent)
    requires
        s.in_transaction,
        discard.name == "discard"@,
    ensures
        session_step(s, discard.name, discard.args, discard.value, discard.db) == (
            fresh(),
            simple("OK"@),
        ),
        next.name == "exec"@ ==> session_step(fresh(), next.name, next.args, next.value, next.db)
            == (fresh(), refuse("ERR EXEC without MULTI"@)),
        next.name == "discard"@ ==> session_step(fresh(), next.name, next.args, next.value, next.db)
            == (fresh(), refuse("ERR DISCARD without MULTI"@)),
        next.name == "multi"@ ==> session_step(fresh(), next.name, next.args, next.value, next.db)
            == (SessionView { in_transaction: true, ..fresh() }, simple("OK"@)),
{
    lemma_names();
}

/// The state of a transaction after so many steps, given the answers to its
/// commands.
pub open spec fn batch_after(
    queue: Seq<ValueView>,
    answers: Seq<ValueView>,
    steps: nat,
) -> BatchView
    decreases steps,
{
    if steps == 0 {
        BatchView { pending: queue, answers: Seq::empty() }
    } else {
        let k = (steps - 1) as nat;
        batch_step(batch_after(queue, answers, k), answer_before(answers, k)).0
    }
}

/// The answer that the step after so many others is given: that of the command
/// before.
pub open spec fn answer_before(answers: Seq<ValueView>, steps: nat) -> Option<ValueView> {
    if steps == 0 {
        None
    } else {
        Some(answers[steps - 1])
    }
}

proof fn lemma_batch_after(queue: Seq<ValueView>, answers: Seq<ValueView>, steps: nat)
    requires
        answers.len() == queue.len(),
        steps <= queue.len(),
    ensures
        batch_after(queue, answers, steps).pending == queue.skip(steps as int),
        batch_after(queue, answers, steps).answers == answers.take(
            if steps == 0 {
                0
            } else {
                steps - 1
            },
        ),
    decreases steps,
{
    if steps == 0 {
        assert(queue.skip(0) =~= queue);
        assert(answers.take(0) =~= Seq::<ValueView>::empty());
    } else {
        let k = (steps - 1) as nat;
        lemma_batch_after(queue, answers, k);
        assert(queue.skip(k as int).skip(1) =~= queue.skip(steps as int));
        if k > 0 {
            assert(answers.take(k - 1).push(answers[k - 1]) =~= answers.take(k as int));
        }
    }
}

/// A transaction runs its commands one after the other, in their order, and ends
/// with the array of their answers, in the same order.
pub proof fn law_batch_answers_in_order(
    queue: Seq<ValueView>,
    answers: Seq<ValueView>,
    steps: nat,
)
    requires
        answers.len() == queue.len(),
        steps <= queue.len(),
    ensures
        batch_step(batch_after(queue, answers, steps), answer_before(answers, steps)).1 == (if steps
            < queue.len() {
            BatchStepView::Run {
                name: command_of(queue[steps as int])->Ok_0.0,
                args: command_of(queue[steps as int])->Ok_0.1,
            }
        } else {
            BatchStepView::Reply(ValueView::Array(answers))
        }),
{
    lemma_batch_after(queue, answers, steps);
    if steps < queue.len() {
        assert(queue.skip(steps as int)[0] == queue[steps as int]);
    } else if steps > 0 {
        assert(answers.take(steps - 1).push(answers[steps - 1]) =~= answers);
    } else {
        assert(answers.take(0) =~= answers);
    }
}

/// What a command that does not have to wait leaves behind once its outcome is
/// settled: the database and the answer. A `BLPOP` or an `XREAD` is settled by its
/// first look, where that look ends it.
pub open spec fn settled(db: DbView, outcome: OutcomeView) -> Option<(DbView, ValueView)> {
    match outcome {
        OutcomeView::Reply(v) => Some((db, v)),
        OutcomeView::Broadcast { message, reply } => Some((db, reply)),
        OutcomeView::Resync { payload } => Some((db, ValueView::NoReply)),
        OutcomeView::PopFromLists { keys, timeout } => match pop_first_effect(db, keys).1 {
            Some(v) => Some((pop_first_effect(db, keys).0, v)),
            None => None,
        },
        OutcomeView::ReadStreams { block_ms, starts } => match read_step(
            stream_results(db, starts),
            block_ms,
            0,
        ) {
            StepView::Reply(v) => Some((db, v)),
            StepView::Pause(ms) => None,
        },
    }
}

/// What a command, its name in any case, does to the database and answers. There is
/// nothing where the server cannot carry it out or has to wait.
pub open spec fn carried_out(
    name: Seq<char>,
    args: Seq<ValueView>,
    db: DbView,
    env: Env,
) -> Option<(DbView, ValueView)> {
    if accepted(lowercase(name), args, db, env) {
        let (after, outcome) = command_effect(lowercase(name), args, db, env);
        settled(after, outcome)
    } else {
        None
    }
}

/// What a row of commands does to the database, one after the other, and what they
/// answer.
pub open spec fn carried_out_all(queue: Seq<ValueView>, db: DbView, envs: Seq<Env>) -> Option<
    (DbView, Seq<ValueView>),
>
    decreases queue.len(),
{
    if queue.len() == 0 {
        Some((db, Seq::empty()))
    } else {
        let (name, args) = command_of(queue.last())->Ok_0;
        match carried_out_all(queue.drop_last(), db, envs.drop_last()) {
            Some((before, answers)) => match carried_out(name, args, before, envs.last()) {
                Some((after, answer)) => Some((after, answers.push(answer))),
                None => None,
            },
            None => None,
        }
    }
}

/// Whether databases and answers are the course of a transaction: each command that
/// it says is next is carried out on the database that the one before left, and its
/// answer is handed on.
pub open spec fn is_course(
    queue: Seq<ValueView>,
    envs: Seq<Env>,
    dbs: Seq<DbView>,
    answers: Seq<ValueView>,
) -> bool {
    &&& envs.len() == queue.len()
    &&& answers.len() == queue.len()
    &&& dbs.len() == queue.len() + 1
    &&& forall|k: int|
        #![trigger answers[k]]
        0 <= k < queue.len() ==> {
            &&& batch_step(
                batch_after(queue, answers, k as nat),
                answer_before(answers, k as nat),
            ).1 matches BatchStepView::Run { name, args }
            &&& carried_out(name, args, dbs[k], envs[k]) == Some((dbs[k + 1], answers[k]))
        }
}

proof fn lemma_course(
    queue: Seq<ValueView>,
    envs: Seq<Env>,
    dbs: Seq<DbView>,
    answers: Seq<ValueView>,
    k: int,
)
    requires
        is_course(queue, envs, dbs, answers),
        0 <= k <= queue.len(),
    ensures
        carried_out_all(queue.take(k), dbs[0], envs.take(k)) == Some((dbs[k], answers.take(k))),
    decreases k,
{
    if k == 0 {
        assert(answers.take(0) =~= Seq::<ValueView>::empty());
    } else {
        lemma_course(queue, envs, dbs, answers, k - 1);
        law_batch_answers_in_order(queue, answers, (k - 1) as nat);
        let answer = answers[k - 1];
        assert(queue.take(k).drop_last() =~= queue.take(k - 1));
        assert(envs.take(k).drop_last() =~= envs.take(k - 1));
        assert(queue.take(k).last() == queue[k - 1]);
        assert(envs.take(k).last() == envs[k - 1]);
        assert(answers.take(k) =~= answers.take(k - 1).push(answer));
    }
}

/// A transaction as a whole: where no watched key has changed and no other client
/// comes between, the database after `EXEC` is what the commands since `MULTI` make
/// of it one after the other, and `EXEC` is answered with the array of what they
/// answer.
pub proof fn law_transaction_as_a_whole(
    s: SessionView,
    multi: Sent,
    sent: Seq<Sent>,
    exec: Sent,
    envs: Seq<Env>,
    dbs: Seq<DbView>,
    answers: Seq<ValueView>,
)
    requires
        !s.in_transaction,
        multi.name == "multi"@,
        exec.name == "exec"@,
        forall|i: int| 0 <= i < sent.len() ==> is_kept((#[trigger] sent[i]).name),
        !is_dirty(s.watched, exec.db),
        is_course(sent.map_values(|c: Sent| c.value), envs, dbs, answers),
        dbs[0] == exec.db,
    ensures
        ({
            let open = session_step(s, multi.name, multi.args, multi.value, multi.db).0;
            let queue = sent.map_values(|c: Sent| c.value);
            &&& session_step(after_all(open, sent), exec.name, exec.args, exec.value, exec.db) == (
                fresh(),
                ActionView::ExecuteAll(queue),
            )
            &&& carried_out_all(queue, exec.db, envs) == Some((dbs.last(), answers))
            &&& batch_step(
                batch_after(queue, answers, queue.len()),
                answer_before(answers, queue.len()),
            ).1 == BatchStepView::Reply(ValueView::Array(answers))
        }),
{
    let queue = sent.map_values(|c: Sent| c.value);
    law_exec_runs_the_queue(s, multi, sent, exec);
    lemma_course(queue, envs, dbs, answers, queue.len() as int);
    assert(queue.take(queue.len() as int) =~= queue);
    assert(envs.take(queue.len() as int) =~= envs);
    assert(answers.take(queue.len() as int) =~= answers);
    law_batch_answers_in_order(queue, answers, queue.len());
}

// ---------------------------------------------------------------------------
// Watched keys
// ---------------------------------------------------------------------------

/// Which requests change the version of a key: a `SET` of it; an `RPUSH` or an
/// `XADD` that makes it; and a `GET` or a `TYPE` that finds it past its time.
pub proof fn law_what_changes_a_version(q: RequestView, db: DbView, env: Env, k: Seq<char>)
    requires
        defined(q, db, env),
    ensures
        current_version(effect(q, db, env).0, k) != current_version(db, k) <==> match q {
            RequestView::SetKey { key, value, expiry_ms } => key == k,
            RequestView::RPush { key, items } => key == k && !db.contains_key(k),
            RequestView::XAdd { key, id, fields } => key == k && !db.contains_key(k)
                && !(xadd_effect(db, key, id, fields, env.unix_ms).1 is Error),
            RequestView::Get { key } => key == k && db.contains_key(k) && expired(db[k], env.now)
                && db[k].version != 0,
            RequestView::Type { key } => key == k && db.contains_key(k) && expired(db[k], env.now)
                && db[k].version != 0,
            _ => false,
        },
{
}

/// After a `WATCH`, an `EXEC` that finds a watched key at another version carries
/// out nothing.
pub proof fn law_watched_change_stops_exec(
    s: SessionView,
    watch: Sent,
    key: Seq<char>,
    multi: Sent,
    sent: Seq<Sent>,
    exec: Sent,
)
    requires
        !s.in_transaction,
        watch.name == "watch"@,
        bulk_texts(watch.args).contains(key),
        multi.name == "multi"@,
        exec.name == "exec"@,
        forall|i: int| 0 <= i < sent.len() ==> is_kept((#[trigger] sent[i]).name),
        versions_fit(watch.db),
        current_version(exec.db, key) != current_version(watch.db, key),
    ensures
        ({
            let watching = session_step(s, watch.name, watch.args, watch.value, watch.db).0;
            let open = session_step(watching, multi.name, multi.args, multi.value, multi.db).0;
            session_step(after_all(open, sent), exec.name, exec.args, exec.value, exec.db) == (
                fresh(),
                ActionView::Reply(ValueView::NullArray),
            )
        }),
{
    lemma_names();
    let watching = session_step(s, watch.name, watch.args, watch.value, watch.db).0;
    assert(watching.watched.contains_key(key));
    assert(watching.watched[key] == current_version(watch.db, key));
    law_exec_runs_the_queue(watching, multi, sent, exec);
}

/// A `SET` of a watched key between `WATCH` and `EXEC` stops the transaction.
pub proof fn law_set_stops_exec(
    s: SessionView,
    watch: Sent,
    key: Seq<char>,
    value: Seq<char>,
    expiry_ms: Option<u64>,
    env: Env,
    multi: Sent,
    sent: Seq<Sent>,
    exec: Sent,
)
    requires
        !s.in_transaction,
        watch.name == "watch"@,
        bulk_texts(watch.args).contains(key),
        multi.name == "multi"@,
        exec.name == "exec"@,
        forall|i: int| 0 <= i < sent.len() ==> is_kept((#[trigger] sent[i]).name),
        versions_fit(watch.db),
        exec.db == effect(RequestView::SetKey { key, value, expiry_ms }, watch.db, env).0,
    ensures
        ({
            let watching = session_step(s, watch.name, watch.args, watch.value, watch.db).0;
            let open = session_step(watching, multi.name, multi.args, multi.value, multi.db).0;
            session_step(after_all(open, sent), exec.name, exec.args, exec.value, exec.db) == (
                fresh(),
                ActionView::Reply(ValueView::NullArray),
            )
        }),
{
    law_watched_change_stops_exec(s, watch, key, multi, sent, exec);
}

/// Where every watched key has the version that it had, `EXEC` runs the
/// transaction.
pub proof fn law_unchanged_keys_let_exec_run(
    s: SessionView,
    watch: Sent,
    multi: Sent,
    sent: Seq<Sent>,
    exec: Sent,
)
    requires
        !s.in_transaction,
        s.watched == Map::<Seq<char>, usize>::empty(),
        watch.name == "watch"@,
        multi.name == "multi"@,
        exec.name == "exec"@,
        forall|i: int| 0 <= i < sent.len() ==> is_kept((#[trigger] sent[i]).name),
        versions_fit(watch.db),
        forall|k: Seq<char>| #[trigger]
            bulk_texts(watch.args).contains(k) ==> current_version(exec.db, k) == current_version(
                watch.db,
                k,
            ),
    ensures
        ({
            let watching = session_step(s, watch.name, watch.args, watch.value, watch.db).0;
            let open = session_step(watching, multi.name, multi.args, multi.value, multi.db).0;
            session_step(after_all(open, sent), exec.name, exec.args, exec.value, exec.db) == (
                fresh(),
                ActionView::ExecuteAll(sent.map_values(|c: Sent| c.value)),
            )
        }),
{
    lemma_names();
    let watching = session_step(s, watch.name, watch.args, watch.value, watch.db).0;
    assert forall|k: Seq<char>| #[trigger]
        watching.watched.contains_key(k) implies current_version(exec.db, k)
        == watching.watched[k] by {
        assert(bulk_texts(watch.args).contains(k));
        assert(current_version(watch.db, k) <= usize::MAX);
    }
    law_exec_runs_the_queue(watching, multi, sent, exec);
}

/// A `WATCH` watches the keys that it names at the versions that they have, and every
/// other key that was watched stays watched at the version that it had. Nothing else
/// changes, and it is answered with `OK`.
pub proof fn law_watch_adds_to_what_is_watched(s: SessionView, watch: Sent, k: Seq<char>)
    requires
        !s.in_transaction,
        watch.name == "watch"@,
        versions_fit(watch.db),
    ensures
        ({
            let (after, action) = session_step(
                s,
                watch.name,
                watch.args,
                watch.value,
                watch.db,
            );
            &&& action == ActionView::Reply(ValueView::SimpleString("OK"@))
            &&& !after.in_transaction
            &&& after.queue == s.queue
            &&& bulk_texts(watch.args).contains(k) ==> after.watched.contains_key(k)
                && after.watched[k] == (if watch.db.contains_key(k) {
                watch.db[k].version
            } else {
                0
            })
            &&& !bulk_texts(watch.args).contains(k) ==> {
                &&& after.watched.contains_key(k) <==> s.watched.contains_key(k)
                &&& s.watched.contains_key(k) ==> after.watched[k] == s.watched[k]
            }
        }),
{
    lemma_names();
}

/// Whether a command leaves a key watched as it is: it ends no transaction, it is no
/// `UNWATCH` that is taken, and no `WATCH` of the key that is taken.
pub open spec fn keeps_watching(s: SessionView, c: Sent, k: Seq<char>) -> bool {
    &&& c.name != "exec"@
    &&& c.name != "discard"@
    &&& c.name == "unwatch"@ ==> s.in_transaction
    &&& c.name == "watch"@ && !s.in_transaction ==> !bulk_texts(c.args).contains(k)
}

/// Any command but those leaves a key as it is watched.
proof fn lemma_keeps_watching(s: SessionView, c: Sent, k: Seq<char>)
    requires
        keeps_watching(s, c, k),
    ensures
        ({
            let after = session_step(s, c.name, c.args, c.value, c.db).0;
            &&& after.watched.contains_key(k) <==> s.watched.contains_key(k)
            &&& s.watched.contains_key(k) ==> after.watched[k] == s.watched[k]
        }),
{
    lemma_names();
}

/// A watched key stays watched at the version of its latest `WATCH`, whatever comes in
/// after it but an `EXEC`, a `DISCARD` or an `UNWATCH`: other `WATCH`es, a `MULTI` and
/// commands of the transaction.
pub proof fn law_latest_watch_counts(s: SessionView, sent: Seq<Sent>, n: int, k: Seq<char>)
    requires
        0 <= n < sent.len(),
        sent[n].name == "watch"@,
        !after_all(s, sent.take(n)).in_transaction,
        bulk_texts(sent[n].args).contains(k),
        versions_fit(sent[n].db),
        forall|j: int|
            #![trigger sent[j]]
            n < j < sent.len() ==> keeps_watching(after_all(s, sent.take(j)), sent[j], k),
    ensures
        after_all(s, sent).watched.contains_key(k),
        after_all(s, sent).watched[k] == current_version(sent[n].db, k),
    decreases sent.len(),
{
    let front = sent.drop_last();
    let last = sent.len() - 1;
    assert(sent.take(last) =~= front);
    if n == last {
        law_watch_adds_to_what_is_watched(after_all(s, front), sent[n], k);
    } else {
        assert(front.take(n) =~= sent.take(n));
        assert forall|j: int|
            #![trigger front[j]]
            n < j < front.len() implies keeps_watching(
            after_all(s, front.take(j)),
            front[j],
            k,
        ) by {
            assert(front[j] == sent[j]);
            assert(front.take(j) =~= sent.take(j));
        }
        law_latest_watch_counts(s, front, n, k);
        assert(keeps_watching(after_all(s, sent.take(last)), sent[last], k));
        lemma_keeps_watching(after_all(s, front), sent[last], k);
    }
}

/// Where any key has another version at `EXEC` than at its latest `WATCH`, however many
/// `WATCH`es there were since the last `EXEC`, `DISCARD` or `UNWATCH`, `EXEC` carries
/// out nothing and is answered with the null array.
pub proof fn law_any_watched_change_stops_exec(
    s: SessionView,
    sent: Seq<Sent>,
    n: int,
    k: Seq<char>,
    exec: Sent,
)
    requires
        0 <= n < sent.len(),
        sent[n].name == "watch"@,
        !after_all(s, sent.take(n)).in_transaction,
        bulk_texts(sent[n].args).contains(k),
        versions_fit(sent[n].db),
        forall|j: int|
            #![trigger sent[j]]
            n < j < sent.len() ==> keeps_watching(after_all(s, sent.take(j)), sent[j], k),
        after_all(s, sent).in_transaction,
        exec.name == "exec"@,
        (if exec.db.contains_key(k) {
            exec.db[k].version
        } else {
            0
        }) != (if sent[n].db.contains_key(k) {
            sent[n].db[k].version
        } else {
            0
        }),
    ensures
        session_step(after_all(s, sent), exec.name, exec.args, exec.value, exec.db) == (
            fresh(),
            ActionView::Reply(ValueView::NullArray),
        ),
{
    law_latest_watch_counts(s, sent, n, k);
    assert(after_all(s, sent).watched.contains_key(k));
}

/// `EXEC` runs what was kept, all of it and in its order, where each watched key has the
/// version at which it is watched; one that does not exist has version zero.
pub proof fn law_exec_runs_without_a_change(s: SessionView, exec: Sent)
    requires
        s.in_transaction,
        exec.name == "exec"@,
        forall|k: Seq<char>| #[trigger]
            s.watched.contains_key(k) ==> s.watched[k] == (if exec.db.contains_key(k) {
                exec.db[k].version
            } else {
                0
            }),
    ensures
        session_step(s, exec.name, exec.args, exec.value, exec.db) == (
            fresh(),
            ActionView::ExecuteAll(s.queue),
        ),
{
}

/// Only a key that a `WATCH` named is watched.
pub proof fn law_only_named_keys_are_watched(s: SessionView, sent: Seq<Sent>, k: Seq<char>)
    requires
        !s.watched.contains_key(k),
        forall|j: int|
            #![trigger sent[j]]
            0 <= j < sent.len() && sent[j].name == "watch"@ ==> !bulk_texts(
                sent[j].args,
            ).contains(k),
    ensures
        !after_all(s, sent).watched.contains_key(k),
    decreases sent.len(),
{
    if sent.len() > 0 {
        let front = sent.drop_last();
        assert forall|j: int|
            #![trigger front[j]]
            0 <= j < front.len() && front[j].name == "watch"@ implies !bulk_texts(
            front[j].args,
        ).contains(k) by {
            assert(front[j] == sent[j]);
        }
        law_only_named_keys_are_watched(s, front, k);
        let c = sent[sent.len() - 1];
        assert(c == sent.last());
    }
}

/// Outside a transaction, `MULTI` opens one that holds nothing, and keeps what is
/// watched; a command that is none of the session's own is carried out as it came, and
/// leaves the session as it is.
pub proof fn law_outside_a_transaction(s: SessionView, c: Sent)
    requires
        !s.in_transaction,
    ensures
        c.name == "multi"@ ==> session_step(s, c.name, c.args, c.value, c.db) == (
            SessionView { in_transaction: true, queue: Seq::empty(), watched: s.watched },
            ActionView::Reply(ValueView::SimpleString("OK"@)),
        ),
        c.name == "exec"@ ==> session_step(s, c.name, c.args, c.value, c.db) == (
            s,
            ActionView::Reply(ValueView::Error("ERR EXEC without MULTI"@)),
        ),
        c.name == "discard"@ ==> session_step(s, c.name, c.args, c.value, c.db) == (
            s,
            ActionView::Reply(ValueView::Error("ERR DISCARD without MULTI"@)),
        ),
        c.name != "multi"@ && c.name != "exec"@ && c.name != "discard"@ && c.name != "watch"@
            && c.name != "unwatch"@ ==> session_step(s, c.name, c.args, c.value, c.db) == (
            s,
            ActionView::Execute { name: c.name, args: c.args },
        ),
{
    lemma_names();
}

/// In a transaction, every command but `EXEC`, `DISCARD` and `WATCH` is kept behind those
/// that were kept, and answered with `QUEUED`; a `WATCH` is refused; `DISCARD` ends the
/// transaction and forgets what was kept and watched.
pub proof fn law_inside_a_transaction(s: SessionView, c: Sent)
    requires
        s.in_transaction,
    ensures
        ({
            let (after, action) = session_step(s, c.name, c.args, c.value, c.db);
            &&& c.name != "exec"@ && c.name != "discard"@ && c.name != "watch"@ ==> {
                &&& action == ActionView::Reply(ValueView::SimpleString("QUEUED"@))
                &&& after.in_transaction
                &&& after.watched == s.watched
                &&& after.queue.len() == s.queue.len() + 1
                &&& after.queue.last() == c.value
                &&& after.queue.drop_last() == s.queue
            }
            &&& c.name == "watch"@ ==> after == s && action == ActionView::Reply(
                ValueView::Error("ERR WATCH inside MULTI is not allowed"@),
            )
            &&& c.name == "discard"@ ==> {
                &&& action == ActionView::Reply(ValueView::SimpleString("OK"@))
                &&& !after.in_transaction
                &&& after.queue.len() == 0
                &&& forall|k: Seq<char>| !#[trigger] after.watched.contains_key(k)
            }
            &&& c.name == "exec"@ ==> {
                &&& !after.in_transaction
                &&& after.queue.len() == 0
                &&& forall|k: Seq<char>| !#[trigger] after.watched.contains_key(k)
            }
        }),
{
    lemma_names();
    assert(s.queue.push(c.value).drop_last() =~= s.queue);
}

/// After an `UNWATCH` no change stops a transaction.
pub proof fn law_unwatch_forgets(s: SessionView, unwatch: Sent, db: DbView)
    requires
        !s.in_transaction,
        unwatch.name == "unwatch"@,
    ensures
        session_step(s, unwatch.name, unwatch.args, unwatch.value, unwatch.db) == (
            SessionView { watched: Map::empty(), ..s },
            simple("OK"@),
        ),
        !is_dirty(Map::empty(), db),
{
    lemma_names();
}

// ---------------------------------------------------------------------------
// A master's connection
// ---------------------------------------------------------------------------

/// A master's question how far this server has come is answered with the bytes
/// before the question, and the question itself counts from then on.
pub proof fn law_ack_leaves_itself_out(offset: nat, bytes: nat)
    ensures
        is_sent(replconf_reply(true, offset), true, true),
        replconf_reply(true, offset)->Array_0[2] == ValueView::BulkString(decimal(offset)),
        offset_after(offset, true, bytes) == offset + bytes,
{
}

/// The offset after a row of commands of so many bytes each.
pub open spec fn offset_after_all(offset: nat, from_master: bool, reads: Seq<nat>) -> nat
    decreases reads.len(),
{
    if reads.len() == 0 {
        offset
    } else {
        offset_after(
            offset_after_all(offset, from_master, reads.drop_last()),
            from_master,
            reads.last(),
        )
    }
}

/// The bytes of a row of commands together.
pub open spec fn total(reads: Seq<nat>) -> nat
    decreases reads.len(),
{
    if reads.len() == 0 {
        0
    } else {
        total(reads.drop_last()) + reads.last()
    }
}

/// On a master's connection the offset grows by the bytes of all that was read; on
/// any other it stays.
pub proof fn law_offset_counts_every_byte(offset: nat, from_master: bool, reads: Seq<nat>)
    ensures
        offset_after_all(offset, from_master, reads) == (if from_master {
            offset + total(reads)
        } else {
            offset
        }),
    decreases reads.len(),
{
    if reads.len() > 0 {
        law_offset_counts_every_byte(offset, from_master, reads.drop_last());
    }
}

/// An answer is sent where there is one, and to a master only where it asked how far
/// this server has come.
pub proof fn law_what_is_sent(reply: ValueView, from_master: bool, get_ack: bool)
    ensures
        reply == ValueView::NoReply ==> !is_sent(reply, from_master, get_ack),
        reply != ValueView::NoReply && !from_master ==> is_sent(reply, from_master, get_ack),
        reply != ValueView::NoReply && from_master ==> is_sent(reply, from_master, get_ack)
            == get_ack,
{
}

/// A master gets no answer to anything else, while every other client gets one to
/// every command that has one.
pub proof fn law_who_is_answered(reply: ValueView, get_ack: bool)
    ensures
        !is_sent(reply, true, false),
        is_sent(reply, false, get_ack) <==> !(reply is NoReply),
{
}

} // verus!
