//! One client's connection: transactions, watched keys and what is sent back.

use crate::request::{bulk, bulk_at, bulk_strings, bulk_texts, command_of, extract_command};
use crate::resp::{lemma_array_view, views, Value, ValueView};
use crate::store::{texts, Db, DbView};
use crate::table::Table;
use crate::text::{lowercase, same_text, to_lower, trim, trimmed};
use vstd::prelude::*;

verus! {

// ---------------------------------------------------------------------------
// Commands
// ---------------------------------------------------------------------------

/// The answer to a value that is not a command.
pub const BAD_PROTOCOL: &'static str = "ERR bad protocol";

/// A command as it came from a client.
#[derive(Debug)]
pub struct Command {
    /// The name in lower case, without white space around it.
    pub name: String,
    pub args: Vec<Value>,
    /// Whether it is a master's question how far this server has come.
    pub get_ack: bool,
    /// The value that the command was read from.
    pub value: Value,
}

/// Whether a value is a command.
pub open spec fn is_command(value: ValueView) -> bool {
    &&& value matches ValueView::Array(a)
    &&& a.len() > 0
    &&& a[0] is BulkString
}

/// The name under which a command is looked up.
pub open spec fn command_name(value: ValueView) -> Seq<char> {
    lowercase(trim(command_of(value)->Ok_0.0))
}

/// The arguments of a command.
pub open spec fn command_args(value: ValueView) -> Seq<ValueView> {
    command_of(value)->Ok_0.1
}

/// Whether a command, given its name and its first argument in lower case, asks
/// how far this server has come.
pub open spec fn asks_for_ack(name: Seq<char>, first: Option<Seq<char>>) -> bool {
    name == "replconf"@ && first == Some("getack"@)
}

/// The first argument of a command in lower case, where it is a bulk string.
pub open spec fn first_lower(args: Seq<ValueView>) -> Option<Seq<char>> {
    match bulk(args, 0) {
        Some(s) => Some(lowercase(s)),
        None => None,
    }
}

/// Reads a command; there is none where the value is not an array that starts
/// with a bulk string.
pub fn read_command(value: Value) -> (r: Option<Command>)
    requires
        value@ matches ValueView::Array(a) ==> a.len() > 0,
    ensures
        match r {
            Some(c) => {
                &&& is_command(value@)
                &&& c.value@ == value@
                &&& c.name@ == command_name(value@)
                &&& views(c.args@) == command_args(value@)
                &&& c.get_ack == asks_for_ack(c.name@, first_lower(views(c.args@)))
            },
            None => !is_command(value@),
        },
{
    match extract_command(value.clone()) {
        Ok((command, args)) => {
            let name = to_lower(trimmed(command.as_str()));
            let get_ack = same_text(name.as_str(), "replconf") && match bulk_at(&args, 0) {
                Some(s) => {
                    let lower = to_lower(s);
                    same_text(lower.as_str(), "getack")
                },
                None => false,
            };
            Some(Command { name, args, get_ack, value })
        },
        Err(_) => None,
    }
}

// ---------------------------------------------------------------------------
// Transactions
// ---------------------------------------------------------------------------

/// What a client's connection remembers.
pub struct Session {
    in_transaction: bool,
    queue: Vec<Value>,
    watched: Table<usize>,
}

/// What a [`Session`] holds.
pub struct SessionView {
    pub in_transaction: bool,
    /// The commands of the transaction, in their order.
    pub queue: Seq<ValueView>,
    /// The watched keys with the versions that they had.
    pub watched: Map<Seq<char>, usize>,
}

impl View for Session {
    type V = SessionView;

    closed spec fn view(&self) -> SessionView {
        SessionView {
            in_transaction: self.in_transaction,
            queue: views(self.queue@),
            watched: self.watched@,
        }
    }
}

/// What a command asks the connection to do.
#[derive(Debug)]
pub enum Action {
    /// Answer.
    Reply(Value),
    /// Carry out a command and answer with what it answers.
    Execute { name: String, args: Vec<Value> },
    /// Carry out commands in their order and answer with the array of what they
    /// answer.
    ExecuteAll(Vec<Value>),
}

/// What an [`Action`] holds.
pub enum ActionView {
    Reply(ValueView),
    Execute { name: Seq<char>, args: Seq<ValueView> },
    ExecuteAll(Seq<ValueView>),
}

impl View for Action {
    type V = ActionView;

    open spec fn view(&self) -> ActionView {
        match self {
            Action::Reply(v) => ActionView::Reply(v@),
            Action::Execute { name, args } => ActionView::Execute {
                name: name@,
                args: views(args@),
            },
            Action::ExecuteAll(queue) => ActionView::ExecuteAll(views(queue@)),
        }
    }
}

/// The version of a key; that of a key that does not exist is zero.
pub open spec fn current_version(db: DbView, key: Seq<char>) -> nat {
    if db.contains_key(key) {
        db[key].version
    } else {
        0
    }
}

/// Whether a watched key has another version than it had.
pub open spec fn is_dirty(watched: Map<Seq<char>, usize>, db: DbView) -> bool {
    exists|k: Seq<char>| #[trigger]
        watched.contains_key(k) && current_version(db, k) != watched[k]
}

/// The watched keys after more of them are watched.
pub open spec fn watch_more(
    watched: Map<Seq<char>, usize>,
    db: DbView,
    keys: Seq<Seq<char>>,
) -> Map<Seq<char>, usize> {
    watched.union_prefer_right(
        Map::new(
            |k: Seq<char>| keys.contains(k),
            |k: Seq<char>| current_version(db, k) as usize,
        ),
    )
}

/// An answer with a line of text.
pub open spec fn simple(s: Seq<char>) -> ActionView {
    ActionView::Reply(ValueView::SimpleString(s))
}

/// An answer with an error.
pub open spec fn refuse(s: Seq<char>) -> ActionView {
    ActionView::Reply(ValueView::Error(s))
}

/// What a command does to the connection, and what it asks it to do.
pub open spec fn session_step(
    s: SessionView,
    name: Seq<char>,
    args: Seq<ValueView>,
    value: ValueView,
    db: DbView,
) -> (SessionView, ActionView) {
    if name == "exec"@ {
        if !s.in_transaction {
            (s, refuse("ERR EXEC without MULTI"@))
        } else {
            (
                SessionView {
                    in_transaction: false,
                    queue: Seq::empty(),
                    watched: Map::empty(),
                },
                if is_dirty(s.watched, db) {
                    ActionView::Reply(ValueView::NullArray)
                } else {
                    ActionView::ExecuteAll(s.queue)
                },
            )
        }
    } else if name == "discard"@ {
        if !s.in_transaction {
            (s, refuse("ERR DISCARD without MULTI"@))
        } else {
            (
                SessionView {
                    in_transaction: false,
                    queue: Seq::empty(),
                    watched: Map::empty(),
                },
                simple("OK"@),
            )
        }
    } else if s.in_transaction {
        if name == "watch"@ {
            (s, refuse("ERR WATCH inside MULTI is not allowed"@))
        } else {
            (SessionView { queue: s.queue.push(value), ..s }, simple("QUEUED"@))
        }
    } else if name == "multi"@ {
        (SessionView { in_transaction: true, queue: Seq::empty(), ..s }, simple("OK"@))
    } else if name == "watch"@ {
        (
            SessionView { watched: watch_more(s.watched, db, bulk_texts(args)), ..s },
            simple("OK"@),
        )
    } else if name == "unwatch"@ {
        (SessionView { watched: Map::empty(), ..s }, simple("OK"@))
    } else {
        (s, ActionView::Execute { name, args })
    }
}

/// What a value that came in asks the connection to do.
#[derive(Debug)]
pub enum Received {
    /// It is no command: send this answer, whoever the value came from. Nothing
    /// else follows from it.
    Refused(Value),
    /// It is a command, and whether it is a master's question how far this server
    /// has come.
    Accepted { action: Action, get_ack: bool },
}

/// What a [`Received`] holds.
pub enum ReceivedView {
    Refused(ValueView),
    Accepted { action: ActionView, get_ack: bool },
}

impl View for Received {
    type V = ReceivedView;

    open spec fn view(&self) -> ReceivedView {
        match self {
            Received::Refused(v) => ReceivedView::Refused(v@),
            Received::Accepted { action, get_ack } => ReceivedView::Accepted {
                action: action@,
                get_ack: *get_ack,
            },
        }
    }
}

/// What a value that came in does to the connection, and what it asks it to do. A
/// value that is no command is refused and changes nothing.
pub open spec fn receive_step(s: SessionView, value: ValueView, db: DbView) -> (
    SessionView,
    ReceivedView,
) {
    if is_command(value) {
        let name = command_name(value);
        let args = command_args(value);
        let (after, action) = session_step(s, name, args, value, db);
        (after, ReceivedView::Accepted { action, get_ack: asks_for_ack(name, first_lower(args)) })
    } else {
        (s, ReceivedView::Refused(ValueView::Error(BAD_PROTOCOL@)))
    }
}

impl Session {
    /// The watched keys are sound, and the queue holds commands.
    pub closed spec fn wf(&self) -> bool {
        &&& self.watched.wf()
        &&& queue_of_commands(self@.queue)
    }

    /// The queue of a sound session holds commands.
    pub broadcast proof fn lemma_wf(self)
        requires
            #[trigger] self.wf(),
        ensures
            queue_of_commands(self@.queue),
    {
    }

    /// A connection without a transaction and without watched keys.
    pub fn new() -> (r: Self)
        ensures
            r.wf(),
            !r@.in_transaction,
            r@.queue == Seq::<ValueView>::empty(),
            r@.watched == Map::<Seq<char>, usize>::empty(),
    {
        let r = Session { in_transaction: false, queue: Vec::new(), watched: Table::new() };
        proof {
            assert(r@.queue =~= Seq::<ValueView>::empty());
        }
        r
    }

    /// Whether a watched key has another version than it had.
    fn watches_a_change(&self, db: &Db) -> (r: bool)
        requires
            self.wf(),
            db.wf(),
        ensures
            r == is_dirty(self@.watched, db@),
    {
        let n = self.watched.len();
        let mut i: usize = 0;
        while i < n
            invariant
                i <= n,
                n == self.watched.keys().len(),
                self.wf(),
                db.wf(),
                forall|j: int|
                    0 <= j < i ==> current_version(db@, #[trigger] self.watched.keys()[j])
                        == self.watched@[self.watched.keys()[j]],
            decreases n - i,
        {
            let (key, version) = self.watched.at(i);
            let current: usize = match db.get(key.as_str()) {
                Some(v) => v.version,
                None => 0,
            };
            if current != *version {
                return true;
            }
            i += 1;
        }
        proof {
            self.watched.lemma_keys();
            assert forall|k: Seq<char>| #[trigger]
                self.watched@.contains_key(k) implies current_version(db@, k)
                == self.watched@[k] by {
                let j = choose|j: int|
                    0 <= j < self.watched.keys().len() && self.watched.keys()[j] == k;
                assert(self.watched.keys()[j] == k);
            }
        }
        false
    }

    /// Watches keys at their present versions.
    fn watch(&mut self, keys: Vec<String>, db: &Db)
        requires
            old(self).wf(),
            db.wf(),
        ensures
            final(self).wf(),
            final(self)@ == (SessionView {
                watched: watch_more(old(self)@.watched, db@, texts(keys@)),
                ..old(self)@
            }),
    {
        let n = keys.len();
        let mut i: usize = 0;
        proof {
            assert(watch_more(self@.watched, db@, texts(keys@).take(0)) =~= self@.watched);
        }
        while i < n
            invariant
                i <= n,
                n == keys.len(),
                db.wf(),
                self.wf(),
                self.in_transaction == old(self).in_transaction,
                self.queue@ == old(self).queue@,
                self.watched@ == watch_more(
                    old(self).watched@,
                    db@,
                    texts(keys@).take(i as int),
                ),
            decreases n - i,
        {
            let version: usize = match db.get(keys[i].as_str()) {
                Some(v) => v.version,
                None => 0,
            };
            self.watched.insert(keys[i].clone(), version);
            proof {
                let prev = texts(keys@).take(i as int);
                let next = texts(keys@).take(i + 1);
                assert(next =~= prev.push(keys@[i as int]@));
                assert forall|k: Seq<char>| #[trigger]
                    next.contains(k) == (prev.contains(k) || k == keys@[i as int]@) by {
                    if prev.contains(k) {
                        let j = choose|j: int| 0 <= j < prev.len() && prev[j] == k;
                        assert(next[j] == k);
                    }
                    assert(next[i as int] == keys@[i as int]@);
                    if next.contains(k) {
                        let j = choose|j: int| 0 <= j < next.len() && next[j] == k;
                        if j < i {
                            assert(prev[j] == k);
                        }
                    }
                }
                assert(self.watched@ =~= watch_more(old(self).watched@, db@, next));
            }
            i += 1;
        }
        proof {
            assert(texts(keys@).take(n as int) =~= texts(keys@));
        }
    }

    /// Leaves the transaction and forgets the watched keys; gives the queue out.
    fn leave(&mut self) -> (r: Vec<Value>)
        requires
            old(self).wf(),
        ensures
            final(self).wf(),
            final(self)@ == (SessionView {
                in_transaction: false,
                queue: Seq::empty(),
                watched: Map::empty(),
            }),
            views(r@) == old(self)@.queue,
    {
        self.in_transaction = false;
        self.watched.clear();
        let mut out: Vec<Value> = Vec::new();
        out.append(&mut self.queue);
        proof {
            assert(views(out@) =~= old(self)@.queue);
            assert(self@.queue =~= Seq::<ValueView>::empty());
        }
        out
    }

    /// Takes a command into account.
    pub fn step(&mut self, command: Command, db: &Db) -> (r: Action)
        requires
            old(self).wf(),
            db.wf(),
            is_command(command.value@),
        ensures
            final(self).wf(),
            (final(self)@, r@) == session_step(
                old(self)@,
                command.name@,
                views(command.args@),
                command.value@,
                db@,
            ),
    {
        let Command { name, args, get_ack: _, value } = command;
        if same_text(name.as_str(), "exec") {
            if !self.in_transaction {
                return Action::Reply(Value::Error("ERR EXEC without MULTI".to_string()));
            }
            let dirty = self.watches_a_change(db);
            let queue = self.leave();
            if dirty {
                Action::Reply(Value::NullArray)
            } else {
                Action::ExecuteAll(queue)
            }
        } else if same_text(name.as_str(), "discard") {
            if !self.in_transaction {
                return Action::Reply(Value::Error("ERR DISCARD without MULTI".to_string()));
            }
            let _ = self.leave();
            Action::Reply(Value::SimpleString("OK".to_string()))
        } else if self.in_transaction {
            if same_text(name.as_str(), "watch") {
                Action::Reply(Value::Error("ERR WATCH inside MULTI is not allowed".to_string()))
            } else {
                self.queue.push(value);
                proof {
                    assert(self@.queue =~= old(self)@.queue.push(value@));
                }
                Action::Reply(Value::SimpleString("QUEUED".to_string()))
            }
        } else if same_text(name.as_str(), "multi") {
            self.in_transaction = true;
            self.queue.clear();
            proof {
                assert(self@.queue =~= Seq::<ValueView>::empty());
            }
            Action::Reply(Value::SimpleString("OK".to_string()))
        } else if same_text(name.as_str(), "watch") {
            let keys = bulk_strings(&args, 0);
            proof {
                assert(views(args@).skip(0) =~= views(args@));
            }
            self.watch(keys, db);
            Action::Reply(Value::SimpleString("OK".to_string()))
        } else if same_text(name.as_str(), "unwatch") {
            self.watched.clear();
            Action::Reply(Value::SimpleString("OK".to_string()))
        } else {
            Action::Execute { name, args }
        }
    }

    /// Takes a value that came in into account.
    pub fn receive(&mut self, value: Value, db: &Db) -> (r: Received)
        requires
            old(self).wf(),
            db.wf(),
            value@ matches ValueView::Array(a) ==> a.len() > 0,
        ensures
            final(self).wf(),
            (final(self)@, r@) == receive_step(old(self)@, value@, db@),
    {
        match read_command(value) {
            Some(command) => {
                let get_ack = command.get_ack;
                Received::Accepted { action: self.step(command, db), get_ack }
            },
            None => Received::Refused(Value::Error(BAD_PROTOCOL.to_string())),
        }
    }
}

/// Whether every value of a queue is a command.
pub open spec fn queue_of_commands(queue: Seq<ValueView>) -> bool {
    forall|i: int| 0 <= i < queue.len() ==> is_command(#[trigger] queue[i])
}

// ---------------------------------------------------------------------------
// Carrying out a transaction
// ---------------------------------------------------------------------------

/// A transaction that is being carried out.
pub struct Batch {
    pending: Vec<Value>,
    answers: Vec<Value>,
}

/// What a [`Batch`] holds.
pub struct BatchView {
    /// The commands that are left, in their order.
    pub pending: Seq<ValueView>,
    /// The answers to the commands that were carried out.
    pub answers: Seq<ValueView>,
}

impl View for Batch {
    type V = BatchView;

    closed spec fn view(&self) -> BatchView {
        BatchView { pending: views(self.pending@), answers: views(self.answers@) }
    }
}

/// What is next in a transaction.
#[derive(Debug)]
pub enum BatchStep {
    /// Carry out a command.
    Run { name: String, args: Vec<Value> },
    /// Answer.
    Reply(Value),
}

/// What a [`BatchStep`] holds.
pub enum BatchStepView {
    Run { name: Seq<char>, args: Seq<ValueView> },
    Reply(ValueView),
}

impl View for BatchStep {
    type V = BatchStepView;

    open spec fn view(&self) -> BatchStepView {
        match self {
            BatchStep::Run { name, args } => BatchStepView::Run {
                name: name@,
                args: views(args@),
            },
            BatchStep::Reply(v) => BatchStepView::Reply(v@),
        }
    }
}

/// What is next in a transaction, given the answer to the command before: the next
/// command, or, where none is left, the array of the answers.
pub open spec fn batch_step(b: BatchView, answer: Option<ValueView>) -> (BatchView, BatchStepView) {
    let answers = match answer {
        Some(v) => b.answers.push(v),
        None => b.answers,
    };
    if b.pending.len() == 0 {
        (
            BatchView { pending: b.pending, answers: Seq::empty() },
            BatchStepView::Reply(ValueView::Array(answers)),
        )
    } else {
        let (name, args) = command_of(b.pending[0])->Ok_0;
        (BatchView { pending: b.pending.skip(1), answers }, BatchStepView::Run { name, args })
    }
}

/// What an optional value holds.
pub open spec fn option_view(v: Option<Value>) -> Option<ValueView> {
    match v {
        Some(v) => Some(v@),
        None => None,
    }
}

impl Batch {
    /// What is left are commands.
    pub closed spec fn wf(&self) -> bool {
        queue_of_commands(self@.pending)
    }

    /// A transaction of which nothing was carried out.
    pub fn new(queue: Vec<Value>) -> (r: Self)
        requires
            queue_of_commands(views(queue@)),
        ensures
            r.wf(),
            r@ == (BatchView { pending: views(queue@), answers: Seq::empty() }),
    {
        let r = Batch { pending: queue, answers: Vec::new() };
        proof {
            assert(r@.answers =~= Seq::<ValueView>::empty());
        }
        r
    }

    /// Takes the answer to the command before, where there was one, and says what
    /// is next.
    pub fn step(&mut self, answer: Option<Value>) -> (r: BatchStep)
        requires
            old(self).wf(),
        ensures
            final(self).wf(),
            (final(self)@, r@) == batch_step(old(self)@, option_view(answer)),
    {
        match answer {
            Some(v) => {
                self.answers.push(v);
            },
            None => {},
        }
        proof {
            assert(self@.answers =~= match option_view(answer) {
                Some(v) => old(self)@.answers.push(v),
                None => old(self)@.answers,
            });
            assert(views(self.pending@) == old(self)@.pending);
        }
        if self.pending.len() == 0 {
            let mut out: Vec<Value> = Vec::new();
            let ghost answers = self@.answers;
            out.append(&mut self.answers);
            proof {
                lemma_array_view(out);
                assert(views(out@) =~= answers);
                assert(self@.answers =~= Seq::<ValueView>::empty());
            }
            BatchStep::Reply(Value::Array(out))
        } else {
            let ghost first = self.pending@[0]@;
            let value = self.pending.remove(0);
            proof {
                assert(old(self)@.pending[0] == first);
                assert(self@.pending =~= old(self)@.pending.skip(1));
                assert forall|i: int| 0 <= i < self@.pending.len() implies is_command(
                    #[trigger] self@.pending[i],
                ) by {
                    assert(is_command(old(self)@.pending[i + 1]));
                }
            }
            match extract_command(value) {
                Ok((name, args)) => BatchStep::Run { name, args },
                Err(_) => BatchStep::Reply(Value::NoReply),
            }
        }
    }
}

// ---------------------------------------------------------------------------
// Answers
// ---------------------------------------------------------------------------

/// Whether an answer is sent. A master is sent none, but for how far this server
/// has come.
pub open spec fn is_sent(reply: ValueView, from_master: bool, get_ack: bool) -> bool {
    !(reply is NoReply) && (!from_master || get_ack)
}

/// The offset after a command of so many bytes: only a master's commands count.
pub open spec fn offset_after(offset: nat, from_master: bool, bytes: nat) -> nat {
    if from_master {
        offset + bytes
    } else {
        offset
    }
}

/// Whether an answer is sent, and the offset after the command.
pub fn settle(reply: &Value, from_master: bool, get_ack: bool, offset: usize, bytes: usize) -> (r: (
    bool,
    usize,
))
    requires
        from_master ==> offset + bytes <= usize::MAX,
    ensures
        r.0 == is_sent(reply@, from_master, get_ack),
        r.1 == offset_after(offset as nat, from_master, bytes as nat),
{
    let sent = !matches!(reply, Value::NoReply) && (!from_master || get_ack);
    if from_master {
        (sent, offset + bytes)
    } else {
        (sent, offset)
    }
}

} // verus!
