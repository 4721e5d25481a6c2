//! A master and its replicas understand each other.

use crate::decode::{decode_value, DecodedView};
use crate::execute::{effect, Env, OutcomeView};
use crate::lists::bulk_values;
use crate::names::lemma_replconf;
use crate::replication::{full_resync_line, rdb_line, resync_payload, GET_ACK};
use crate::request::{
    built_command, bulk, command_of, law_built_command_comes_apart, request_of,
    CommandError, RequestView,
};
use crate::resp::{crlf, tagged_line, ValueView};
use crate::session::{asks_for_ack, command_args, command_name, first_lower, is_command};
use crate::startup::{announced_size, handshake_messages, strip_dollars};
use crate::store::DbView;
use crate::strings::{byte_bulk_wire, set_message};
use crate::text::{
    ascii_lower, decimal, is_digit, is_space, law_parse_of_decimal, lemma_decimal, lowercase,
    trim, trim_end, trim_start,
};
use crate::text_laws::{is_blank, law_trim};
use crate::wire_laws::{bulk_wires, command_wire, fits, law_command_reads_back, lemma_encode_concat};
use vstd::prelude::*;
use vstd::utf8::*;

verus! {

// ---------------------------------------------------------------------------
// Names of commands
// ---------------------------------------------------------------------------

/// Whether a text has no white space around it.
pub open spec fn is_trimmed(s: Seq<char>) -> bool {
    s.len() > 0 ==> !is_space(s[0]) && !is_space(s.last())
}

/// Lowering an ASCII text once is enough.
pub proof fn law_lowercase_twice(s: Seq<char>)
    requires
        is_ascii_chars(s),
    ensures
        is_ascii_chars(lowercase(s)),
        lowercase(lowercase(s)) == lowercase(s),
{
    let low = lowercase(s);
    assert forall|i: int| 0 <= i < low.len() implies '\0' <= #[trigger] low[i] <= '\u{7f}' && (
    ascii_lower(low[i]) == low[i]) && (is_space(low[i]) == is_space(s[i])) by {
        lemma_ascii_lower(s[i]);
    }
    assert(lowercase(low) =~= low);
}

proof fn lemma_ascii_lower(c: char)
    requires
        '\0' <= c <= '\u{7f}',
    ensures
        '\0' <= ascii_lower(c) <= '\u{7f}',
        ascii_lower(ascii_lower(c)) == ascii_lower(c),
        is_space(ascii_lower(c)) == is_space(c),
{
}

/// The name of a command does not depend on the case of its letters: an ASCII
/// name without white space around it is looked up in lower case.
pub proof fn law_case_does_not_matter(name: Seq<char>, args: Seq<ValueView>)
    requires
        is_ascii_chars(name),
        is_trimmed(name),
    ensures
        ({
            let value = ValueView::Array(seq![ValueView::BulkString(name)] + args);
            &&& is_command(value)
            &&& command_name(value) == name.map_values(|c: char| ascii_lower(c))
            &&& command_args(value) == args
        }),
{
    let items = seq![ValueView::BulkString(name)] + args;
    let low = lowercase(name);
    assert(items[0] == ValueView::BulkString(name));
    assert(items.skip(1) =~= args);
    law_lowercase_twice(name);
    if name.len() > 0 {
        lemma_ascii_lower(name[0]);
        lemma_ascii_lower(name.last());
        assert(low[0] == ascii_lower(name[0]));
        assert(low.last() == ascii_lower(name.last()));
    }
    assert(trim_start(low) == low);
    assert(trim_end(low) == low);
}

/// White space around the name of a command does not count.
pub proof fn law_white_space_around_a_name(
    front: Seq<char>,
    name: Seq<char>,
    back: Seq<char>,
    args: Seq<ValueView>,
)
    requires
        is_ascii_chars(front + name + back),
        is_blank(front),
        is_blank(back),
        is_trimmed(name),
    ensures
        ({
            let value = ValueView::Array(seq![ValueView::BulkString(front + name + back)] + args);
            &&& is_command(value)
            &&& command_name(value) == name.map_values(|c: char| ascii_lower(c))
            &&& command_args(value) == args
        }),
{
    let sent = front + name + back;
    let items = seq![ValueView::BulkString(sent)] + args;
    assert(items[0] == ValueView::BulkString(sent));
    assert(items.skip(1) =~= args);
    assert forall|i: int| 0 <= i < front.len() implies '\0' <= #[trigger] front[i] <= '\u{7f}' by {
        assert(sent[i] == front[i]);
    }
    assert forall|i: int| 0 <= i < name.len() implies '\0' <= #[trigger] name[i] <= '\u{7f}' by {
        assert(sent[front.len() + i] == name[i]);
    }
    assert forall|i: int| 0 <= i < back.len() implies '\0' <= #[trigger] back[i] <= '\u{7f}' by {
        assert(sent[front.len() + name.len() + i] == back[i]);
    }
    lemma_blank(front);
    lemma_blank(back);
    law_lowercase_twice(name);
    let low = lowercase(name);
    assert(lowercase(sent) =~= lowercase(front) + low + lowercase(back));
    if name.len() > 0 {
        lemma_ascii_lower(name[0]);
        lemma_ascii_lower(name.last());
        assert(low[0] == ascii_lower(name[0]));
        assert(low.last() == ascii_lower(name.last()));
    }
    law_trim(lowercase(front), low, lowercase(back));
}

proof fn lemma_blank(s: Seq<char>)
    requires
        is_ascii_chars(s),
        is_blank(s),
    ensures
        is_blank(lowercase(s)),
{
    let low = lowercase(s);
    assert forall|i: int| 0 <= i < low.len() implies is_space(#[trigger] low[i]) by {
        lemma_ascii_lower(s[i]);
        assert(is_space(s[i]));
    }
}

/// Taking apart a command whose name was sent in ASCII, building it again from the
/// name and the arguments, and taking it apart once more changes nothing.
pub proof fn law_taking_apart_again_changes_nothing(
    sent: ValueView,
    name: Seq<char>,
    args: Seq<ValueView>,
)
    requires
        is_command(sent),
        is_ascii_chars(sent->Array_0[0]->BulkString_0),
        command_of(sent) == Ok::<(Seq<char>, Seq<ValueView>), CommandError>((name, args)),
    ensures
        command_of(built_command(name, args)) == command_of(sent),
{
    law_lowercase_twice(sent->Array_0[0]->BulkString_0);
    law_built_command_comes_apart(name, args);
}

// ---------------------------------------------------------------------------
// Commands that servers write
// ---------------------------------------------------------------------------

proof fn lemma_word(s: Seq<char>)
    requires
        is_ascii_chars(s),
        s.len() <= 100,
    ensures
        encode_utf8(s).len() == s.len(),
        fits(s),
{
    is_ascii_chars_encode_utf8(s);
}

proof fn lemma_digits()
    ensures
        decimal(1) == seq!['1'],
        decimal(2) == seq!['2'],
        decimal(3) == seq!['3'],
        decimal(4) == seq!['4'],
        decimal(5) == seq!['5'],
        decimal(6) == seq!['6'],
        decimal(8) == seq!['8'],
        decimal(14) == seq!['1', '4'],
{
    assert(decimal(14nat / 10nat) == seq!['1']);
    assert(decimal(14) =~= seq!['1', '4']);
}

proof fn lemma_three(a: Seq<char>, b: Seq<char>, c: Seq<char>)
    ensures
        command_wire(seq![a, b, c]) == seq!['*', '3', '\r', '\n'] + byte_bulk_wire(a)
            + byte_bulk_wire(b) + byte_bulk_wire(c),
{
    let words = seq![a, b, c];
    lemma_digits();
    assert(words.skip(1) =~= seq![b, c]);
    assert(seq![b, c].skip(1) =~= seq![c]);
    assert(seq![c].skip(1) =~= Seq::<Seq<char>>::empty());
    assert(bulk_wires(Seq::<Seq<char>>::empty()) =~= Seq::<char>::empty());
    assert(bulk_wires(seq![c]) =~= byte_bulk_wire(c));
    assert(bulk_wires(seq![b, c]) =~= byte_bulk_wire(b) + byte_bulk_wire(c));
    assert(bulk_wires(words) =~= byte_bulk_wire(a) + (byte_bulk_wire(b) + byte_bulk_wire(c)));
    assert(tagged_line('*', decimal(3)) =~= seq!['*', '3', '\r', '\n']);
    assert(command_wire(words) =~= seq!['*', '3', '\r', '\n'] + byte_bulk_wire(a) + byte_bulk_wire(
        b,
    ) + byte_bulk_wire(c));
}

/// The command that tells a replica of a `SET` reads as that `SET`, whatever the
/// key and the value hold and whatever follows it.
pub proof fn law_set_message_reads_back(key: Seq<char>, value: Seq<char>, rest: Seq<u8>)
    requires
        fits(key),
        fits(value),
    ensures
        decode_value(encode_utf8(set_message(key, value)) + rest) == DecodedView::Complete(
            ValueView::Array(bulk_values(seq!["SET"@, key, value])),
            encode_utf8(set_message(key, value)).len() as int,
        ),
{
    let words = seq!["SET"@, key, value];
    reveal_strlit("SET");
    reveal_strlit("*3\r\n$3\r\nSET\r\n");
    lemma_digits();
    lemma_word("SET"@);
    lemma_three("SET"@, key, value);
    assert("*3\r\n$3\r\nSET\r\n"@ =~= seq!['*', '3', '\r', '\n'] + byte_bulk_wire("SET"@));
    assert(set_message(key, value) =~= command_wire(words));
    law_command_reads_back(words, rest);
}

/// A replica that carries out what its master tells it of a `SET` holds the
/// master's text under the master's key.
pub proof fn law_replica_follows(
    master: DbView,
    replica: DbView,
    key: Seq<char>,
    value: Seq<char>,
    expiry_ms: Option<u64>,
    master_env: Env,
    replica_env: Env,
)
    ensures
        ({
            let (after, outcome) = effect(
                RequestView::SetKey { key, value, expiry_ms },
                master,
                master_env,
            );
            let told = ValueView::Array(bulk_values(seq!["SET"@, key, value]));
            let q = request_of(command_name(told), command_args(told));
            &&& outcome matches OutcomeView::Broadcast { message, reply }
            &&& message == set_message(key, value)
            &&& q == Some(RequestView::SetKey { key, value, expiry_ms: None })
            &&& effect(q->0, replica, replica_env).0[key].value == after[key].value
        }),
{
    let words = seq!["SET"@, key, value];
    let args = bulk_values(seq![key, value]);
    reveal_strlit("SET");
    reveal_strlit("set");
    reveal_strlit("ping");
    reveal_strlit("echo");
    assert(bulk_values(words) =~= seq![ValueView::BulkString("SET"@)] + args);
    law_case_does_not_matter("SET"@, args);
    assert("SET"@.map_values(|c: char| ascii_lower(c)) =~= "set"@);
    assert("set"@.len() != "ping"@.len() && "set"@.len() != "echo"@.len());
}

/// What a replica says to its master first reads as the four commands that it
/// means.
pub proof fn law_handshake_reads_back(port: Seq<char>, rest: Seq<u8>)
    requires
        fits(port),
    ensures
        ({
            let words = seq![
                seq!["PING"@],
                seq!["REPLCONF"@, "listening-port"@, port],
                seq!["REPLCONF"@, "capa"@, "psync2"@],
                seq!["PSYNC"@, "?"@, "-1"@],
            ];
            let messages = handshake_messages(port);
            &&& messages.len() == 4
            &&& forall|i: int|
                0 <= i < 4 ==> decode_value(encode_utf8(#[trigger] messages[i]) + rest)
                    == DecodedView::Complete(
                    ValueView::Array(bulk_values(words[i])),
                    encode_utf8(messages[i]).len() as int,
                )
        }),
{
    let w0 = seq!["PING"@];
    let w1 = seq!["REPLCONF"@, "listening-port"@, port];
    let w2 = seq!["REPLCONF"@, "capa"@, "psync2"@];
    let w3 = seq!["PSYNC"@, "?"@, "-1"@];
    lemma_handshake_words();
    lemma_ping();
    lemma_listening_port(port);
    lemma_capa();
    lemma_psync();
    law_command_reads_back(w0, rest);
    law_command_reads_back(w1, rest);
    law_command_reads_back(w2, rest);
    law_command_reads_back(w3, rest);
}

proof fn lemma_ping()
    ensures
        "*1\r\n$4\r\nPING\r\n"@ == command_wire(seq!["PING"@]),
{
    let words = seq!["PING"@];
    lemma_digits();
    lemma_handshake_words();
    reveal_strlit("PING");
    reveal_strlit("*1\r\n$4\r\nPING\r\n");
    assert(words.skip(1) =~= Seq::<Seq<char>>::empty());
    assert(bulk_wires(words.skip(1)) =~= Seq::<char>::empty());
    assert("*1\r\n$4\r\nPING\r\n"@ =~= command_wire(words));
}

proof fn lemma_listening_port(port: Seq<char>)
    ensures
        "*3\r\n$8\r\nREPLCONF\r\n$14\r\nlistening-port\r\n"@ + byte_bulk_wire(port)
            == command_wire(seq!["REPLCONF"@, "listening-port"@, port]),
{
    lemma_digits();
    lemma_handshake_words();
    reveal_strlit("REPLCONF");
    reveal_strlit("listening-port");
    reveal_strlit("*3\r\n$8\r\nREPLCONF\r\n$14\r\nlistening-port\r\n");
    lemma_three("REPLCONF"@, "listening-port"@, port);
    assert("*3\r\n$8\r\nREPLCONF\r\n$14\r\nlistening-port\r\n"@ =~= seq!['*', '3', '\r', '\n']
        + byte_bulk_wire("REPLCONF"@) + byte_bulk_wire("listening-port"@));
}

proof fn lemma_capa()
    ensures
        "*3\r\n$8\r\nREPLCONF\r\n$4\r\ncapa\r\n$6\r\npsync2\r\n"@ == command_wire(
            seq!["REPLCONF"@, "capa"@, "psync2"@],
        ),
{
    lemma_digits();
    lemma_handshake_words();
    reveal_strlit("REPLCONF");
    reveal_strlit("capa");
    reveal_strlit("psync2");
    reveal_strlit("*3\r\n$8\r\nREPLCONF\r\n$4\r\ncapa\r\n$6\r\npsync2\r\n");
    lemma_three("REPLCONF"@, "capa"@, "psync2"@);
    assert("*3\r\n$8\r\nREPLCONF\r\n$4\r\ncapa\r\n$6\r\npsync2\r\n"@ =~= command_wire(
        seq!["REPLCONF"@, "capa"@, "psync2"@],
    ));
}

proof fn lemma_psync()
    ensures
        "*3\r\n$5\r\nPSYNC\r\n$1\r\n?\r\n$2\r\n-1\r\n"@ == command_wire(
            seq!["PSYNC"@, "?"@, "-1"@],
        ),
{
    lemma_digits();
    lemma_handshake_words();
    reveal_strlit("PSYNC");
    reveal_strlit("?");
    reveal_strlit("-1");
    reveal_strlit("*3\r\n$5\r\nPSYNC\r\n$1\r\n?\r\n$2\r\n-1\r\n");
    lemma_three("PSYNC"@, "?"@, "-1"@);
    assert("*3\r\n$5\r\nPSYNC\r\n$1\r\n?\r\n$2\r\n-1\r\n"@ =~= command_wire(
        seq!["PSYNC"@, "?"@, "-1"@],
    ));
}

proof fn lemma_handshake_words()
    ensures
        fits("PING"@) && encode_utf8("PING"@).len() == 4,
        fits("REPLCONF"@) && encode_utf8("REPLCONF"@).len() == 8,
        fits("listening-port"@) && encode_utf8("listening-port"@).len() == 14,
        fits("capa"@) && encode_utf8("capa"@).len() == 4,
        fits("psync2"@) && encode_utf8("psync2"@).len() == 6,
        fits("PSYNC"@) && encode_utf8("PSYNC"@).len() == 5,
        fits("?"@) && encode_utf8("?"@).len() == 1,
        fits("-1"@) && encode_utf8("-1"@).len() == 2,
        fits("GETACK"@) && encode_utf8("GETACK"@).len() == 6,
        fits("*"@) && encode_utf8("*"@).len() == 1,
{
    reveal_strlit("PING");
    reveal_strlit("REPLCONF");
    reveal_strlit("listening-port");
    reveal_strlit("capa");
    reveal_strlit("psync2");
    reveal_strlit("PSYNC");
    reveal_strlit("?");
    reveal_strlit("-1");
    reveal_strlit("GETACK");
    reveal_strlit("*");
    lemma_word("PING"@);
    lemma_word("REPLCONF"@);
    lemma_word("listening-port"@);
    lemma_word("capa"@);
    lemma_word("psync2"@);
    lemma_word("PSYNC"@);
    lemma_word("?"@);
    lemma_word("-1"@);
    lemma_word("GETACK"@);
    lemma_word("*"@);
}

/// The command by which a master asks how far a replica has come reads as that
/// question, and a replica takes it for one.
pub proof fn law_get_ack_is_understood(rest: Seq<u8>)
    ensures
        ({
            let asked = ValueView::Array(bulk_values(seq!["REPLCONF"@, "GETACK"@, "*"@]));
            &&& decode_value(encode_utf8(GET_ACK@) + rest) == DecodedView::Complete(
                asked,
                encode_utf8(GET_ACK@).len() as int,
            )
            &&& asks_for_ack(command_name(asked), first_lower(command_args(asked)))
            &&& request_of(command_name(asked), command_args(asked)) == Some(
                RequestView::ReplConf { get_ack: true },
            )
        }),
{
    let words = seq!["REPLCONF"@, "GETACK"@, "*"@];
    let args = bulk_values(seq!["GETACK"@, "*"@]);
    lemma_digits();
    lemma_handshake_words();
    reveal_strlit("REPLCONF");
    reveal_strlit("GETACK");
    reveal_strlit("*");
    reveal_strlit("replconf");
    reveal_strlit("getack");
    assert(GET_ACK@ == command_wire(words)) by {
        reveal_strlit("*3\r\n$8\r\nREPLCONF\r\n$6\r\nGETACK\r\n$1\r\n*\r\n");
        lemma_three("REPLCONF"@, "GETACK"@, "*"@);
        assert(GET_ACK@ =~= command_wire(words));
    }
    law_command_reads_back(words, rest);
    assert(bulk_values(words) =~= seq![ValueView::BulkString("REPLCONF"@)] + args);
    law_case_does_not_matter("REPLCONF"@, args);
    assert("REPLCONF"@.map_values(|c: char| ascii_lower(c)) =~= "replconf"@);
    assert(lowercase("GETACK"@) =~= "getack"@);
    assert(bulk(args, 0) == Some("GETACK"@));
    lemma_replconf(args);
}

// ---------------------------------------------------------------------------
// The full copy
// ---------------------------------------------------------------------------

proof fn lemma_no_line_feed(n: nat)
    ensures
        forall|i: int| 0 <= i < decimal(n).len() ==> #[trigger] decimal(n)[i] != '\n',
{
    lemma_decimal(n);
    assert forall|i: int| 0 <= i < decimal(n).len() implies #[trigger] decimal(n)[i] != '\n' by {
        assert(is_digit(decimal(n)[i]));
    }
}

/// What a replica gets that asks for a full copy are two lines and then the
/// database file, and the second line announces how long the file is.
pub proof fn law_full_copy_is_read_as_sent(offset: nat, rdb: Seq<u8>)
    requires
        rdb.len() <= usize::MAX,
    ensures
        ({
            let first = full_resync_line(offset);
            let second = rdb_line(rdb.len());
            &&& resync_payload(offset, rdb) == encode_utf8(first + second) + rdb
            &&& first.last() == '\n'
            &&& forall|i: int| 0 <= i < first.len() - 1 ==> #[trigger] first[i] != '\n'
            &&& second.last() == '\n'
            &&& forall|i: int| 0 <= i < second.len() - 1 ==> #[trigger] second[i] != '\n'
            &&& announced_size(second) == Some(rdb.len() as usize)
        }),
{
    let first = full_resync_line(offset);
    let second = rdb_line(rdb.len());
    lemma_encode_concat(first, second);
    lemma_no_line_feed(offset);
    lemma_no_line_feed(rdb.len());
    reveal_strlit("+FULLRESYNC ");
    reveal_strlit("8371b4fb1155b71f4a04d3e1bc3e18c4a990aeeb");
    reveal_strlit(" ");
    reveal_strlit("$");
    reveal_strlit("\r\n");
    assert(first.last() == '\n');
    assert(second.last() == '\n');
    let digits = decimal(rdb.len());
    lemma_decimal(rdb.len());
    assert(is_digit(digits[0]));
    assert(is_digit(digits.last()));
    let tail = digits + crlf();
    assert(second.skip(1) =~= tail);
    assert(strip_dollars(tail) == tail);
    assert(strip_dollars(second) == tail);
    assert(trim_start(tail) == tail);
    assert(tail.drop_last() =~= digits.push('\r'));
    assert(tail.drop_last().drop_last() =~= digits);
    assert(trim_end(digits) == digits);
    assert(trim_end(digits.push('\r')) == trim_end(digits.push('\r').drop_last()));
    assert(digits.push('\r').drop_last() =~= digits);
    assert(trim(tail) == digits);
    law_parse_of_decimal(rdb.len(), usize::MAX as nat);
}

} // verus!
