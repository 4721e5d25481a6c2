//! What is written on the wire reads back, and what was read stays read.

use crate::decode::{
    decode_items, decode_value, first_crlf, is_first_crlf, lemma_decoded_size, lemma_first_crlf,
    lemma_first_exists, lemma_items_size,
    stated_size, DecodedView, ItemsView,
};
use crate::lists::bulk_values;
use crate::resp::{crlf, crlf_at, encoded, encoded_all, tagged_line, ValueView, CR, LF};
use crate::strings::byte_bulk_wire;
use crate::text::{decimal, decimal_int, is_digit, law_parse_of_decimal, lemma_decimal, to_usize};
use vstd::prelude::*;
use vstd::utf8::*;

verus! {

// ---------------------------------------------------------------------------
// Bytes of texts
// ---------------------------------------------------------------------------

/// The bytes of two texts, one after the other.
pub proof fn lemma_encode_concat(a: Seq<char>, b: Seq<char>)
    ensures
        encode_utf8(a + b) == encode_utf8(a) + encode_utf8(b),
    decreases a.len(),
{
    if a.len() == 0 {
        assert(a + b =~= b);
        assert(encode_utf8(a) + encode_utf8(b) =~= encode_utf8(b));
    } else {
        assert((a + b).drop_first() =~= a.drop_first() + b);
        lemma_encode_concat(a.drop_first(), b);
        assert(encode_utf8(a + b) =~= encode_utf8(a) + encode_utf8(b));
    }
}

/// Whether the bytes of a character are what they should be: one byte for a
/// carriage return and a line feed, and no other character holds such a byte.
spec fn ends_apart(c: char, b: Seq<u8>) -> bool {
    &&& b.len() >= 1
    &&& b[0] == CR ==> c == '\r'
    &&& b[0] == LF ==> c == '\n'
    &&& forall|i: int| 0 <= i < b.len() && #[trigger] b[i] < 128 ==> b.len() == 1
}

proof fn lemma_char(c: char)
    ensures
        ends_apart(c, encode_scalar(c as u32)),
{
    let b = encode_scalar(c as u32);
    let one = seq![c];
    assert(one.drop_first() =~= Seq::<char>::empty());
    assert(encode_utf8(one.drop_first()) =~= Seq::<u8>::empty());
    assert(encode_utf8(one) =~= b);
    encode_utf8_first_scalar(one);
    if c <= '\u{7f}' {
        is_ascii_chars_encode_utf8(one);
        assert(one[0] as u8 == encode_utf8(one)[0]);
    }
}

/// A text's first character comes first in its bytes.
proof fn lemma_first_char(s: Seq<char>)
    requires
        s.len() > 0,
    ensures
        ({
            let n = encode_scalar(s[0] as u32).len() as int;
            &&& 1 <= n <= encode_utf8(s).len()
            &&& encode_utf8(s.skip(1)) == encode_utf8(s).skip(n)
            &&& ends_apart(s[0], encode_utf8(s).take(n))
        }),
{
    let b = encode_utf8(s);
    let first = encode_scalar(s[0] as u32);
    lemma_char(s[0]);
    assert(s.skip(1) =~= s.drop_first());
    assert(b.skip(first.len() as int) =~= encode_utf8(s.drop_first()));
    assert(b.take(first.len() as int) =~= first);
}

/// Whether a line feed follows a carriage return somewhere in a text.
pub open spec fn has_crlf(s: Seq<char>) -> bool {
    exists|i: int| #[trigger] crlf_in(s, i)
}

/// Whether the characters at `i` are a carriage return and a line feed.
pub open spec fn crlf_in(s: Seq<char>, i: int) -> bool {
    0 <= i < s.len() - 1 && s[i] == '\r' && s[i + 1] == '\n'
}

/// The bytes of a text end a line only where the text does.
proof fn lemma_no_crlf(s: Seq<char>, k: int)
    requires
        !has_crlf(s),
    ensures
        !crlf_at(encode_utf8(s), k),
    decreases s.len(),
{
    if s.len() > 0 && crlf_at(encode_utf8(s), k) {
        let b = encode_utf8(s);
        let rest = s.skip(1);
        let n = encode_scalar(s[0] as u32).len() as int;
        lemma_first_char(s);
        if k < n {
            assert(b.take(n)[k] == CR);
            assert(n == 1 && s[0] == '\r');
            assert(b.skip(1)[0] == b[1]);
            lemma_first_char(rest);
            assert(encode_utf8(rest).take(encode_scalar(rest[0] as u32).len() as int)[0] == LF);
            assert(crlf_in(s, 0));
        } else {
            assert(crlf_at(encode_utf8(rest), k - n)) by {
                assert(b.skip(n)[k - n] == b[k]);
                assert(b.skip(n)[k - n + 1] == b[k + 1]);
            }
            assert(!has_crlf(rest)) by {
                if has_crlf(rest) {
                    let i = choose|i: int| #[trigger] crlf_in(rest, i);
                    assert(crlf_in(s, i + 1));
                }
            }
            lemma_no_crlf(rest, k - n);
        }
    }
}

/// How the bytes of a tagged line read.
proof fn lemma_line(tag: char, body: Seq<char>, rest: Seq<u8>)
    requires
        (tag as u32) < 128,
        !has_crlf(body),
    ensures
        ({
            let line = encode_utf8(tagged_line(tag, body));
            let b = line + rest;
            let n = encode_utf8(body).len() as int;
            &&& line.len() == n + 3
            &&& b[0] == tag as u8
            &&& first_crlf(b.skip(1)) == Some(n)
            &&& b.subrange(1, 1 + n) == encode_utf8(body)
            &&& b.skip(n + 3) == rest
        }),
{
    let text = encode_utf8(body);
    let n = text.len() as int;
    let end = encode_utf8(crlf());
    let line = encode_utf8(tagged_line(tag, body));
    let b = line + rest;
    is_ascii_chars_encode_utf8(seq![tag]);
    is_ascii_chars_encode_utf8(crlf());
    assert(seq![tag][0] as u8 == encode_utf8(seq![tag])[0]);
    assert(crlf()[0] as u8 == end[0]);
    assert(crlf()[1] as u8 == end[1]);
    lemma_encode_concat(seq![tag] + body, crlf());
    lemma_encode_concat(seq![tag], body);
    assert(line =~= encode_utf8(seq![tag]) + text + end);
    let tail = b.skip(1);
    assert(tail =~= text + end + rest);
    assert(tail[n] == CR && tail[n + 1] == LF);
    assert forall|k: int| 0 <= k < n implies !crlf_at(tail, k) by {
        if crlf_at(tail, k) {
            lemma_no_crlf(body, k);
            if k + 1 < n {
                assert(text[k] == tail[k] && text[k + 1] == tail[k + 1]);
            } else {
                assert(tail[k + 1] == CR);
            }
        }
    }
    lemma_first_crlf(tail, n);
    assert(b.subrange(1, 1 + n) =~= text);
    assert(b.skip(n + 3) =~= rest);
}

/// A number in decimal holds no end of a line.
proof fn lemma_decimal_line(n: nat)
    requires
        n <= usize::MAX,
    ensures
        !has_crlf(decimal(n)),
        stated_size(encode_utf8(decimal(n))) == Some(n as usize),
{
    lemma_decimal(n);
    law_parse_of_decimal(n, usize::MAX as nat);
    encode_utf8_valid_utf8(decimal(n));
    encode_utf8_decode_utf8(decimal(n));
    if has_crlf(decimal(n)) {
        let i = choose|i: int| #[trigger] crlf_in(decimal(n), i);
        assert(is_digit(decimal(n)[i]));
    }
}

// ---------------------------------------------------------------------------
// Bulk strings and commands
// ---------------------------------------------------------------------------

/// A bulk string whose length counts bytes reads back, whatever it holds and
/// whatever follows it.
pub proof fn law_bulk_reads_back(s: Seq<char>, rest: Seq<u8>)
    requires
        encode_utf8(s).len() <= usize::MAX,
    ensures
        decode_value(encode_utf8(byte_bulk_wire(s)) + rest) == DecodedView::Complete(
            ValueView::BulkString(s),
            encode_utf8(byte_bulk_wire(s)).len() as int,
        ),
{
    let size = encode_utf8(s).len();
    let text = encode_utf8(s);
    let line = tagged_line('$', decimal(size));
    let end = encode_utf8(crlf());
    let wire = encode_utf8(byte_bulk_wire(s));
    let b = wire + rest;
    lemma_decimal_line(size);
    lemma_encode_concat(line + s, crlf());
    lemma_encode_concat(line, s);
    is_ascii_chars_encode_utf8(crlf());
    assert(crlf()[0] as u8 == end[0]);
    assert(crlf()[1] as u8 == end[1]);
    let after = text + end + rest;
    assert(b =~= encode_utf8(line) + after);
    lemma_line('$', decimal(size), after);
    let head = encode_utf8(line).len() as int;
    assert(b.subrange(head, head + size) =~= text) by {
        assert(b.skip(head) =~= after);
    }
    assert(b[head + size] == CR && b[head + size + 1] == LF) by {
        assert(after[size as int] == CR && after[size as int + 1] == LF);
    }
    encode_utf8_valid_utf8(s);
    encode_utf8_decode_utf8(s);
}

/// The wire form of a row of words as bulk strings.
pub open spec fn bulk_wires(words: Seq<Seq<char>>) -> Seq<char>
    decreases words.len(),
{
    if words.len() == 0 {
        Seq::empty()
    } else {
        byte_bulk_wire(words[0]) + bulk_wires(words.skip(1))
    }
}

/// The wire form of a command: the number of its words, and its words.
pub open spec fn command_wire(words: Seq<Seq<char>>) -> Seq<char> {
    tagged_line('*', decimal(words.len())) + bulk_wires(words)
}

/// Whether a word fits into memory.
pub open spec fn fits(word: Seq<char>) -> bool {
    encode_utf8(word).len() <= usize::MAX
}

proof fn lemma_words(words: Seq<Seq<char>>, rest: Seq<u8>)
    requires
        forall|i: int| 0 <= i < words.len() ==> fits(#[trigger] words[i]),
    ensures
        decode_items(encode_utf8(bulk_wires(words)) + rest, words.len()) == ItemsView::Complete(
            bulk_values(words),
            encode_utf8(bulk_wires(words)).len() as int,
        ),
    decreases words.len(),
{
    let all = encode_utf8(bulk_wires(words));
    if words.len() == 0 {
        assert(bulk_values(words) =~= Seq::<ValueView>::empty());
    } else {
        let first = encode_utf8(byte_bulk_wire(words[0]));
        let more = words.skip(1);
        let tail = encode_utf8(bulk_wires(more));
        lemma_encode_concat(byte_bulk_wire(words[0]), bulk_wires(more));
        assert(fits(words[0]));
        law_bulk_reads_back(words[0], tail + rest);
        assert(all + rest =~= first + (tail + rest));
        lemma_decoded_size(all + rest);
        assert forall|i: int| 0 <= i < more.len() implies fits(#[trigger] more[i]) by {
            assert(more[i] == words[i + 1]);
        }
        lemma_words(more, rest);
        assert((all + rest).skip(first.len() as int) =~= tail + rest);
        assert(bulk_values(words) =~= seq![ValueView::BulkString(words[0])] + bulk_values(more));
    }
}

/// A command reads back as the array of its words, whatever follows it.
pub proof fn law_command_reads_back(words: Seq<Seq<char>>, rest: Seq<u8>)
    requires
        words.len() <= usize::MAX,
        forall|i: int| 0 <= i < words.len() ==> fits(#[trigger] words[i]),
    ensures
        decode_value(encode_utf8(command_wire(words)) + rest) == DecodedView::Complete(
            ValueView::Array(bulk_values(words)),
            encode_utf8(command_wire(words)).len() as int,
        ),
{
    let line = tagged_line('*', decimal(words.len()));
    let tail = encode_utf8(bulk_wires(words));
    lemma_decimal_line(words.len());
    lemma_encode_concat(line, bulk_wires(words));
    lemma_line('*', decimal(words.len()), tail + rest);
    lemma_words(words, rest);
    let b = encode_utf8(command_wire(words)) + rest;
    assert(b =~= encode_utf8(line) + (tail + rest));
}

// ---------------------------------------------------------------------------
// Values
// ---------------------------------------------------------------------------

/// Whether the wire form of a value reads back: a simple string without an end of
/// a line, a bulk string of ASCII characters, or an array of such values.
pub open spec fn readable(v: ValueView) -> bool
    decreases v,
{
    match v {
        ValueView::SimpleString(s) => !has_crlf(s),
        ValueView::BulkString(s) => is_ascii_chars(s) && s.len() <= usize::MAX,
        ValueView::Array(a) => a.len() <= usize::MAX && (forall|i: int|
            0 <= i < a.len() ==> readable(#[trigger] a[i])),
        _ => false,
    }
}

proof fn lemma_values(a: Seq<ValueView>, done: int, rest: Seq<u8>)
    requires
        0 <= done <= a.len(),
        forall|i: int| 0 <= i < a.len() ==> readable(#[trigger] a[i]),
    ensures
        ({
            let left = encode_utf8(encoded_all(a)).skip(
                encode_utf8(encoded_all(a.take(done))).len() as int,
            );
            &&& encode_utf8(encoded_all(a.take(done))) + left == encode_utf8(encoded_all(a))
            &&& decode_items(left + rest, (a.len() - done) as nat) == ItemsView::Complete(
                a.skip(done),
                left.len() as int,
            )
        }),
    decreases a, a.len() - done,
{
    let all = encode_utf8(encoded_all(a));
    let before = encode_utf8(encoded_all(a.take(done)));
    let left = all.skip(before.len() as int);
    if done == a.len() {
        assert(a.take(done) =~= a);
        assert(a.skip(done) =~= Seq::<ValueView>::empty());
        assert(left =~= Seq::<u8>::empty());
        assert(before + left =~= all);
    } else {
        let v = a[done];
        let wire = encode_utf8(encoded(v));
        let next = encode_utf8(encoded_all(a.take(done + 1)));
        assert(a.take(done + 1).drop_last() =~= a.take(done));
        assert(a.take(done + 1).last() == v);
        lemma_encode_concat(encoded_all(a.take(done)), encoded(v));
        assert(next == before + wire);
        lemma_values(a, done + 1, rest);
        let tail = all.skip(next.len() as int);
        assert(before + left =~= all);
        assert(left =~= wire + tail) by {
            assert(next + tail == all);
            assert(before + wire + tail =~= before + (wire + tail));
        }
        assert(decreases_to!(a => a[done]));
        law_value_reads_back(v, tail + rest);
        assert(left + rest =~= wire + (tail + rest));
        lemma_decoded_size(left + rest);
        assert((left + rest).skip(wire.len() as int) =~= tail + rest);
        assert(a.skip(done) =~= seq![v] + a.skip(done + 1));
    }
}

/// The wire form of a value reads back as the value, whatever follows it.
///
/// The length of a bulk string counts characters on the wire, while reading counts
/// bytes, so the law speaks of ASCII texts.
pub proof fn law_value_reads_back(v: ValueView, rest: Seq<u8>)
    requires
        readable(v),
    ensures
        decode_value(encode_utf8(encoded(v)) + rest) == DecodedView::Complete(
            v,
            encode_utf8(encoded(v)).len() as int,
        ),
    decreases v, 0int,
{
    match v {
        ValueView::SimpleString(s) => {
            lemma_line('+', s, rest);
            encode_utf8_valid_utf8(s);
            encode_utf8_decode_utf8(s);
        },
        ValueView::BulkString(s) => {
            is_ascii_chars_encode_utf8(s);
            law_bulk_reads_back(s, rest);
        },
        ValueView::Array(a) => {
            let line = tagged_line('*', decimal(a.len()));
            let tail = encode_utf8(encoded_all(a));
            lemma_decimal_line(a.len());
            lemma_encode_concat(line, encoded_all(a));
            lemma_line('*', decimal(a.len()), tail + rest);
            assert(decreases_to!(v => v->Array_0));
            lemma_values(a, 0, rest);
            assert(a.take(0) =~= Seq::<ValueView>::empty());
            assert(tail.skip(0) =~= tail);
            assert(a.skip(0) =~= a);
            assert(encode_utf8(encoded(v)) + rest =~= encode_utf8(line) + (tail + rest));
        },
        _ => {},
    }
}

// ---------------------------------------------------------------------------
// Reading bit by bit
// ---------------------------------------------------------------------------

proof fn lemma_first_crlf_stays(b: Seq<u8>, more: Seq<u8>)
    ensures
        first_crlf(b) is Some ==> first_crlf(b + more) == first_crlf(b) && is_first_crlf(
            b,
            first_crlf(b)->0,
        ),
{
    if let Some(n) = first_crlf(b) {
        lemma_first_exists(b);
        assert(is_first_crlf(b + more, n)) by {
            assert forall|k: int| 0 <= k < n implies !crlf_at(b + more, k) by {
                assert(!crlf_at(b, k));
            }
        }
        lemma_first_crlf(b + more, n);
    }
}

proof fn lemma_items_stay(b: Seq<u8>, count: nat, more: Seq<u8>)
    ensures
        !(decode_items(b, count) is Incomplete) ==> decode_items(b + more, count) == decode_items(
            b,
            count,
        ),
    decreases b.len(), 1int, count as int,
{
    if count > 0 {
        law_more_bytes_change_nothing(b, more);
        lemma_decoded_size(b);
        if let DecodedView::Complete(v, n) = decode_value(b) {
            lemma_items_stay(b.skip(n), (count - 1) as nat, more);
            assert((b + more).skip(n) =~= b.skip(n) + more);
        }
    }
}

/// Once bytes are known to start with a value, or to start with none, bytes that
/// follow do not change that.
pub proof fn law_more_bytes_change_nothing(b: Seq<u8>, more: Seq<u8>)
    ensures
        !(decode_value(b) is Incomplete) ==> decode_value(b + more) == decode_value(b),
    decreases b.len(), 0int, 0int,
{
    if b.len() > 0 {
        let all = b + more;
        assert(all[0] == b[0]);
        assert(all.skip(1) =~= b.skip(1) + more);
        lemma_first_crlf_stays(b.skip(1), more);
        if let Some(n) = first_crlf(b.skip(1)) {
            let line = b.subrange(1, 1 + n);
            let head = n + 3;
            assert(all.subrange(1, 1 + n) =~= line);
            if let Some(size) = stated_size(line) {
                if b.len() >= head + size + 2 {
                    assert(all.subrange(head, head + size) =~= b.subrange(head, head + size));
                }
                lemma_items_stay(b.skip(head), size as nat, more);
                assert(all.skip(head) =~= b.skip(head) + more);
            }
        }
    }
}

/// What is read up to any place before the end of a value is incomplete.
pub proof fn law_start_of_a_value_is_incomplete(b: Seq<u8>, v: ValueView, n: int)
    requires
        decode_value(b) == DecodedView::Complete(v, b.len() as int),
        0 <= n < b.len(),
    ensures
        decode_value(b.take(n)) is Incomplete,
{
    law_more_bytes_change_nothing(b.take(n), b.skip(n));
    assert(b.take(n) + b.skip(n) =~= b);
    lemma_decoded_size(b.take(n));
}

// ---------------------------------------------------------------------------
// What was read, in bytes
// ---------------------------------------------------------------------------

/// The bytes that end a line.
pub open spec fn line_end() -> Seq<u8> {
    seq![13u8, 10u8]
}

/// Whether no line ends in bytes, nor where they meet the end of a line.
pub open spec fn is_one_line(text: Seq<u8>) -> bool {
    forall|k: int|
        0 <= k < text.len() ==> !(#[trigger] text[k] == 13 && (text + line_end())[k + 1] == 10)
}

/// A simple string was read from a plus sign, its bytes up to the first end of a line,
/// and that end.
pub proof fn law_simple_string_in_bytes(b: Seq<u8>, s: Seq<char>, n: int)
    requires
        decode_value(b) == DecodedView::Complete(ValueView::SimpleString(s), n),
    ensures
        0 <= n <= b.len(),
        b.take(n) == seq![43u8] + encode_utf8(s) + line_end(),
        is_one_line(encode_utf8(s)),
{
    lemma_decoded_size(b);
    lemma_head(b);
    let m = first_crlf(b.skip(1))->0;
    decode_utf8_encode_utf8(b.subrange(1, 1 + m));
    assert(b.take(n) =~= seq![43u8] + encode_utf8(s) + line_end());
}

/// A bulk string was read from a dollar sign, a line with a number, as many bytes as the
/// number says, which are its own, and the end of a line.
pub proof fn law_bulk_string_in_bytes(b: Seq<u8>, s: Seq<char>, n: int) -> (size: Seq<char>)
    requires
        decode_value(b) == DecodedView::Complete(ValueView::BulkString(s), n),
    ensures
        0 <= n <= b.len(),
        b.take(n) == seq![36u8] + encode_utf8(size) + line_end() + encode_utf8(s) + line_end(),
        is_one_line(encode_utf8(size)),
        to_usize(size) is Some && to_usize(size)->0 == encode_utf8(s).len(),
{
    lemma_decoded_size(b);
    lemma_head(b);
    let m = first_crlf(b.skip(1))->0;
    let line = b.subrange(1, 1 + m);
    let size = decode_utf8(line);
    let k = stated_size(line)->0 as int;
    decode_utf8_encode_utf8(line);
    decode_utf8_encode_utf8(b.subrange(m + 3, m + 3 + k));
    assert(b.take(n) =~= seq![36u8] + encode_utf8(size) + line_end() + encode_utf8(s) + line_end());
    size
}

/// Where a value was read, its first line is one, from the byte behind its tag on.
proof fn lemma_head(b: Seq<u8>)
    requires
        decode_value(b) is Complete,
    ensures
        first_crlf(b.skip(1)) matches Some(m) && {
            &&& 0 <= m
            &&& m + 3 <= b.len()
            &&& b[1 + m] == 13 && b[2 + m] == 10
            &&& is_one_line(b.subrange(1, 1 + m))
        },
{
    lemma_first_exists(b.skip(1));
    let m = first_crlf(b.skip(1))->0;
    let tail = b.skip(1);
    let text = b.subrange(1, 1 + m);
    assert(is_first_crlf(tail, m));
    assert forall|k: int| 0 <= k < text.len() implies !(#[trigger] text[k] == 13 && (text
        + line_end())[k + 1] == 10) by {
        assert(!crlf_at(tail, k));
        assert(tail[k] == text[k]);
        if k + 1 < m {
            assert(tail[k + 1] == text[k + 1]);
        }
    }
}

/// Whether values were read from bytes one after the other: each from where the one
/// before it ends.
pub open spec fn read_in_row(b: Seq<u8>, items: Seq<ValueView>, ends: Seq<int>) -> bool {
    &&& ends.len() == items.len() + 1
    &&& forall|i: int|
        #![trigger items[i]]
        0 <= i < items.len() ==> 0 <= ends[i] <= b.len() && decode_value(b.skip(ends[i]))
            == DecodedView::Complete(items[i], ends[i + 1] - ends[i])
}

proof fn lemma_row(b: Seq<u8>, from: int, count: nat) -> (ends: Seq<int>)
    requires
        0 <= from <= b.len(),
        decode_items(b.skip(from), count) is Complete,
    ensures
        ({
            let r = decode_items(b.skip(from), count);
            &&& read_in_row(b, r->Complete_0, ends)
            &&& r->Complete_0.len() == count
            &&& ends[0] == from
            &&& ends.last() == from + r->Complete_1
        }),
    decreases count,
{
    let here = b.skip(from);
    if count == 0 {
        seq![from]
    } else {
        let v = decode_value(here)->Complete_0;
        let n = decode_value(here)->Complete_1;
        lemma_decoded_size(here);
        assert(here.skip(n) =~= b.skip(from + n));
        let rest = lemma_row(b, from + n, (count - 1) as nat);
        let ends = seq![from] + rest;
        let items = decode_items(here, count)->Complete_0;
        let more = decode_items(here.skip(n), (count - 1) as nat)->Complete_0;
        assert(items =~= seq![v] + more);
        assert forall|i: int|
            #![trigger items[i]]
            0 <= i < items.len() implies 0 <= ends[i] <= b.len() && decode_value(b.skip(ends[i]))
            == DecodedView::Complete(items[i], ends[i + 1] - ends[i]) by {
            if i > 0 {
                assert(items[i] == more[i - 1]);
                assert(ends[i] == rest[i - 1] && ends[i + 1] == rest[i]);
            } else {
                assert(ends[1] == rest[0]);
            }
        }
        assert(ends.last() == rest.last());
        ends
    }
}

/// An array was read from an asterisk, a line with a number, and as many values as the
/// number says, each right behind the one before it.
pub proof fn law_array_in_bytes(b: Seq<u8>, items: Seq<ValueView>, n: int) -> (r: (
    Seq<char>,
    Seq<int>,
))
    requires
        decode_value(b) == DecodedView::Complete(ValueView::Array(items), n),
    ensures
        ({
            let (size, ends) = r;
            let head = seq![42u8] + encode_utf8(size) + line_end();
            &&& head.len() <= n <= b.len()
            &&& b.take(head.len() as int) == head
            &&& is_one_line(encode_utf8(size))
            &&& to_usize(size) is Some
            &&& to_usize(size)->0 == items.len()
            &&& read_in_row(b, items, ends)
            &&& ends[0] == head.len()
            &&& ends.last() == n
        }),
{
    lemma_decoded_size(b);
    lemma_head(b);
    let m = first_crlf(b.skip(1))->0;
    let line = b.subrange(1, 1 + m);
    let size = decode_utf8(line);
    decode_utf8_encode_utf8(line);
    lemma_items_size(b.skip(m + 3), stated_size(line)->0 as nat);
    let ends = lemma_row(b, m + 3, stated_size(line)->0 as nat);
    let head = seq![42u8] + encode_utf8(size) + line_end();
    assert(b.take(head.len() as int) =~= head);
    (size, ends)
}

/// Nothing but simple strings, bulk strings and arrays is read.
pub proof fn law_kinds_that_are_read(b: Seq<u8>)
    ensures
        decode_value(b) matches DecodedView::Complete(v, n) ==> v is SimpleString || v
            is BulkString || v is Array,
        b.len() > 0 && b[0] != 43 && b[0] != 36 && b[0] != 42 ==> decode_value(b) is Malformed,
        b.len() == 0 ==> decode_value(b) is Incomplete,
{
}

/// A line that should state a size and states none is no start of a value; and neither
/// is a bulk string behind which no line ends.
pub proof fn law_bytes_that_are_no_value(
    tag: u8,
    size: Seq<char>,
    body: Seq<u8>,
    rest: Seq<u8>,
)
    requires
        tag == 36 || tag == 42,
        is_one_line(encode_utf8(size)),
    ensures
        to_usize(size) is None ==> decode_value(
            seq![tag] + encode_utf8(size) + line_end() + rest,
        ) is Malformed,
        to_usize(size) is Some && to_usize(size)->0 == body.len() && rest.len() >= 2 && rest.take(2)
            != line_end() ==> decode_value(
            seq![36u8] + encode_utf8(size) + line_end() + body + rest,
        ) is Malformed,
{
    let text = encode_utf8(size);
    let b = seq![tag] + text + line_end() + rest;
    lemma_stated(tag, size, rest);
    let after = body + rest;
    let c = seq![36u8] + text + line_end() + body + rest;
    lemma_stated(36, size, after);
    assert(c =~= seq![36u8] + text + line_end() + after);
    if to_usize(size) is Some && to_usize(size)->0 == body.len() && rest.len() >= 2 && rest.take(2)
        != line_end() {
        let at = text.len() as int + 3 + body.len();
        assert(c[at] == rest[0] && c[at + 1] == rest[1]);
        if rest[0] == 13 && rest[1] == 10 {
            assert(rest.take(2) =~= line_end());
        }
    }
}

proof fn lemma_stated(tag: u8, size: Seq<char>, rest: Seq<u8>)
    requires
        is_one_line(encode_utf8(size)),
    ensures
        ({
            let b = seq![tag] + encode_utf8(size) + line_end() + rest;
            let n = encode_utf8(size).len() as int;
            &&& b[0] == tag
            &&& first_crlf(b.skip(1)) == Some(n)
            &&& b.subrange(1, 1 + n) == encode_utf8(size)
            &&& stated_size(b.subrange(1, 1 + n)) == to_usize(size)
        }),
{
    let text = encode_utf8(size);
    let n = text.len() as int;
    let b = seq![tag] + text + line_end() + rest;
    let tail = b.skip(1);
    assert(tail =~= text + line_end() + rest);
    assert(tail[n] == CR && tail[n + 1] == LF);
    assert forall|k: int| 0 <= k < n implies !crlf_at(tail, k) by {
        assert(text[k] == tail[k]);
        assert((text + line_end())[k + 1] == tail[k + 1]);
    }
    lemma_first_crlf(tail, n);
    assert(b.subrange(1, 1 + n) =~= text);
    encode_utf8_valid_utf8(size);
    encode_utf8_decode_utf8(size);
}

// ---------------------------------------------------------------------------
// What is written
// ---------------------------------------------------------------------------

/// The wire form of every answer but an array: a tag, a text, and the end of the line;
/// a bulk string has a line with the number of its characters in front.
pub proof fn law_answers_on_the_wire(s: Seq<char>, n: i64)
    ensures
        encoded(ValueView::SimpleString(s)) == seq!['+'] + s + seq!['\r', '\n'],
        encoded(ValueView::BulkString(s)) == seq!['$'] + decimal(s.len()) + seq!['\r', '\n'] + s + seq![
            '\r',
            '\n',
        ],
        encoded(ValueView::Error(s)) == seq!['-'] + s + seq!['\r', '\n'],
        encoded(ValueView::Integer(n)) == seq![':'] + decimal_int(n as int) + seq!['\r', '\n'],
        encoded(ValueView::NullBulkString) == seq!['$', '-', '1', '\r', '\n'],
        encoded(ValueView::NullArray) == seq!['*', '-', '1', '\r', '\n'],
        encoded(ValueView::NoReply).len() == 0,
{
    assert(encoded(ValueView::NullBulkString) =~= seq!['$', '-', '1', '\r', '\n']);
    assert(encoded(ValueView::NullArray) =~= seq!['*', '-', '1', '\r', '\n']);
}

/// The wire form of an array: a line with the number of its items, and the wire forms of
/// its items one after the other.
pub proof fn law_arrays_on_the_wire(a: Seq<ValueView>, b: Seq<ValueView>, v: ValueView)
    ensures
        encoded(ValueView::Array(a)) == seq!['*'] + decimal(a.len()) + seq!['\r', '\n']
            + encoded_all(a),
        encoded_all(a + b) == encoded_all(a) + encoded_all(b),
        encoded_all(seq![v]) == encoded(v),
        encoded_all(Seq::empty()).len() == 0,
    decreases b.len(),
{
    assert(seq![v].drop_last() =~= Seq::<ValueView>::empty());
    assert(encoded_all(seq![v].drop_last()) =~= Seq::<char>::empty());
    assert(encoded_all(seq![v]) =~= encoded(v));
    if b.len() == 0 {
        assert(a + b =~= a);
        assert(encoded_all(a) + encoded_all(b) =~= encoded_all(a));
    } else {
        assert((a + b).drop_last() =~= a + b.drop_last());
        law_arrays_on_the_wire(a, b.drop_last(), v);
        assert(encoded_all(a + b) =~= encoded_all(a) + encoded_all(b));
    }
}

} // verus!
