//! The values of the Redis serialization protocol and their wire form.

use crate::text::{decimal, decimal_int, decimal_int_text, decimal_text};
use vstd::prelude::*;
use vstd::string::*;

verus! {

/// A value that a client sends or that the server answers with.
#[derive(Debug, PartialEq, Eq)]
pub enum Value {
    SimpleString(String),
    BulkString(String),
    Array(Vec<Value>),
    Error(String),
    Integer(i64),
    NullBulkString,
    NullArray,
    /// No answer at all.
    NoReply,
}

/// What a [`Value`] holds.
pub enum ValueView {
    SimpleString(Seq<char>),
    BulkString(Seq<char>),
    Array(Seq<ValueView>),
    Error(Seq<char>),
    Integer(i64),
    NullBulkString,
    NullArray,
    NoReply,
}

impl Value {
    /// What the value holds.
    pub open spec fn content(self) -> ValueView
        decreases self,
    {
        match self {
            Value::SimpleString(s) => ValueView::SimpleString(s@),
            Value::BulkString(s) => ValueView::BulkString(s@),
            Value::Array(a) => ValueView::Array(
                Seq::new(
                    a@.len(),
                    |i: int|
                        if 0 <= i < a@.len() {
                            a@[i].content()
                        } else {
                            ValueView::NoReply
                        },
                ),
            ),
            Value::Error(s) => ValueView::Error(s@),
            Value::Integer(n) => ValueView::Integer(n),
            Value::NullBulkString => ValueView::NullBulkString,
            Value::NullArray => ValueView::NullArray,
            Value::NoReply => ValueView::NoReply,
        }
    }
}

impl View for Value {
    type V = ValueView;

    open spec fn view(&self) -> ValueView {
        self.content()
    }
}

/// What each value of a row holds.
pub open spec fn views(values: Seq<Value>) -> Seq<ValueView> {
    values.map_values(|v: Value| v@)
}

/// An array holds what its items hold.
pub broadcast proof fn lemma_array_view(items: Vec<Value>)
    ensures
        #[trigger] Value::Array(items).view() == ValueView::Array(views(items@)),
{
    let v = Value::Array(items);
    assert(v@->Array_0.len() == items@.len());
    assert forall|i: int| 0 <= i < items@.len() implies v@->Array_0[i] == views(items@)[i] by {
        assert(v@->Array_0[i] == items@[i].view());
    }
    assert(v@->Array_0 =~= views(items@));
}

impl Clone for Value {
    fn clone(&self) -> (r: Self)
        ensures
            r@ == self@,
        decreases self,
    {
        match self {
            Value::SimpleString(s) => Value::SimpleString(s.clone()),
            Value::BulkString(s) => Value::BulkString(s.clone()),
            Value::Array(a) => {
                let mut out: Vec<Value> = Vec::new();
                let n = a.len();
                for i in 0..n
                    invariant
                        n == a.len(),
                        out.len() == i,
                        *self == Value::Array(*a),
                        forall|k: int| 0 <= k < i ==> (#[trigger] out@[k])@ == a@[k]@,
                {
                    proof {
                        assert(decreases_to!(*self => self->Array_0));
                        assert(decreases_to!(*a => a@));
                        assert(decreases_to!(a@ => a@[i as int]));
                    }
                    let item = a[i].clone();
                    out.push(item);
                }
                let r = Value::Array(out);
                proof {
                    lemma_array_view(out);
                    lemma_array_view(*a);
                    assert(views(out@) =~= views(a@));
                }
                r
            },
            Value::Error(s) => Value::Error(s.clone()),
            Value::Integer(n) => Value::Integer(*n),
            Value::NullBulkString => Value::NullBulkString,
            Value::NullArray => Value::NullArray,
            Value::NoReply => Value::NoReply,
        }
    }
}

/// The end of a line on the wire.
pub open spec fn crlf() -> Seq<char> {
    seq!['\r', '\n']
}

/// A line that starts with a type tag.
pub open spec fn tagged_line(tag: char, body: Seq<char>) -> Seq<char> {
    seq![tag] + body + crlf()
}

/// The wire form of a simple string.
pub open spec fn simple_wire(s: Seq<char>) -> Seq<char> {
    tagged_line('+', s)
}

/// The wire form of a bulk string; its length counts characters.
pub open spec fn bulk_wire(s: Seq<char>) -> Seq<char> {
    tagged_line('$', decimal(s.len())) + s + crlf()
}

/// The wire form of an answer. An array is its length followed by its items; no
/// answer is no text.
pub open spec fn encoded(v: ValueView) -> Seq<char>
    decreases v,
{
    match v {
        ValueView::SimpleString(s) => simple_wire(s),
        ValueView::BulkString(s) => bulk_wire(s),
        ValueView::Array(a) => tagged_line('*', decimal(a.len())) + encoded_all(a),
        ValueView::Error(s) => tagged_line('-', s),
        ValueView::Integer(n) => tagged_line(':', decimal_int(n as int)),
        ValueView::NullBulkString => tagged_line('$', seq!['-', '1']),
        ValueView::NullArray => tagged_line('*', seq!['-', '1']),
        ValueView::NoReply => Seq::empty(),
    }
}

/// The wire forms of a row of answers, one after the other.
pub open spec fn encoded_all(a: Seq<ValueView>) -> Seq<char>
    decreases a,
{
    if a.len() == 0 {
        Seq::empty()
    } else {
        encoded_all(a.drop_last()) + encoded(a.last())
    }
}

/// Appends a line that starts with a type tag.
fn push_line(out: &mut String, tag: &str, body: &str)
    requires
        tag@.len() == 1,
    ensures
        final(out)@ == old(out)@ + tagged_line(tag@[0], body@),
{
    out.append(tag);
    out.append(body);
    out.append("\r\n");
    proof {
        reveal_strlit("\r\n");
        assert("\r\n"@ =~= crlf());
        assert(out@ =~= old(out)@ + tagged_line(tag@[0], body@));
    }
}

/// Appends a text and the end of the line.
fn push_text(out: &mut String, body: &str)
    ensures
        final(out)@ == old(out)@ + (body@ + crlf()),
{
    out.append(body);
    out.append("\r\n");
    proof {
        reveal_strlit("\r\n");
        assert("\r\n"@ =~= crlf());
        assert(out@ =~= old(out)@ + (body@ + crlf()));
    }
}

impl Value {
    /// The wire form of a simple or a bulk string.
    pub fn serialize(self) -> (r: String)
        requires
            self is SimpleString || self is BulkString,
        ensures
            self matches Value::SimpleString(s) ==> r@ == simple_wire(s@),
            self matches Value::BulkString(s) ==> r@ == bulk_wire(s@),
    {
        let mut out = String::new();
        self.encode_into(&mut out);
        proof {
            assert(out@ =~= encoded(self@));
        }
        out
    }

    /// The wire form of an answer.
    pub fn encode(&self) -> (r: String)
        ensures
            r@ == encoded(self@),
    {
        let mut out = String::new();
        self.encode_into(&mut out);
        proof {
            assert(out@ =~= encoded(self@));
        }
        out
    }

    /// Appends the wire form of an answer.
    fn encode_into(&self, out: &mut String)
        ensures
            final(out)@ == old(out)@ + encoded(self@),
        decreases self,
    {
        proof {
            reveal_strlit("+");
            reveal_strlit("$");
            reveal_strlit("*");
            reveal_strlit("-");
            reveal_strlit(":");
            reveal_strlit("-1");
            assert("-1"@ =~= seq!['-', '1']);
        }
        match self {
            Value::SimpleString(s) => {
                push_line(out, "+", s.as_str());
            },
            Value::BulkString(s) => {
                let size = decimal_text(s.as_str().unicode_len() as u64);
                push_line(out, "$", size.as_str());
                push_text(out, s.as_str());
                proof {
                    assert(out@ =~= old(out)@ + encoded(self@));
                }
            },
            Value::Array(a) => {
                let n = a.len();
                let size = decimal_text(n as u64);
                push_line(out, "*", size.as_str());
                let ghost head = out@;
                proof {
                    lemma_array_view(*a);
                    assert(head + encoded_all(views(a@).take(0)) =~= head);
                }
                for i in 0..n
                    invariant
                        n == a.len(),
                        *self == Value::Array(*a),
                        out@ == head + encoded_all(views(a@).take(i as int)),
                {
                    proof {
                        assert(decreases_to!(*self => self->Array_0));
                        assert(decreases_to!(*a => a@));
                        assert(decreases_to!(a@ => a@[i as int]));
                        assert(views(a@).take(i + 1).drop_last() =~= views(a@).take(i as int));
                        assert(views(a@).take(i + 1).last() == a@[i as int]@);
                    }
                    a[i].encode_into(out);
                    proof {
                        assert(out@ =~= head + encoded_all(views(a@).take(i + 1)));
                    }
                }
                proof {
                    assert(views(a@).take(n as int) =~= views(a@));
                    assert(out@ =~= old(out)@ + encoded(self@));
                }
            },
            Value::Error(s) => {
                push_line(out, "-", s.as_str());
            },
            Value::Integer(n) => {
                let number = decimal_int_text(*n);
                push_line(out, ":", number.as_str());
            },
            Value::NullBulkString => {
                push_line(out, "$", "-1");
            },
            Value::NullArray => {
                push_line(out, "*", "-1");
            },
            Value::NoReply => {
                proof {
                    assert(out@ =~= old(out)@ + encoded(self@));
                }
            },
        }
    }
}

/// The bytes that end a line.
pub const CR: u8 = 13;

pub const LF: u8 = 10;

/// The bytes that mark the kind of a value.
pub const SIMPLE_TAG: u8 = 43;

pub const BULK_TAG: u8 = 36;

pub const ARRAY_TAG: u8 = 42;

/// Whether the bytes at `i` end a line.
pub open spec fn crlf_at(buffer: Seq<u8>, i: int) -> bool {
    0 <= i && i + 1 < buffer.len() && buffer[i] == CR && buffer[i + 1] == LF
}

/// The bytes before the first end of a line, and how many bytes they and the end
/// of the line take; nothing where no line ends.
pub fn read_until_crlf(buffer: &[u8]) -> (r: Option<(&[u8], usize)>)
    ensures
        match r {
            Some((line, size)) => {
                &&& line@ == buffer@.take(line@.len() as int)
                &&& crlf_at(buffer@, line@.len() as int)
                &&& forall|k: int| 0 <= k < line@.len() ==> !crlf_at(buffer@, k)
                &&& size == line@.len() + 2
            },
            None => forall|k: int| !crlf_at(buffer@, k),
        },
{
    let n = buffer.len();
    let mut i: usize = 1;
    while i < n
        invariant
            1 <= i,
            n == buffer@.len(),
            forall|k: int| 0 <= k < i - 1 ==> !crlf_at(buffer@, k),
        decreases n - i,
    {
        if buffer[i - 1] == CR && buffer[i] == LF {
            let line = vstd::slice::slice_subrange(buffer, 0, i - 1);
            proof {
                assert(crlf_at(buffer@, i - 1));
                assert(line@ =~= buffer@.take(i - 1));
            }
            return Some((line, i + 1));
        }
        i += 1;
    }
    None
}

} // verus!
