//! Reading values from the bytes of a connection.

use crate::resp::{
    crlf_at, lemma_array_view, read_until_crlf, views, Value, ValueView, ARRAY_TAG, BULK_TAG, CR,
    LF, SIMPLE_TAG,
};
use crate::text::{parse_usize, to_usize};
use vstd::prelude::*;
use vstd::slice::{slice_subrange, slice_to_vec};
use vstd::utf8::*;

verus! {

/// What the bytes of a connection start with.
#[derive(Debug)]
pub enum Decoded {
    /// A value, and how many bytes it takes.
    Complete(Value, usize),
    /// The start of a value; more bytes have to come.
    Incomplete,
    /// No value.
    Malformed,
}

/// What a [`Decoded`] holds.
pub enum DecodedView {
    Complete(ValueView, int),
    Incomplete,
    Malformed,
}

/// What the bytes start with where a row of values is expected.
pub enum ItemsView {
    Complete(Seq<ValueView>, int),
    Incomplete,
    Malformed,
}

impl View for Decoded {
    type V = DecodedView;

    open spec fn view(&self) -> DecodedView {
        match self {
            Decoded::Complete(v, n) => DecodedView::Complete(v@, *n as int),
            Decoded::Incomplete => DecodedView::Incomplete,
            Decoded::Malformed => DecodedView::Malformed,
        }
    }
}

/// Calls `String::from_utf8`. It succeeds on valid UTF-8 and on nothing else, and
/// gives the text that the bytes encode.
#[verifier::external_body]
fn utf8_text(bytes: Vec<u8>) -> (r: Option<String>)
    ensures
        match r {
            Some(s) => valid_utf8(bytes@) && s@ == decode_utf8(bytes@),
            None => !valid_utf8(bytes@),
        },
{
    String::from_utf8(bytes).ok()
}

/// Whether `i` is where the first line ends.
pub open spec fn is_first_crlf(b: Seq<u8>, i: int) -> bool {
    crlf_at(b, i) && forall|k: int| 0 <= k < i ==> !crlf_at(b, k)
}

/// Where the first line ends.
pub open spec fn first_crlf(b: Seq<u8>) -> Option<int> {
    if exists|i: int| crlf_at(b, i) {
        Some(choose|i: int| is_first_crlf(b, i))
    } else {
        None
    }
}

/// A first end of a line is the first.
pub proof fn lemma_first_crlf(b: Seq<u8>, i: int)
    requires
        is_first_crlf(b, i),
    ensures
        first_crlf(b) == Some(i),
{
    let j = choose|j: int| is_first_crlf(b, j);
    assert(is_first_crlf(b, j));
    assert(i == j);
}

/// The size that a line states.
pub open spec fn stated_size(line: Seq<u8>) -> Option<usize> {
    if valid_utf8(line) {
        to_usize(decode_utf8(line))
    } else {
        None
    }
}

/// What follows the line of a bulk string that states its size: that many bytes
/// and the end of the line.
pub open spec fn decode_bulk(b: Seq<u8>, head: int, size: int) -> DecodedView {
    if b.len() < head + size + 2 {
        DecodedView::Incomplete
    } else {
        let body = b.subrange(head, head + size);
        if crlf_at(b, head + size) && valid_utf8(body) {
            DecodedView::Complete(ValueView::BulkString(decode_utf8(body)), head + size + 2)
        } else {
            DecodedView::Malformed
        }
    }
}

/// The value that bytes start with: a simple string, a bulk string, or an array
/// of values.
pub open spec fn decode_value(b: Seq<u8>) -> DecodedView
    decreases b.len(), 0int, 0int,
{
    if b.len() == 0 {
        DecodedView::Incomplete
    } else if b[0] != SIMPLE_TAG && b[0] != BULK_TAG && b[0] != ARRAY_TAG {
        DecodedView::Malformed
    } else {
        match first_crlf(b.skip(1)) {
            None => DecodedView::Incomplete,
            Some(n) => {
                let line = b.subrange(1, 1 + n);
                let head = n + 3;
                if b[0] == SIMPLE_TAG {
                    if valid_utf8(line) {
                        DecodedView::Complete(ValueView::SimpleString(decode_utf8(line)), head)
                    } else {
                        DecodedView::Malformed
                    }
                } else {
                    match stated_size(line) {
                        None => DecodedView::Malformed,
                        Some(size) => if b[0] == BULK_TAG {
                            decode_bulk(b, head, size as int)
                        } else if 0 < head <= b.len() {
                            match decode_items(b.skip(head), size as nat) {
                                ItemsView::Complete(items, m) => DecodedView::Complete(
                                    ValueView::Array(items),
                                    head + m,
                                ),
                                ItemsView::Incomplete => DecodedView::Incomplete,
                                ItemsView::Malformed => DecodedView::Malformed,
                            }
                        } else {
                            DecodedView::Malformed
                        },
                    }
                }
            },
        }
    }
}

/// The values that bytes start with, one after the other.
pub open spec fn decode_items(b: Seq<u8>, count: nat) -> ItemsView
    decreases b.len(), 1int, count as int,
{
    if count == 0 {
        ItemsView::Complete(Seq::empty(), 0)
    } else {
        match decode_value(b) {
            DecodedView::Complete(v, n) => if 0 < n <= b.len() {
                match decode_items(b.skip(n), (count - 1) as nat) {
                    ItemsView::Complete(items, m) => ItemsView::Complete(seq![v] + items, n + m),
                    ItemsView::Incomplete => ItemsView::Incomplete,
                    ItemsView::Malformed => ItemsView::Malformed,
                }
            } else {
                ItemsView::Malformed
            },
            DecodedView::Incomplete => ItemsView::Incomplete,
            DecodedView::Malformed => ItemsView::Malformed,
        }
    }
}

/// A value takes at least one byte, and no more than there are.
pub proof fn lemma_decoded_size(b: Seq<u8>)
    ensures
        decode_value(b) matches DecodedView::Complete(v, n) ==> 0 < n <= b.len(),
    decreases b.len(), 0int, 0int,
{
    if b.len() > 0 {
        if let Some(n) = first_crlf(b.skip(1)) {
            lemma_first_exists(b.skip(1));
            let head = n + 3;
            if let Some(size) = stated_size(b.subrange(1, 1 + n)) {
                if 0 < head <= b.len() {
                    lemma_items_size(b.skip(head), size as nat);
                }
            }
        }
    }
}

/// Values take no more bytes than there are.
pub proof fn lemma_items_size(b: Seq<u8>, count: nat)
    ensures
        decode_items(b, count) matches ItemsView::Complete(items, n) ==> 0 <= n <= b.len()
            && items.len() == count,
    decreases b.len(), 1int, count as int,
{
    if count > 0 {
        lemma_decoded_size(b);
        if let DecodedView::Complete(v, n) = decode_value(b) {
            lemma_items_size(b.skip(n), (count - 1) as nat);
        }
    }
}

/// Where a line ends, there is a first end.
pub proof fn lemma_first_exists(b: Seq<u8>)
    ensures
        first_crlf(b) matches Some(n) ==> is_first_crlf(b, n),
{
    if exists|i: int| crlf_at(b, i) {
        let i = choose|i: int| crlf_at(b, i);
        lemma_first_below(b, i);
    }
}

proof fn lemma_first_below(b: Seq<u8>, i: int)
    requires
        crlf_at(b, i),
    ensures
        exists|j: int| is_first_crlf(b, j),
    decreases i,
{
    if is_first_crlf(b, i) {
    } else {
        let k = choose|k: int| 0 <= k < i && crlf_at(b, k);
        lemma_first_below(b, k);
    }
}

/// Reads the value that the bytes of a buffer start with.
pub fn decode(buffer: &[u8]) -> (r: Decoded)
    ensures
        r@ == decode_value(buffer@),
        r matches Decoded::Complete(v, n) ==> 0 < n <= buffer@.len(),
    decreases buffer@.len(),
{
    proof {
        lemma_decoded_size(buffer@);
    }
    let total = buffer.len();
    if total == 0 {
        return Decoded::Incomplete;
    }
    let tag = buffer[0];
    if tag != SIMPLE_TAG && tag != BULK_TAG && tag != ARRAY_TAG {
        return Decoded::Malformed;
    }
    let rest = slice_subrange(buffer, 1, total);
    proof {
        assert(rest@ =~= buffer@.skip(1));
    }
    let n = match read_until_crlf(rest) {
        Some((line, _)) => {
            proof {
                lemma_first_crlf(rest@, line@.len() as int);
            }
            line.len()
        },
        None => {
            return Decoded::Incomplete;
        },
    };
    let head = n + 3;
    let text = utf8_text(slice_to_vec(slice_subrange(buffer, 1, 1 + n)));
    if tag == SIMPLE_TAG {
        return match text {
            Some(s) => Decoded::Complete(Value::SimpleString(s), head),
            None => Decoded::Malformed,
        };
    }
    let size = match text {
        Some(s) => match parse_usize(s.as_str()) {
            Some(size) => size,
            None => {
                return Decoded::Malformed;
            },
        },
        None => {
            return Decoded::Malformed;
        },
    };
    if tag == BULK_TAG {
        let left = total - head;
        if left < 2 || left - 2 < size {
            return Decoded::Incomplete;
        }
        if buffer[head + size] != CR || buffer[head + size + 1] != LF {
            return Decoded::Malformed;
        }
        match utf8_text(slice_to_vec(slice_subrange(buffer, head, head + size))) {
            Some(s) => Decoded::Complete(Value::BulkString(s), head + size + 2),
            None => Decoded::Malformed,
        }
    } else {
        let ghost all = buffer@.skip(head as int);
        let mut items: Vec<Value> = Vec::new();
        let mut at: usize = head;
        let mut i: usize = 0;
        proof {
            lemma_items_size(all, size as nat);
            assert(all.skip(0) =~= all);
        }
        while i < size
            invariant
                i <= size,
                0 < head <= at <= total,
                total == buffer@.len(),
                all == buffer@.skip(head as int),
                items.len() == i,
                decode_items(all, size as nat) == match decode_items(
                    buffer@.skip(at as int),
                    (size - i) as nat,
                ) {
                    ItemsView::Complete(more, m) => ItemsView::Complete(
                        views(items@) + more,
                        at - head + m,
                    ),
                    ItemsView::Incomplete => ItemsView::Incomplete,
                    ItemsView::Malformed => ItemsView::Malformed,
                },
                decode_value(buffer@) == match decode_items(all, size as nat) {
                    ItemsView::Complete(items, m) => DecodedView::Complete(
                        ValueView::Array(items),
                        head + m,
                    ),
                    ItemsView::Incomplete => DecodedView::Incomplete,
                    ItemsView::Malformed => DecodedView::Malformed,
                },
            decreases size - i,
        {
            let tail = slice_subrange(buffer, at, total);
            proof {
                assert(tail@ =~= buffer@.skip(at as int));
            }
            match decode(tail) {
                Decoded::Complete(v, n) => {
                    let ghost before = views(items@);
                    items.push(v);
                    proof {
                        assert(views(items@) =~= before.push(v@));
                        assert(tail@.skip(n as int) =~= buffer@.skip(at + n));
                        if let ItemsView::Complete(more, m) = decode_items(
                            buffer@.skip(at + n),
                            (size - i - 1) as nat,
                        ) {
                            assert(before + (seq![v@] + more) =~= views(items@) + more);
                        }
                    }
                    at = at + n;
                },
                Decoded::Incomplete => {
                    return Decoded::Incomplete;
                },
                Decoded::Malformed => {
                    return Decoded::Malformed;
                },
            }
            i += 1;
        }
        proof {
            lemma_array_view(items);
            assert(views(items@) + Seq::<ValueView>::empty() =~= views(items@));
        }
        Decoded::Complete(Value::Array(items), at)
    }
}

} // verus!
