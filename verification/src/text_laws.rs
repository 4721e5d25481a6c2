//! What the readings of texts give, stated of how the texts are put together.

use crate::text::{
    all_digits, ascii_lower, decimal, decimal_int, digits_value, is_digit, is_first_hyphen,
    is_space, lemma_decimal, lemma_split_hyphen, lowercase, parse_signed, parse_unsigned,
    split_hyphen, to_i64, to_u64, to_usize, trim, trim_end, trim_start,
};
use vstd::arithmetic::power::{lemma_pow0, pow};
use vstd::prelude::*;
use vstd::utf8::*;

verus! {

// ---------------------------------------------------------------------------
// Numbers
// ---------------------------------------------------------------------------

/// Whether every character of a text is one of `0` to `9`.
pub open spec fn only_digits(s: Seq<char>) -> bool {
    forall|i: int| 0 <= i < s.len() ==> '0' <= #[trigger] s[i] && s[i] <= '9'
}

/// The digits in front weigh ten for each digit behind them, and one digit is worth its
/// distance from `0`.
pub proof fn law_weight_of_digits(a: Seq<char>, b: Seq<char>)
    ensures
        digits_value(a + b) == digits_value(a) * pow(10, b.len()) + digits_value(b),
        only_digits(a) && a.len() == 1 ==> digits_value(a) == a[0] as int - '0' as int,
        a.len() == 0 ==> digits_value(a) == 0,
    decreases b.len(),
{
    if a.len() == 1 {
        assert(a.drop_last() =~= Seq::<char>::empty());
        assert(digits_value(a.drop_last()) == 0);
        assert(a.last() == a[0]);
    }
    if b.len() == 0 {
        assert(a + b =~= a);
        lemma_pow0(10);
    } else {
        let front = b.drop_last();
        assert((a + b).drop_last() =~= a + front);
        law_weight_of_digits(a, front);
        reveal(pow);
        assert(pow(10, b.len()) == 10 * pow(10, front.len()));
        let x = digits_value(a) as int;
        let p = pow(10, front.len());
        assert((x * p) * 10 == x * (10 * p)) by (nonlinear_arith);
    }
}

/// Which texts are an unsigned number of at most `max`, and which number they are: one
/// digit or more, behind a plus sign or none.
pub proof fn law_unsigned_numbers(s: Seq<char>, max: nat)
    ensures
        s.len() > 0 && only_digits(s) ==> parse_unsigned(s, max) == (if digits_value(s) <= max {
            Some(digits_value(s))
        } else {
            None
        }),
        s.len() > 0 && only_digits(s) ==> parse_unsigned(seq!['+'] + s, max) == parse_unsigned(
            s,
            max,
        ),
        s.len() == 0 ==> parse_unsigned(s, max) is None && parse_unsigned(seq!['+'] + s, max)
            is None,
        s.len() > 0 && s[0] != '+' && !only_digits(s) ==> parse_unsigned(s, max) is None,
        s.len() > 0 && !only_digits(s) ==> parse_unsigned(seq!['+'] + s, max) is None,
{
    let signed = seq!['+'] + s;
    assert(signed.skip(1) =~= s);
    if only_digits(s) {
        assert(all_digits(s)) by {
            assert forall|i: int| 0 <= i < s.len() implies is_digit(
                #[trigger] s[i],
            ) by {
                assert('0' <= s[i] && s[i] <= '9');
            }
        }
        if s.len() > 0 {
            assert('0' <= s[0]);
        }
    } else {
        let i = choose|i: int| 0 <= i < s.len() && !('0' <= #[trigger] s[i] && s[i] <= '9');
        assert(!is_digit(s[i]));
    }
}

/// Which texts are a signed number, and which number they are: an unsigned one that does
/// not exceed the highest, or a minus sign and digits that do not go below the lowest.
pub proof fn law_signed_numbers(s: Seq<char>)
    ensures
        s.len() == 0 || s[0] != '-' ==> parse_signed(s) == (match parse_unsigned(
            s,
            0x7fff_ffff_ffff_ffff,
        ) {
            Some(n) => Some(n as int),
            None => None,
        }),
        s.len() > 0 && only_digits(s) ==> parse_signed(seq!['-'] + s) == (if digits_value(s)
            <= 0x8000_0000_0000_0000 {
            Some(-(digits_value(s) as int))
        } else {
            None
        }),
        s.len() == 0 || !only_digits(s) ==> parse_signed(seq!['-'] + s) is None,
{
    let signed = seq!['-'] + s;
    assert(signed.skip(1) =~= s);
    if only_digits(s) {
        assert(all_digits(s)) by {
            assert forall|i: int| 0 <= i < s.len() implies is_digit(
                #[trigger] s[i],
            ) by {
                assert('0' <= s[i] && s[i] <= '9');
            }
        }
    } else {
        let i = choose|i: int| 0 <= i < s.len() && !('0' <= #[trigger] s[i] && s[i] <= '9');
        assert(!is_digit(s[i]));
    }
}

/// The machine numbers that texts denote: those that fit.
pub proof fn law_machine_numbers(s: Seq<char>)
    ensures
        to_u64(s) is Some <==> parse_unsigned(s, 0xffff_ffff_ffff_ffff) is Some,
        to_u64(s) is Some ==> to_u64(s)->0 == parse_unsigned(s, 0xffff_ffff_ffff_ffff)->0,
        to_usize(s) is Some <==> parse_unsigned(s, usize::MAX as nat) is Some,
        to_usize(s) is Some ==> to_usize(s)->0 == parse_unsigned(s, usize::MAX as nat)->0,
        to_i64(s) is Some <==> parse_signed(s) is Some,
        to_i64(s) is Some ==> to_i64(s)->0 == parse_signed(s)->0,
{
}

/// A number is written in digits, with no zero in front unless it is zero, and they are
/// worth the number; a negative one stands behind a minus sign.
pub proof fn law_written_numbers(n: nat, i: int)
    ensures
        decimal(n).len() > 0,
        only_digits(decimal(n)),
        digits_value(decimal(n)) == n,
        n > 0 ==> decimal(n)[0] != '0',
        n == 0 ==> decimal(n).len() == 1,
        i >= 0 ==> decimal_int(i) == decimal(i as nat),
        i < 0 ==> decimal_int(i) == seq!['-'] + decimal((-i) as nat),
    decreases n,
{
    lemma_decimal(n);
    assert forall|k: int| 0 <= k < decimal(n).len() implies '0' <= #[trigger] decimal(n)[k]
        && decimal(n)[k] <= '9' by {
        assert(is_digit(decimal(n)[k]));
    }
    if n >= 10 {
        law_written_numbers(n / 10, 0);
        assert(decimal(n)[0] == decimal(n / 10)[0]);
    }
}

// ---------------------------------------------------------------------------
// White space, words and hyphens
// ---------------------------------------------------------------------------

/// Which ASCII characters are white space, and what lowering does to an ASCII character:
/// a capital letter becomes the small one, and any other stays.
pub proof fn law_ascii_characters(c: char)
    requires
        c as u32 <= 127,
    ensures
        is_space(c) <==> c == ' ' || c == '\t' || c == '\n' || c == '\r' || c as u32 == 11 || c as u32
            == 12,
        'A' <= c <= 'Z' ==> ascii_lower(c) as u32 == c as u32 + 32,
        !('A' <= c <= 'Z') ==> ascii_lower(c) == c,
{
}

/// An ASCII text is lowered character by character.
pub proof fn law_lowered_text(s: Seq<char>)
    requires
        is_ascii_chars(s),
    ensures
        lowercase(s).len() == s.len(),
        forall|i: int| 0 <= i < s.len() ==> #[trigger] lowercase(s)[i] == ascii_lower(s[i]),
{
}

/// Whether a text is white space throughout.
pub open spec fn is_blank(s: Seq<char>) -> bool {
    forall|i: int| 0 <= i < s.len() ==> is_space(#[trigger] s[i])
}

proof fn lemma_trim_front(pad: Seq<char>, s: Seq<char>)
    requires
        is_blank(pad),
        s.len() > 0 ==> !is_space(s[0]),
    ensures
        trim_start(pad + s) == s,
    decreases pad.len(),
{
    let all = pad + s;
    if pad.len() == 0 {
        assert(all =~= s);
    } else {
        let rest = pad.skip(1);
        assert(all[0] == pad[0]);
        assert(all.skip(1) =~= rest + s);
        assert forall|i: int| 0 <= i < rest.len() implies is_space(#[trigger] rest[i]) by {
            assert(rest[i] == pad[i + 1]);
        }
        lemma_trim_front(rest, s);
    }
}

proof fn lemma_trim_back(s: Seq<char>, pad: Seq<char>)
    requires
        is_blank(pad),
        s.len() > 0 ==> !is_space(s.last()),
    ensures
        trim_end(s + pad) == s,
    decreases pad.len(),
{
    let all = s + pad;
    if pad.len() == 0 {
        assert(all =~= s);
    } else {
        let rest = pad.drop_last();
        assert(all.last() == pad[pad.len() - 1]);
        assert(all.drop_last() =~= s + rest);
        assert forall|i: int| 0 <= i < rest.len() implies is_space(#[trigger] rest[i]) by {
            assert(rest[i] == pad[i]);
        }
        lemma_trim_back(s, rest);
    }
}

/// Trimming takes the white space in front of a text and behind it, and nothing of a
/// text that neither starts nor ends with white space.
pub proof fn law_trim(front: Seq<char>, s: Seq<char>, back: Seq<char>)
    requires
        is_blank(front),
        is_blank(back),
        s.len() > 0 ==> !is_space(s[0]) && !is_space(s.last()),
    ensures
        trim(front + s + back) == s,
{
    if s.len() == 0 {
        let pad = front + back;
        assert(front + s + back =~= pad + s);
        assert forall|i: int| 0 <= i < pad.len() implies is_space(#[trigger] pad[i]) by {
            if i < front.len() {
                assert(pad[i] == front[i]);
            } else {
                assert(pad[i] == back[i - front.len()]);
            }
        }
        lemma_trim_front(pad, s);
        lemma_trim_back(s, Seq::empty());
        assert(s + Seq::<char>::empty() =~= s);
    } else {
        assert(front + s + back =~= front + (s + back));
        assert((s + back)[0] == s[0]);
        lemma_trim_front(front, s + back);
        lemma_trim_back(s, back);
    }
}

/// The first hyphen parts a text into what is before it and what is behind it; a text
/// without one is not parted.
pub proof fn law_first_hyphen_parts(first: Seq<char>, second: Seq<char>)
    requires
        !first.contains('-'),
    ensures
        split_hyphen(first + seq!['-'] + second) == Some((first, second)),
        split_hyphen(first) is None,
{
    let text = first + seq!['-'] + second;
    let n = first.len() as int;
    assert(is_first_hyphen(text, n)) by {
        assert forall|k: int| 0 <= k < n implies text[k] != '-' by {
            assert(first.contains(first[k]));
        }
    }
    lemma_split_hyphen(text, n);
    assert(text.take(n) =~= first);
    assert(text.skip(n + 1) =~= second);
}

} // verus!
