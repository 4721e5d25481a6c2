//! What a command line asks for, stated of how it is put together.

use crate::startup::{
    announced_size, lemma_word_len, options_from, options_of, strip_dollars,
    word_len, words, OptionsView,
};
use crate::text::{is_space, to_usize, trim, trim_start};
use vstd::prelude::*;

verus! {

// ---------------------------------------------------------------------------
// Words
// ---------------------------------------------------------------------------

proof fn lemma_word_stops(a: Seq<char>, space: char, b: Seq<char>)
    requires
        is_space(space),
    ensures
        word_len(a + seq![space] + b) == word_len(a),
    decreases a.len(),
{
    let all = a + seq![space] + b;
    if a.len() == 0 {
        assert(all[0] == space);
    } else {
        assert(all[0] == a[0]);
        assert(all.skip(1) =~= a.skip(1) + seq![space] + b);
        lemma_word_stops(a.skip(1), space, b);
    }
}

proof fn lemma_skip_space(s: Seq<char>)
    requires
        s.len() > 0,
        is_space(s[0]),
    ensures
        words(s) == words(s.skip(1)),
{
    assert(trim_start(s) == trim_start(s.skip(1)));
}

/// The words of two texts with white space between them are the words of the first and
/// then those of the second.
pub proof fn law_white_space_parts_words(a: Seq<char>, space: char, b: Seq<char>)
    requires
        is_space(space),
    ensures
        words(a + seq![space] + b) == words(a) + words(b),
    decreases a.len(),
{
    let all = a + seq![space] + b;
    if a.len() == 0 {
        assert(all.skip(1) =~= b);
        assert(all[0] == space);
        lemma_skip_space(all);
        assert(words(a) =~= Seq::<Seq<char>>::empty());
        assert(words(a) + words(b) =~= words(b));
    } else if is_space(a[0]) {
        assert(all[0] == a[0]);
        assert(all.skip(1) =~= a.skip(1) + seq![space] + b);
        lemma_skip_space(all);
        lemma_skip_space(a);
        law_white_space_parts_words(a.skip(1), space, b);
    } else {
        assert(all[0] == a[0]);
        let n = word_len(a) as int;
        lemma_word_len(a);
        lemma_word_stops(a, space, b);
        assert(n > 0);
        assert(trim_start(a) == a && trim_start(all) == all);
        assert(all.take(n) =~= a.take(n));
        assert(all.skip(n) =~= a.skip(n) + seq![space] + b);
        law_white_space_parts_words(a.skip(n), space, b);
        assert(words(all) =~= seq![a.take(n)] + (words(a.skip(n)) + words(b)));
        assert(words(a) =~= seq![a.take(n)] + words(a.skip(n)));
        assert(words(all) =~= words(a) + words(b));
    }
}

/// A text without white space is one word, and no text is none.
pub proof fn law_one_word(s: Seq<char>)
    requires
        forall|i: int| 0 <= i < s.len() ==> !is_space(#[trigger] s[i]),
    ensures
        s.len() > 0 ==> words(s) == seq![s],
        s.len() == 0 ==> words(s).len() == 0,
{
    if s.len() > 0 {
        lemma_whole_word(s);
        assert(!is_space(s[0]));
        assert(trim_start(s) == s);
        assert(s.take(s.len() as int) =~= s);
        let none = s.skip(s.len() as int);
        assert(none =~= Seq::<char>::empty());
        assert(words(none) =~= Seq::<Seq<char>>::empty());
        assert(words(s) =~= seq![s]);
    }
}

proof fn lemma_whole_word(s: Seq<char>)
    requires
        forall|i: int| 0 <= i < s.len() ==> !is_space(#[trigger] s[i]),
    ensures
        word_len(s) == s.len(),
    decreases s.len(),
{
    if s.len() > 0 {
        let rest = s.skip(1);
        assert(!is_space(s[0]));
        assert forall|i: int| 0 <= i < rest.len() implies !is_space(#[trigger] rest[i]) by {
            assert(rest[i] == s[i + 1]);
        }
        lemma_whole_word(rest);
    }
}

// ---------------------------------------------------------------------------
// Options
// ---------------------------------------------------------------------------

/// A part of a command line.
pub enum Part {
    Port(Seq<char>),
    ReplicaOf(Seq<char>),
    /// A word that is neither of the two options.
    Other(Seq<char>),
}

/// The words of a part.
pub open spec fn part_words(p: Part) -> Seq<Seq<char>> {
    match p {
        Part::Port(v) => seq!["--port"@, v],
        Part::ReplicaOf(v) => seq!["--replicaof"@, v],
        Part::Other(w) => seq![w],
    }
}

/// The words of a row of parts.
pub open spec fn line_of(parts: Seq<Part>) -> Seq<Seq<char>>
    decreases parts.len(),
{
    if parts.len() == 0 {
        Seq::empty()
    } else {
        line_of(parts.drop_last()) + part_words(parts.last())
    }
}

/// Whether a part is one: another word is neither of the options.
pub open spec fn is_part(p: Part) -> bool {
    p matches Part::Other(w) ==> w != "--port"@ && w != "--replicaof"@
}

/// Whether the argument of `--replicaof` names a master: two words.
pub open spec fn names_master(p: Part) -> bool {
    p matches Part::ReplicaOf(v) && words(v).len() == 2
}

/// Whether options are what a row of parts asks for: the last port that is given, a
/// replica where `--replicaof` stands anywhere, and the last master that is named.
pub open spec fn asked_for(parts: Seq<Part>, o: OptionsView) -> bool {
    &&& forall|n: int|
        0 <= n < parts.len() && (#[trigger] parts[n]) is Port && (forall|m: int|
            n < m < parts.len() ==> !((#[trigger] parts[m]) is Port)) ==> o.port
            == parts[n]->Port_0
    &&& (forall|n: int| 0 <= n < parts.len() ==> !((#[trigger] parts[n]) is Port)) ==> o.port
        == "6379"@
    &&& o.is_replica <==> exists|n: int|
        0 <= n < parts.len() && (#[trigger] parts[n]) is ReplicaOf
    &&& forall|n: int|
        0 <= n < parts.len() && names_master(#[trigger] parts[n]) && (forall|m: int|
            n < m < parts.len() ==> !names_master(#[trigger] parts[m])) ==> o.master == Some(
            (words(parts[n]->ReplicaOf_0)[0], words(parts[n]->ReplicaOf_0)[1]),
        )
    &&& (forall|n: int| 0 <= n < parts.len() ==> !names_master(#[trigger] parts[n])) ==> o.master
        is None
}

proof fn lemma_literals()
    ensures
        "--port"@ != "--replicaof"@,
{
    reveal_strlit("--port");
    reveal_strlit("--replicaof");
    assert("--port"@.len() != "--replicaof"@.len());
}

/// The options after one more part.
spec fn with_part(o: OptionsView, p: Part) -> OptionsView {
    match p {
        Part::Port(v) => OptionsView { port: v, ..o },
        Part::ReplicaOf(v) => OptionsView {
            is_replica: true,
            master: if words(v).len() == 2 {
                Some((words(v)[0], words(v)[1]))
            } else {
                o.master
            },
            ..o
        },
        Part::Other(w) => o,
    }
}

/// Whether the words of a part stand at a place of a command line.
spec fn stands_at(args: Seq<Seq<char>>, p: Part, at: int) -> bool {
    &&& 0 <= at
    &&& at + part_words(p).len() <= args.len()
    &&& forall|i: int| 0 <= i < part_words(p).len() ==> args[at + i] == #[trigger] part_words(p)[i]
}

proof fn lemma_part(args: Seq<Seq<char>>, p: Part, at: int, o: OptionsView)
    requires
        is_part(p),
        stands_at(args, p, at),
    ensures
        options_from(args, at, o) == options_from(args, at + part_words(p).len(), with_part(o, p)),
{
    lemma_literals();
    assert(args[at + 0] == part_words(p)[0]);
    if !(p is Other) {
        assert(args[at + 1] == part_words(p)[1]);
    }
}

proof fn lemma_slice(args: Seq<Seq<char>>, parts: Seq<Part>, at: int)
    requires
        parts.len() > 0,
        at == 1 + line_of(parts).len(),
        at <= args.len(),
        args.subrange(1, at) == line_of(parts),
    ensures
        ({
            let before = at - part_words(parts.last()).len();
            &&& before == 1 + line_of(parts.drop_last()).len()
            &&& args.subrange(1, before) == line_of(parts.drop_last())
            &&& stands_at(args, parts.last(), before)
        }),
{
    let front = parts.drop_last();
    let last = parts.last();
    let before = at - part_words(last).len();
    assert(line_of(parts).take(before - 1) =~= line_of(front));
    assert(args.subrange(1, at).take(before - 1) =~= args.subrange(1, before));
    assert forall|i: int| 0 <= i < part_words(last).len() implies args[before + i]
        == #[trigger] part_words(last)[i] by {
        assert(line_of(parts)[before - 1 + i] == part_words(last)[i]);
        assert(args.subrange(1, at)[before - 1 + i] == args[before + i]);
    }
}

spec fn folded(parts: Seq<Part>) -> OptionsView
    decreases parts.len(),
{
    if parts.len() == 0 {
        OptionsView { port: "6379"@, is_replica: false, master: None }
    } else {
        with_part(folded(parts.drop_last()), parts.last())
    }
}

proof fn lemma_options(args: Seq<Seq<char>>, parts: Seq<Part>, at: int)
    requires
        at == 1 + line_of(parts).len(),
        at <= args.len(),
        args.subrange(1, at) == line_of(parts),
        forall|i: int| 0 <= i < parts.len() ==> is_part(#[trigger] parts[i]),
    ensures
        options_of(args) == options_from(args, at, folded(parts)),
    decreases parts.len(),
{
    if parts.len() > 0 {
        let front = parts.drop_last();
        let last = parts.last();
        lemma_slice(args, parts, at);
        assert forall|i: int| 0 <= i < front.len() implies is_part(#[trigger] front[i]) by {
            assert(front[i] == parts[i]);
        }
        assert(is_part(parts[parts.len() - 1]));
        let before = at - part_words(last).len();
        lemma_options(args, front, before);
        lemma_part(args, last, before, folded(front));
    }
}

proof fn lemma_folded(parts: Seq<Part>)
    ensures
        asked_for(parts, folded(parts)),
    decreases parts.len(),
{
    if parts.len() > 0 {
        let front = parts.drop_last();
        lemma_folded(front);
        lemma_one_more(front, parts.last(), folded(front), folded(parts));
        assert(front.push(parts.last()) =~= parts);
    }
}

proof fn lemma_one_more(front: Seq<Part>, last: Part, o: OptionsView, next: OptionsView)
    requires
        asked_for(front, o),
        next.port == (if last is Port {
            last->Port_0
        } else {
            o.port
        }),
        next.is_replica == (o.is_replica || last is ReplicaOf),
        next.master == (if names_master(last) {
            Some((words(last->ReplicaOf_0)[0], words(last->ReplicaOf_0)[1]))
        } else {
            o.master
        }),
    ensures
        asked_for(front.push(last), next),
{
    let parts = front.push(last);
    let k = front.len() as int;
    assert(parts[k] == last);
    assert forall|n: int|
        0 <= n < parts.len() && (#[trigger] parts[n]) is Port && (forall|m: int|
            n < m < parts.len() ==> !((#[trigger] parts[m]) is Port)) implies next.port
        == parts[n]->Port_0 by {
        if n < k {
            assert(!(parts[k] is Port));
            assert(front[n] == parts[n]);
            assert forall|m: int| n < m < front.len() implies !((#[trigger] front[m]) is Port) by {
                assert(front[m] == parts[m]);
            }
        }
    }
    if forall|n: int| 0 <= n < parts.len() ==> !((#[trigger] parts[n]) is Port) {
        assert(!(parts[k] is Port));
        assert forall|n: int| 0 <= n < front.len() implies !((#[trigger] front[n]) is Port) by {
            assert(front[n] == parts[n]);
        }
    }
    if o.is_replica {
        let n = choose|n: int| 0 <= n < front.len() && (#[trigger] front[n]) is ReplicaOf;
        assert(parts[n] is ReplicaOf);
    }
    if exists|n: int| 0 <= n < parts.len() && (#[trigger] parts[n]) is ReplicaOf {
        let n = choose|n: int| 0 <= n < parts.len() && (#[trigger] parts[n]) is ReplicaOf;
        if n < k {
            assert(front[n] is ReplicaOf);
        }
    }
    assert forall|n: int|
        0 <= n < parts.len() && names_master(#[trigger] parts[n]) && (forall|m: int|
            n < m < parts.len() ==> !names_master(#[trigger] parts[m])) implies next.master == Some(
        (words(parts[n]->ReplicaOf_0)[0], words(parts[n]->ReplicaOf_0)[1]),
    ) by {
        if n < k {
            assert(!names_master(parts[k]));
            assert(front[n] == parts[n]);
            assert forall|m: int| n < m < front.len() implies !names_master(#[trigger] front[m]) by {
                assert(front[m] == parts[m]);
            }
        }
    }
    if forall|n: int| 0 <= n < parts.len() ==> !names_master(#[trigger] parts[n]) {
        assert(!names_master(parts[k]));
        assert forall|n: int| 0 <= n < front.len() implies !names_master(#[trigger] front[n]) by {
            assert(front[n] == parts[n]);
        }
    }
}

/// A command line asks for the last port that it gives, `6379` where it gives none; for
/// a replica where `--replicaof` stands anywhere; and for the last master that is named
/// in two words. Other words do not count, and neither does the name of the program or
/// an option without an argument at the end.
pub proof fn law_command_line(program: Seq<char>, parts: Seq<Part>)
    requires
        forall|i: int| 0 <= i < parts.len() ==> is_part(#[trigger] parts[i]),
    ensures
        asked_for(parts, options_of(seq![program] + line_of(parts))),
        options_of(seq![program] + line_of(parts) + seq!["--port"@]) == options_of(
            seq![program] + line_of(parts),
        ),
        options_of(seq![program] + line_of(parts) + seq!["--replicaof"@]) == options_of(
            seq![program] + line_of(parts),
        ),
{
    let args = seq![program] + line_of(parts);
    let n = args.len() as int;
    assert(args.subrange(1, n) =~= line_of(parts));
    lemma_options(args, parts, n);
    lemma_folded(parts);
    lemma_dangling(args, parts, "--port"@);
    lemma_dangling(args, parts, "--replicaof"@);
}

proof fn lemma_dangling(args: Seq<Seq<char>>, parts: Seq<Part>, word: Seq<char>)
    requires
        args.len() == 1 + line_of(parts).len(),
        args.subrange(1, args.len() as int) == line_of(parts),
        forall|i: int| 0 <= i < parts.len() ==> is_part(#[trigger] parts[i]),
    ensures
        options_of(args + seq![word]) == folded(parts),
{
    let more = args + seq![word];
    let n = args.len() as int;
    assert(more.subrange(1, n) =~= args.subrange(1, n));
    lemma_options(more, parts, n);
    assert(options_from(more, n + 1, folded(parts)) == folded(parts));
    assert(options_from(more, n, folded(parts)) == options_from(more, n + 1, folded(parts)));
}

// ---------------------------------------------------------------------------
// The size of a database file
// ---------------------------------------------------------------------------

/// A line announces the number that stands, with white space around it or none, behind
/// the dollar signs at its start; a line that does not start with one announces nothing.
pub proof fn law_announced_size(dollars: Seq<char>, rest: Seq<char>)
    requires
        forall|i: int| 0 <= i < dollars.len() ==> #[trigger] dollars[i] == '$',
        rest.len() > 0 ==> rest[0] != '$',
    ensures
        dollars.len() > 0 ==> announced_size(dollars + rest) == to_usize(trim(rest)),
        announced_size(rest) is None,
{
    lemma_strip(dollars, rest);
    if dollars.len() > 0 {
        assert((dollars + rest)[0] == dollars[0]);
    }
}

proof fn lemma_strip(dollars: Seq<char>, rest: Seq<char>)
    requires
        forall|i: int| 0 <= i < dollars.len() ==> #[trigger] dollars[i] == '$',
        rest.len() > 0 ==> rest[0] != '$',
    ensures
        strip_dollars(dollars + rest) == rest,
    decreases dollars.len(),
{
    let all = dollars + rest;
    if dollars.len() == 0 {
        assert(all =~= rest);
    } else {
        let fewer = dollars.skip(1);
        assert(all[0] == dollars[0]);
        assert(all.skip(1) =~= fewer + rest);
        assert forall|i: int| 0 <= i < fewer.len() implies #[trigger] fewer[i] == '$' by {
            assert(fewer[i] == dollars[i + 1]);
        }
        lemma_strip(fewer, rest);
    }
}

} // verus!
