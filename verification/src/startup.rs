//! The command line of the server, and a replica's first words to its master.

use crate::store::texts;
use crate::strings::{byte_bulk_wire, push_byte_bulk};
use crate::text::{
    chars_of, is_space, parse_usize, same_text, to_usize, trim, trim_start, trimmed,
};
use vstd::prelude::*;
use vstd::string::*;

verus! {

// ---------------------------------------------------------------------------
// The command line
// ---------------------------------------------------------------------------

/// What the command line asks for.
#[derive(Debug)]
pub struct Options {
    pub port: String,
    pub is_replica: bool,
    /// The host and the port of the master.
    pub master: Option<(String, String)>,
}

/// What an [`Options`] holds.
pub struct OptionsView {
    pub port: Seq<char>,
    pub is_replica: bool,
    pub master: Option<(Seq<char>, Seq<char>)>,
}

impl View for Options {
    type V = OptionsView;

    open spec fn view(&self) -> OptionsView {
        OptionsView {
            port: self.port@,
            is_replica: self.is_replica,
            master: match self.master {
                Some(m) => Some((m.0@, m.1@)),
                None => None,
            },
        }
    }
}

/// The length of the word that a text starts with.
pub open spec fn word_len(s: Seq<char>) -> nat
    decreases s.len(),
{
    if s.len() == 0 || is_space(s[0]) {
        0
    } else {
        1 + word_len(s.skip(1))
    }
}

pub(crate) proof fn lemma_word_len(s: Seq<char>)
    ensures
        word_len(s) <= s.len(),
    decreases s.len(),
{
    if s.len() > 0 && !is_space(s[0]) {
        lemma_word_len(s.skip(1));
    }
}

proof fn lemma_trim_start(s: Seq<char>)
    ensures
        trim_start(s).len() <= s.len(),
        trim_start(s).len() > 0 ==> !is_space(trim_start(s)[0]),
    decreases s.len(),
{
    if s.len() > 0 && is_space(s[0]) {
        lemma_trim_start(s.skip(1));
    }
}

/// The words of a text: what stands between white space.
pub open spec fn words(s: Seq<char>) -> Seq<Seq<char>>
    decreases s.len(),
    via words_decreases
{
    let t = trim_start(s);
    let n = word_len(t) as int;
    if t.len() == 0 {
        Seq::empty()
    } else {
        seq![t.take(n)] + words(t.skip(n))
    }
}

#[via_fn]
proof fn words_decreases(s: Seq<char>) {
    lemma_trim_start(s);
    let t = trim_start(s);
    if t.len() > 0 {
        lemma_word_len(t);
        lemma_word_len(t.skip(1));
    }
}

/// Splits a string into its words.
pub fn split_words(s: &str) -> (r: Vec<String>)
    ensures
        texts(r@) == words(s@),
{
    let chars = chars_of(s);
    let n = chars.len();
    let mut out: Vec<String> = Vec::new();
    let mut i: usize = 0;
    proof {
        assert(s@.skip(0) =~= s@);
        assert(texts(out@) + words(s@) =~= words(s@));
    }
    while i < n
        invariant
            i <= n,
            n == chars.len(),
            chars@ == s@,
            texts(out@) + words(s@.skip(i as int)) == words(s@),
        decreases n - i,
    {
        let ghost here = s@.skip(i as int);
        if chars[i].is_whitespace() {
            proof {
                assert(here.skip(1) =~= s@.skip(i + 1));
                assert(trim_start(here) == trim_start(here.skip(1)));
                assert(words(here) == words(here.skip(1)));
            }
            i += 1;
        } else {
            let mut j: usize = i;
            while j < n && !chars[j].is_whitespace()
                invariant
                    i <= j <= n,
                    n == chars.len(),
                    chars@ == s@,
                    here == s@.skip(i as int),
                    word_len(here) == j - i + word_len(s@.skip(j as int)),
                decreases n - j,
            {
                proof {
                    assert(s@.skip(j as int).skip(1) =~= s@.skip(j + 1));
                }
                j += 1;
            }
            let word = s.substring_char(i, j).to_string();
            let ghost before = texts(out@);
            out.push(word);
            proof {
                assert(word_len(s@.skip(j as int)) == 0);
                assert(trim_start(here) == here);
                assert(here.take(j - i) =~= s@.subrange(i as int, j as int));
                assert(here.skip(j - i) =~= s@.skip(j as int));
                assert(texts(out@) =~= before.push(word@));
                assert(words(here) == seq![word@] + words(s@.skip(j as int)));
                assert(before + (seq![word@] + words(s@.skip(j as int))) =~= texts(out@) + words(
                    s@.skip(j as int),
                ));
                lemma_word_len(here.skip(1));
            }
            i = j;
        }
    }
    proof {
        assert(s@.skip(n as int) =~= Seq::<char>::empty());
        assert(words(s@.skip(n as int)) =~= Seq::<Seq<char>>::empty());
        assert(texts(out@) + words(s@.skip(n as int)) =~= texts(out@));
    }
    out
}

/// The host and the port that the argument of `--replicaof` gives: two words.
pub open spec fn master_of(arg: Seq<char>, before: Option<(Seq<char>, Seq<char>)>) -> Option<
    (Seq<char>, Seq<char>),
> {
    if words(arg).len() == 2 {
        Some((words(arg)[0], words(arg)[1]))
    } else {
        before
    }
}

/// What the command line asks for from a place on, given what it has asked for
/// before.
pub open spec fn options_from(args: Seq<Seq<char>>, i: int, o: OptionsView) -> OptionsView
    decreases args.len() - i,
{
    if i < 0 || i >= args.len() {
        o
    } else if args[i] == "--port"@ && i + 1 < args.len() {
        options_from(args, i + 2, OptionsView { port: args[i + 1], ..o })
    } else if args[i] == "--replicaof"@ && i + 1 < args.len() {
        options_from(
            args,
            i + 2,
            OptionsView { is_replica: true, master: master_of(args[i + 1], o.master), ..o },
        )
    } else {
        options_from(args, i + 1, o)
    }
}

/// What a command line asks for. Its first word is the name of the program; what
/// is not known is passed over.
pub open spec fn options_of(args: Seq<Seq<char>>) -> OptionsView {
    options_from(args, 1, OptionsView { port: "6379"@, is_replica: false, master: None })
}

/// Reads the command line.
pub fn parse_options(args: &Vec<String>) -> (r: Options)
    ensures
        r@ == options_of(texts(args@)),
{
    let mut o = Options { port: "6379".to_string(), is_replica: false, master: None };
    let n = args.len();
    let ghost all = texts(args@);
    let mut i: usize = 1;
    while i < n
        invariant
            1 <= i,
            n == args.len(),
            all == texts(args@),
            options_from(all, i as int, o@) == options_of(all),
        decreases n - i,
    {
        if same_text(args[i].as_str(), "--port") && i + 1 < n {
            o.port = args[i + 1].clone();
            i += 2;
        } else if same_text(args[i].as_str(), "--replicaof") && i + 1 < n {
            o.is_replica = true;
            let mut parts = split_words(args[i + 1].as_str());
            if parts.len() == 2 {
                let ghost two = texts(parts@);
                let port = parts.remove(1);
                let host = parts.remove(0);
                proof {
                    assert(two[0] == host@ && two[1] == port@);
                }
                o.master = Some((host, port));
            }
            i += 2;
        } else {
            i += 1;
        }
    }
    o
}

// ---------------------------------------------------------------------------
// The handshake
// ---------------------------------------------------------------------------

/// What a replica that listens on a port says to its master, in this order, with
/// a line of answer after each: that it is there, where it listens, what it can
/// do, and that it wants a full copy.
pub open spec fn handshake_messages(port: Seq<char>) -> Seq<Seq<char>> {
    seq![
        "*1\r\n$4\r\nPING\r\n"@,
        "*3\r\n$8\r\nREPLCONF\r\n$14\r\nlistening-port\r\n"@ + byte_bulk_wire(port),
        "*3\r\n$8\r\nREPLCONF\r\n$4\r\ncapa\r\n$6\r\npsync2\r\n"@,
        "*3\r\n$5\r\nPSYNC\r\n$1\r\n?\r\n$2\r\n-1\r\n"@,
    ]
}

/// What a replica that listens on a port says to its master.
pub fn handshake(port: &str) -> (r: Vec<String>)
    ensures
        texts(r@) == handshake_messages(port@),
{
    let mut listening = "*3\r\n$8\r\nREPLCONF\r\n$14\r\nlistening-port\r\n".to_string();
    push_byte_bulk(&mut listening, port);
    let r = vec![
        "*1\r\n$4\r\nPING\r\n".to_string(),
        listening,
        "*3\r\n$8\r\nREPLCONF\r\n$4\r\ncapa\r\n$6\r\npsync2\r\n".to_string(),
        "*3\r\n$5\r\nPSYNC\r\n$1\r\n?\r\n$2\r\n-1\r\n".to_string(),
    ];
    proof {
        assert(texts(r@) =~= handshake_messages(port@));
    }
    r
}

/// The text without the dollar signs at its start.
pub open spec fn strip_dollars(s: Seq<char>) -> Seq<char>
    decreases s.len(),
{
    if s.len() > 0 && s[0] == '$' {
        strip_dollars(s.skip(1))
    } else {
        s
    }
}

/// The size of the database file that a master's line announces.
pub open spec fn announced_size(line: Seq<char>) -> Option<usize> {
    if line.len() > 0 && line[0] == '$' {
        to_usize(trim(strip_dollars(line)))
    } else {
        None
    }
}

/// The size of the database file that a master's line announces.
pub fn read_rdb_size(line: &str) -> (r: Option<usize>)
    ensures
        r == announced_size(line@),
{
    let chars = chars_of(line);
    let n = chars.len();
    if n == 0 || chars[0] != '$' {
        return None;
    }
    let mut i: usize = 0;
    proof {
        assert(line@.skip(0) =~= line@);
    }
    while i < n && chars[i] == '$'
        invariant
            i <= n,
            n == chars.len(),
            chars@ == line@,
            strip_dollars(line@.skip(i as int)) == strip_dollars(line@),
        decreases n - i,
    {
        proof {
            assert(line@.skip(i as int).skip(1) =~= line@.skip(i + 1));
        }
        i += 1;
    }
    let rest = line.substring_char(i, n);
    proof {
        assert(rest@ =~= line@.skip(i as int));
    }
    parse_usize(trimmed(rest))
}

} // verus!
