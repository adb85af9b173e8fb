//! Shell command builder: quoting of single tokens, and the full launch
//! command for a detached agent process.
//!
//! Every path and argument is wrapped in single quotes, with embedded single
//! quotes written as `'\''`. The module also carries a specification of how
//! a POSIX shell reads words back — single quotes make every character
//! literal, a backslash outside quotes escapes one character, an unquoted
//! space ends the word — and proves that escaping round-trips through it.

use vstd::prelude::*;
use crate::strutil::push_char;
use vstd::string::StringExecFns;

verus! {

/// How one character of a token is written inside the outer single quotes.
pub open spec fn escaped_char(c: char) -> Seq<char> {
    if c == '\'' {
        seq!['\'', '\\', '\'', '\'']
    } else {
        seq![c]
    }
}

/// The token's characters, each escaped, without the outer quotes.
pub open spec fn escaped_body(s: Seq<char>) -> Seq<char>
    decreases s.len(),
{
    if s.len() == 0 {
        Seq::empty()
    } else {
        escaped_char(s[0]) + escaped_body(s.drop_first())
    }
}

/// A token as it stands in the built command: single-quoted, with embedded
/// single quotes written as `'\''`.
pub open spec fn shell_escaped(s: Seq<char>) -> Seq<char> {
    seq!['\''] + escaped_body(s) + seq!['\'']
}

proof fn lemma_escaped_body_append(s: Seq<char>, c: char)
    ensures
        escaped_body(s.push(c)) == escaped_body(s) + escaped_char(c),
    decreases s.len(),
{
    if s.len() == 0 {
        let p = s.push(c);
        assert(p[0] == c);
        assert(p.drop_first() =~= Seq::<char>::empty());
        assert(escaped_body(p.drop_first()) == Seq::<char>::empty());
        assert(escaped_body(p) == escaped_char(c) + Seq::<char>::empty());
        assert(escaped_char(c) + Seq::<char>::empty() =~= Seq::<char>::empty() + escaped_char(c));
        assert(escaped_body(s) == Seq::<char>::empty());
    } else {
        lemma_escaped_body_append(s.drop_first(), c);
        assert(s.push(c).drop_first() =~= s.drop_first().push(c));
        assert(s.push(c)[0] == s[0]);
        assert(escaped_body(s.push(c)) =~= escaped_body(s) + escaped_char(c));
    }
}

/// Escape a string for safe use in a shell command.
pub fn shell_escape(s: &str) -> (r: String)
    ensures
        r@ == shell_escaped(s@),
{
    let mut out = String::new();
    push_char(&mut out, '\'');
    let len = s.unicode_len();
    let mut i: usize = 0;
    while i < len
        invariant
            len == s@.len(),
            i <= len,
            out@ == seq!['\''] + escaped_body(s@.take(i as int)),
        decreases len - i,
    {
        let c = s.get_char(i);
        proof {
            lemma_escaped_body_append(s@.take(i as int), c);
            assert(s@.take(i + 1) =~= s@.take(i as int).push(s@[i as int]));
        }
        if c == '\'' {
            push_char(&mut out, '\'');
            push_char(&mut out, '\\');
            push_char(&mut out, '\'');
            push_char(&mut out, '\'');
        } else {
            push_char(&mut out, c);
        }
        proof {
            assert(out@ =~= seq!['\''] + escaped_body(s@.take(i + 1)));
        }
        i = i + 1;
    }
    proof {
        assert(s@.take(len as int) =~= s@);
    }
    push_char(&mut out, '\'');
    proof {
        assert(out@ =~= shell_escaped(s@));
    }
    out
}

/// One word as a POSIX shell reads it from the front of `t`: the word's
/// value and what follows the word. Outside quotes a backslash escapes the
/// next character and an unquoted space ends the word; `None` means the
/// shell would keep reading (unclosed quote, trailing backslash).
pub open spec fn shell_read_word(t: Seq<char>) -> Option<(Seq<char>, Seq<char>)>
    decreases t.len(), 0int,
{
    if t.len() == 0 {
        Some((Seq::empty(), Seq::empty()))
    } else if t[0] == ' ' {
        Some((Seq::empty(), t.drop_first()))
    } else if t[0] == '\'' {
        shell_read_quoted(t.drop_first())
    } else if t[0] == '\\' {
        if t.len() >= 2 {
            match shell_read_word(t.skip(2)) {
                Some(r) => Some((seq![t[1]] + r.0, r.1)),
                None => None,
            }
        } else {
            None
        }
    } else {
        match shell_read_word(t.drop_first()) {
            Some(r) => Some((seq![t[0]] + r.0, r.1)),
            None => None,
        }
    }
}

/// The rest of a word while inside single quotes: every character is
/// literal until the closing quote.
pub open spec fn shell_read_quoted(t: Seq<char>) -> Option<(Seq<char>, Seq<char>)>
    decreases t.len(), 1int,
{
    if t.len() == 0 {
        None
    } else if t[0] == '\'' {
        shell_read_word(t.drop_first())
    } else {
        match shell_read_quoted(t.drop_first()) {
            Some(r) => Some((seq![t[0]] + r.0, r.1)),
            None => None,
        }
    }
}

proof fn lemma_read_quoted_escaped(s: Seq<char>, tail: Seq<char>)
    ensures
        shell_read_quoted(escaped_body(s) + seq!['\''] + tail) == match shell_read_word(tail) {
            Some(r) => Some::<(Seq<char>, Seq<char>)>((s + r.0, r.1)),
            None => None::<(Seq<char>, Seq<char>)>,
        },
    decreases s.len(),
{
    if s.len() == 0 {
        let t = escaped_body(s) + seq!['\''] + tail;
        assert(t[0] == '\'');
        assert(t.drop_first() =~= tail);
        if shell_read_word(tail) is Some {
            let r = shell_read_word(tail)->Some_0;
            assert(s + r.0 =~= r.0);
            assert((s + r.0, r.1) =~= r);
        }
    } else if s[0] != '\'' {
        let t = escaped_body(s) + seq!['\''] + tail;
        assert(t[0] == s[0]);
        assert(t.drop_first() =~= escaped_body(s.drop_first()) + seq!['\''] + tail);
        lemma_read_quoted_escaped(s.drop_first(), tail);
        if shell_read_word(tail) is Some {
            let r = shell_read_word(tail)->Some_0;
            assert(seq![s[0]] + (s.drop_first() + r.0) =~= s + r.0);
            assert(shell_read_quoted(t) == Some((seq![t[0]] + (s.drop_first() + r.0), r.1)));
            assert((seq![t[0]] + (s.drop_first() + r.0), r.1) =~= (s + r.0, r.1));
        }
    } else {
        let t = escaped_body(s) + seq!['\''] + tail;
        let u = escaped_body(s.drop_first()) + seq!['\''] + tail;
        assert(escaped_char(s[0]) =~= seq!['\'', '\\', '\'', '\'']);
        assert(t =~= seq!['\'', '\\', '\'', '\''] + u);
        assert(t[0] == '\'');
        assert(t.drop_first() =~= seq!['\\', '\'', '\''] + u);
        let t1 = seq!['\\', '\'', '\''] + u;
        assert(t1[0] == '\\');
        assert(t1.len() >= 2);
        assert(t1[1] == '\'');
        assert(t1.skip(2) =~= seq!['\''] + u);
        let t2 = seq!['\''] + u;
        assert(t2[0] == '\'');
        assert(t2.drop_first() =~= u);
        lemma_read_quoted_escaped(s.drop_first(), tail);
        if shell_read_word(tail) is Some {
            let r = shell_read_word(tail)->Some_0;
            assert(shell_read_quoted(u) == Some((s.drop_first() + r.0, r.1)));
            assert(shell_read_word(t2) == Some((s.drop_first() + r.0, r.1)));
            assert(shell_read_word(t1) == Some((seq![t1[1]] + (s.drop_first() + r.0), r.1)));
            assert(seq![t1[1]] + (s.drop_first() + r.0) =~= s + r.0);
            assert((seq![t1[1]] + (s.drop_first() + r.0), r.1) =~= (s + r.0, r.1));
        }
    }
}

/// An escaped token followed by anything reads back as exactly the original
/// token, with the shell's cursor on what follows.
pub proof fn lemma_escaped_reads_back(s: Seq<char>, tail: Seq<char>)
    ensures
        shell_read_word(shell_escaped(s) + tail) == match shell_read_word(tail) {
            Some(r) => Some::<(Seq<char>, Seq<char>)>((s + r.0, r.1)),
            None => None::<(Seq<char>, Seq<char>)>,
        },
{
    let t = shell_escaped(s) + tail;
    assert(t[0] == '\'');
    assert(t.drop_first() =~= escaped_body(s) + seq!['\''] + tail);
    lemma_read_quoted_escaped(s, tail);
}

/// Round trip through the shell: an escaped token is read back as one whole
/// word, equal to the original string.
pub proof fn lemma_shell_escape_round_trip(s: Seq<char>)
    ensures
        shell_read_word(shell_escaped(s)) == Some((s, Seq::<char>::empty())),
{
    lemma_escaped_reads_back(s, Seq::empty());
    assert(shell_escaped(s) + Seq::<char>::empty() =~= shell_escaped(s));
    assert(s + Seq::<char>::empty() =~= s);
}

/// All the words a POSIX shell reads from `t`, when it can read them all.
pub open spec fn shell_read_words(t: Seq<char>) -> Option<Seq<Seq<char>>>
    decreases t.len(),
{
    if t.len() == 0 {
        Some(Seq::empty())
    } else {
        match shell_read_word(t) {
            Some(r) => if r.1.len() < t.len() {
                match shell_read_words(r.1) {
                    Some(ws) => Some(seq![r.0] + ws),
                    None => None,
                }
            } else {
                None
            },
            None => None,
        }
    }
}

/// The escaped tokens joined by single spaces, as they stand in a built
/// command.
pub open spec fn escaped_joined(args: Seq<Seq<char>>) -> Seq<char>
    decreases args.len(),
{
    if args.len() == 0 {
        Seq::empty()
    } else if args.len() == 1 {
        shell_escaped(args[0])
    } else {
        shell_escaped(args[0]) + seq![' '] + escaped_joined(args.drop_first())
    }
}

/// Safety of the argument vector: for any argument strings — spaces, quotes
/// and shell metacharacters included — the shell reads the joined escaped
/// form back as exactly the original strings.
pub proof fn lemma_escaped_joined_reads_back(args: Seq<Seq<char>>)
    requires
        args.len() > 0,
    ensures
        shell_read_words(escaped_joined(args)) == Some(args),
    decreases args.len(),
{
    if args.len() == 1 {
        lemma_shell_escape_round_trip(args[0]);
        let t = escaped_joined(args);
        assert(t.len() > 0) by {
            assert(shell_escaped(args[0]).len() >= 2);
        }
        let r = shell_read_word(t)->Some_0;
        assert(r.1.len() == 0);
        assert(r.1 =~= Seq::<char>::empty());
        assert(seq![args[0]] + Seq::<Seq<char>>::empty() =~= args);
    } else {
        let rest = escaped_joined(args.drop_first());
        let tail = seq![' '] + rest;
        lemma_escaped_reads_back(args[0], tail);
        assert(tail[0] == ' ');
        assert(tail.drop_first() =~= rest);
        let t = escaped_joined(args);
        assert(t =~= shell_escaped(args[0]) + tail);
        lemma_escaped_joined_reads_back(args.drop_first());
        assert(rest.len() > 0) by {
            assert(shell_escaped(args.drop_first()[0]).len() >= 2);
        }
        let r = shell_read_word(t)->Some_0;
        assert(r.0 =~= args[0]) by {
            assert(args[0] + Seq::<char>::empty() =~= args[0]);
        }
        assert(r.1 =~= rest);
        assert(r.1.len() < t.len()) by {
            assert(shell_escaped(args[0]).len() >= 2);
        }
        assert(seq![args[0]] + args.drop_first() =~= args);
    }
}

} // verus!
