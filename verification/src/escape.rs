//! Quoting arbitrary text so that a POSIX shell reads it back as one
//! literal word.
//!
//! The whole text is wrapped in single quotes; a single quote inside it is
//! written by closing the quotes, writing a backslash-escaped quote, and
//! reopening them. A model of how the shell reads one word
//! ([`shell_word`]) makes the round trip provable: see
//! [`lemma_escape_round_trip`].

use vstd::prelude::*;
use vstd::string::StrSliceExecFns;
use vstd::string::StringExecFns;

verus! {

/// The four characters that stand for one single quote inside a quoted
/// run: close the quotes, a backslash-escaped quote, reopen the quotes.
pub open spec fn quote_replacement() -> Seq<char> {
    seq!['\'', '\\', '\'', '\'']
}

/// The escaped text between the outer quotes: every single quote replaced
/// by [`quote_replacement`], every other character kept as it is.
pub open spec fn escaped_body(s: Seq<char>) -> Seq<char>
    decreases s.len(),
{
    if s.len() == 0 {
        Seq::empty()
    } else if s[0] == '\'' {
        quote_replacement() + escaped_body(s.drop_first())
    } else {
        seq![s[0]] + escaped_body(s.drop_first())
    }
}

/// The full escaped form of a text: its escaped body wrapped in single
/// quotes.
pub open spec fn escape_seq(s: Seq<char>) -> Seq<char> {
    seq!['\''] + escaped_body(s) + seq!['\'']
}

/// Characters the shell treats specially when they stand outside quotes.
/// The set errs on the side of too many: a character listed here only
/// forces quoting, it takes nothing away from what quoting can carry.
pub open spec fn is_shell_special(c: char) -> bool {
    c == ' ' || c == '\t' || c == '\n' || c == '\r' || c == '|' || c == '&'
        || c == ';' || c == '(' || c == ')' || c == '<' || c == '>' || c == '$'
        || c == '`' || c == '"' || c == '*' || c == '?' || c == '[' || c == ']'
        || c == '#' || c == '~' || c == '=' || c == '%' || c == '{' || c == '}'
        || c == '!'
}

/// How a POSIX shell reads one word, as a two-state scan: outside quotes
/// (`quoted` false) a single quote opens a quoted run, a backslash makes
/// the next character literal, an ordinary character stands for itself and
/// a special one ends the word; inside quotes (`quoted` true) every
/// character up to the closing quote is literal. `Some(w)` means the whole
/// text is exactly one word whose literal value is `w`; `None` means it is
/// not one literal word (an unclosed quote, a trailing backslash, or an
/// unquoted special character).
pub open spec fn shell_word_at(t: Seq<char>, quoted: bool) -> Option<Seq<char>>
    decreases t.len(),
{
    if t.len() == 0 {
        if quoted {
            None
        } else {
            Some(Seq::empty())
        }
    } else if quoted {
        if t[0] == '\'' {
            shell_word_at(t.drop_first(), false)
        } else {
            match shell_word_at(t.drop_first(), true) {
                Some(w) => Some(seq![t[0]] + w),
                None => None,
            }
        }
    } else if t[0] == '\'' {
        shell_word_at(t.drop_first(), true)
    } else if t[0] == '\\' {
        if t.len() >= 2 {
            match shell_word_at(t.subrange(2, t.len() as int), false) {
                Some(w) => Some(seq![t[1]] + w),
                None => None,
            }
        } else {
            None
        }
    } else if !is_shell_special(t[0]) {
        match shell_word_at(t.drop_first(), false) {
            Some(w) => Some(seq![t[0]] + w),
            None => None,
        }
    } else {
        None
    }
}

/// The literal value the shell gives a whole text read as one word.
pub open spec fn shell_word(t: Seq<char>) -> Option<Seq<char>> {
    shell_word_at(t, false)
}

/// Splitting a text anywhere splits its escaped body at the same place.
pub proof fn lemma_escaped_body_concat(a: Seq<char>, b: Seq<char>)
    ensures
        escaped_body(a + b) == escaped_body(a) + escaped_body(b),
    decreases a.len(),
{
    if a.len() == 0 {
        assert(a + b =~= b);
        assert(escaped_body(a) + escaped_body(b) =~= escaped_body(b));
    } else {
        assert((a + b).drop_first() =~= a.drop_first() + b);
        assert((a + b)[0] == a[0]);
        lemma_escaped_body_concat(a.drop_first(), b);
        if a[0] == '\'' {
            assert(escaped_body(a + b) =~= quote_replacement() + (escaped_body(
                a.drop_first(),
            ) + escaped_body(b)));
            assert(escaped_body(a) + escaped_body(b) =~= quote_replacement() + (escaped_body(
                a.drop_first(),
            ) + escaped_body(b)));
        } else {
            assert(escaped_body(a + b) =~= seq![a[0]] + (escaped_body(a.drop_first())
                + escaped_body(b)));
            assert(escaped_body(a) + escaped_body(b) =~= seq![a[0]] + (escaped_body(a.drop_first())
                + escaped_body(b)));
        }
    }
}

/// Text without a single quote is its own escaped body.
pub proof fn lemma_escaped_body_no_quote(a: Seq<char>)
    requires
        forall|j: int| 0 <= j < a.len() ==> a[j] != '\'',
    ensures
        escaped_body(a) == a,
    decreases a.len(),
{
    if a.len() == 0 {
        assert(escaped_body(a) =~= a);
    } else {
        lemma_escaped_body_no_quote(a.drop_first());
        assert(escaped_body(a) =~= seq![a[0]] + a.drop_first());
        assert(seq![a[0]] + a.drop_first() =~= a);
    }
}

/// Wrap a text in single quotes for the shell, replacing each single quote
/// inside it by the close-escape-reopen sequence.
pub fn shell_escape(s: &str) -> (r: String)
    ensures
        r@ == escape_seq(s@),
{
    let n = s.unicode_len();
    let mut out = String::new();
    out.append("'");
    proof {
        reveal_strlit("'");
        assert(out@ =~= seq!['\'']);
    }
    let mut seg_start: usize = 0;
    let mut i: usize = 0;
    while i < n
        invariant
            seg_start <= i <= n,
            n == s@.len(),
            out@ == seq!['\''] + escaped_body(s@.subrange(0, seg_start as int)),
            forall|j: int| seg_start <= j < i ==> s@[j] != '\'',
        decreases n - i,
    {
        if s.get_char(i) == '\'' {
            let seg = s.substring_char(seg_start, i);
            out.append(seg);
            out.append("'\\''");
            proof {
                reveal_strlit("'\\''");
                let pre = s@.subrange(0, seg_start as int);
                let mid = s@.subrange(seg_start as int, i as int);
                lemma_escaped_body_no_quote(mid);
                lemma_escaped_body_concat(pre, mid);
                assert(s@.subrange(0, i as int) =~= pre + mid);
                lemma_escaped_body_concat(s@.subrange(0, i as int), seq![s@[i as int]]);
                assert(s@.subrange(0, i as int + 1) =~= s@.subrange(0, i as int) + seq![s@[i as int]]);
                let one = seq![s@[i as int]];
                assert(one[0] == '\'' && one.drop_first() =~= Seq::<char>::empty());
                assert(escaped_body(Seq::<char>::empty()) =~= Seq::<char>::empty());
                assert(escaped_body(one) =~= quote_replacement() + escaped_body(one.drop_first()));
                assert(escaped_body(one) =~= quote_replacement());
                assert("'\\''"@ =~= quote_replacement());
                assert(out@ =~= seq!['\''] + escaped_body(s@.subrange(0, i as int + 1)));
            }
            seg_start = i + 1;
        }
        i += 1;
    }
    let seg = s.substring_char(seg_start, n);
    out.append(seg);
    out.append("'");
    proof {
        reveal_strlit("'");
        let pre = s@.subrange(0, seg_start as int);
        let mid = s@.subrange(seg_start as int, n as int);
        lemma_escaped_body_no_quote(mid);
        lemma_escaped_body_concat(pre, mid);
        assert(s@.subrange(0, n as int) =~= pre + mid);
        assert(s@.subrange(0, n as int) =~= s@);
        assert(out@ =~= escape_seq(s@));
    }
    out
}

/// Reading an escaped body from inside quotes: whatever follows the body's
/// closing quote is read on from the unquoted state, and the body itself
/// contributes exactly the original text.
proof fn lemma_escape_inside(s: Seq<char>, rest: Seq<char>)
    ensures
        shell_word_at(escaped_body(s) + seq!['\''] + rest, true) == match shell_word_at(
            rest,
            false,
        ) {
            Some(w) => Some(s + w),
            None => None::<Seq<char>>,
        },
    decreases s.len(),
{
    let t = escaped_body(s) + seq!['\''] + rest;
    if s.len() == 0 {
        assert(t =~= seq!['\''] + rest);
        assert(t[0] == '\'');
        assert(t.drop_first() =~= rest);
        match shell_word_at(rest, false) {
            Some(w) => {
                assert(s + w =~= w);
            },
            None => {},
        }
    } else if s[0] == '\'' {
        lemma_escape_inside(s.drop_first(), rest);
        let t2 = escaped_body(s.drop_first()) + seq!['\''] + rest;
        assert(t =~= seq!['\'', '\\', '\'', '\''] + t2);
        assert(t[0] == '\'');
        let u = t.drop_first();
        assert(u =~= seq!['\\', '\'', '\''] + t2);
        assert(u[0] == '\\' && u.len() >= 2 && u[1] == '\'');
        let v = u.subrange(2, u.len() as int);
        assert(v =~= seq!['\''] + t2);
        assert(v[0] == '\'');
        assert(v.drop_first() =~= t2);
        match shell_word_at(rest, false) {
            Some(w) => {
                assert(shell_word_at(t2, true) == Some(s.drop_first() + w));
                assert(shell_word_at(v, false) == Some(s.drop_first() + w));
                assert(shell_word_at(u, false) == Some(seq!['\''] + (s.drop_first() + w)));
                assert(seq!['\''] + (s.drop_first() + w) =~= s + w);
            },
            None => {},
        }
    } else {
        lemma_escape_inside(s.drop_first(), rest);
        let t2 = escaped_body(s.drop_first()) + seq!['\''] + rest;
        assert(t =~= seq![s[0]] + t2);
        assert(t[0] == s[0] && t[0] != '\'');
        assert(t.drop_first() =~= t2);
        match shell_word_at(rest, false) {
            Some(w) => {
                assert(shell_word_at(t2, true) == Some(s.drop_first() + w));
                assert(seq![s[0]] + (s.drop_first() + w) =~= s + w);
            },
            None => {},
        }
    }
}

/// Round trip: for every text `s`, the shell reads `escape_seq(s)` as one
/// literal word whose value is exactly `s`.
pub proof fn lemma_escape_round_trip(s: Seq<char>)
    ensures
        shell_word(escape_seq(s)) == Some(s),
{
    lemma_escape_inside(s, Seq::empty());
    let t = escape_seq(s);
    assert(t[0] == '\'');
    assert(t.drop_first() =~= escaped_body(s) + seq!['\''] + Seq::<char>::empty());
    assert(shell_word_at(Seq::<char>::empty(), false) == Some(Seq::<char>::empty()));
    assert(s + Seq::<char>::empty() =~= s);
}

} // verus!
