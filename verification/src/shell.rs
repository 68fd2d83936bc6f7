//! Quoting for the command lines that verbose mode displays.
use vstd::prelude::*;
use crate::text::push_char;

verus! {

/// The characters that a POSIX shell reads literally outside quotes.
pub open spec fn is_safe_char(c: char) -> bool {
    ||| 'a' <= c <= 'z'
    ||| 'A' <= c <= 'Z'
    ||| '0' <= c <= '9'
    ||| c == '-' || c == '_' || c == '.' || c == '/' || c == '=' || c == ':'
    ||| c == ',' || c == '@' || c == '%' || c == '+'
}

pub open spec fn all_safe(s: Seq<char>) -> bool {
    forall|i: int| 0 <= i < s.len() ==> is_safe_char(#[trigger] s[i])
}

/// How one character is written inside single quotes: a quote closes the
/// quoting, is written escaped, and reopens it.
pub open spec fn escaped_char(c: char) -> Seq<char> {
    if c == '\'' {
        seq!['\'', '\\', '\'', '\'']
    } else {
        seq![c]
    }
}

pub open spec fn escaped(s: Seq<char>) -> Seq<char>
    decreases s.len(),
{
    if s.len() == 0 {
        Seq::<char>::empty()
    } else {
        escaped_char(s[0]) + escaped(s.drop_first())
    }
}

/// A bare word when every character is safe, else the text in single
/// quotes with embedded quotes written `'\''`.
pub open spec fn shell_quote_spec(s: Seq<char>) -> Seq<char> {
    if s.len() > 0 && all_safe(s) {
        s
    } else {
        seq!['\''] + escaped(s) + seq!['\'']
    }
}

/// How a POSIX shell reads `q` as one word: bare safe characters,
/// backslash escapes and single-quoted runs, concatenated; `None` when `q`
/// is not one complete word. `quoted` tells whether reading starts inside
/// single quotes.
pub open spec fn shell_word(q: Seq<char>, quoted: bool) -> Option<Seq<char>>
    decreases q.len(),
{
    if q.len() == 0 {
        if quoted {
            None
        } else {
            Some(Seq::<char>::empty())
        }
    } else if quoted {
        if q[0] == '\'' {
            shell_word(q.drop_first(), false)
        } else {
            match shell_word(q.drop_first(), true) {
                Some(r) => Some(seq![q[0]] + r),
                None => None,
            }
        }
    } else if q[0] == '\'' {
        shell_word(q.drop_first(), true)
    } else if q[0] == '\\' {
        if q.len() >= 2 {
            match shell_word(q.subrange(2, q.len() as int), false) {
                Some(r) => Some(seq![q[1]] + r),
                None => None,
            }
        } else {
            None
        }
    } else if is_safe_char(q[0]) {
        match shell_word(q.drop_first(), false) {
            Some(r) => Some(seq![q[0]] + r),
            None => None,
        }
    } else {
        None
    }
}

proof fn lemma_escaped_append(a: Seq<char>, b: Seq<char>)
    ensures
        escaped(a + b) == escaped(a) + escaped(b),
    decreases a.len(),
{
    if a.len() == 0 {
        assert(a + b =~= b);
        assert(escaped(a) =~= Seq::<char>::empty());
        assert(Seq::<char>::empty() + escaped(b) =~= escaped(b));
    } else {
        lemma_escaped_append(a.drop_first(), b);
        assert((a + b).drop_first() =~= a.drop_first() + b);
        assert((a + b)[0] == a[0]);
        assert(escaped_char(a[0]) + (escaped(a.drop_first()) + escaped(b)) =~= (escaped_char(a[0])
            + escaped(a.drop_first())) + escaped(b));
    }
}

proof fn lemma_safe_word(s: Seq<char>, t: Seq<char>)
    requires
        all_safe(s),
    ensures
        shell_word(s + t, false) == match shell_word(t, false) {
            Some(r) => Some(s + r),
            None => None,
        },
    decreases s.len(),
{
    if s.len() == 0 {
        assert(s + t =~= t);
        match shell_word(t, false) {
            Some(r) => assert(s + r =~= r),
            None => {},
        }
    } else {
        let q = s + t;
        assert(q[0] == s[0]);
        assert(is_safe_char(s[0]));
        assert(q.drop_first() =~= s.drop_first() + t);
        assert(all_safe(s.drop_first())) by {
            assert forall|i: int| 0 <= i < s.drop_first().len() implies is_safe_char(#[trigger] s.drop_first()[i]) by {
                assert(s.drop_first()[i] == s[i + 1]);
            }
        }
        lemma_safe_word(s.drop_first(), t);
        match shell_word(t, false) {
            Some(r) => assert(seq![s[0]] + (s.drop_first() + r) =~= s + r),
            None => {},
        }
    }
}

proof fn lemma_quoted_word(s: Seq<char>, t: Seq<char>)
    ensures
        shell_word(escaped(s) + t, true) == match shell_word(t, true) {
            Some(r) => Some(s + r),
            None => None,
        },
    decreases s.len(),
{
    if s.len() == 0 {
        assert(escaped(s) + t =~= t);
        match shell_word(t, true) {
            Some(r) => assert(s + r =~= r),
            None => {},
        }
    } else {
        let c = s[0];
        let rest = s.drop_first();
        lemma_quoted_word(rest, t);
        let q = escaped(s) + t;
        assert(q =~= escaped_char(c) + (escaped(rest) + t));
        let tail = escaped(rest) + t;
        if c == '\'' {
            let q2 = q.drop_first();
            let q3 = seq!['\''] + tail;
            assert(q[0] == '\'');
            assert(q2 =~= seq!['\\', '\'', '\''] + tail);
            assert(q2[0] == '\\' && q2[1] == '\'');
            assert(q2.subrange(2, q2.len() as int) =~= q3);
            assert(q3[0] == '\'');
            assert(q3.drop_first() =~= tail);
            assert(shell_word(q3, false) == shell_word(tail, true));
            assert(shell_word(q2, false) == match shell_word(q3, false) {
                Some(r) => Some(seq!['\''] + r),
                None => None,
            });
            assert(shell_word(q, true) == shell_word(q2, false));
        } else {
            assert(q[0] == c);
            assert(q.drop_first() =~= tail);
            assert(shell_word(q, true) == match shell_word(tail, true) {
                Some(r) => Some(seq![c] + r),
                None => None,
            });
        }
        match shell_word(t, true) {
            Some(r) => assert(seq![c] + (rest + r) =~= s + r),
            None => {},
        }
    }
}

/// Minimal POSIX shell quoting for displaying a command line: a simple
/// word stays bare, anything else is single-quoted with embedded quotes
/// escaped.
pub fn shell_quote(s: &str) -> (r: String)
    ensures
        r@ == shell_quote_spec(s@),
{
    let n = s.unicode_len();
    let mut safe = n > 0;
    let mut i: usize = 0;
    while i < n
        invariant
            n == s@.len(),
            i <= n,
            safe == (n > 0 && forall|k: int| 0 <= k < i ==> is_safe_char(#[trigger] s@[k])),
        decreases n - i,
    {
        let c = s.get_char(i);
        let ok = ('a' <= c && c <= 'z') || ('A' <= c && c <= 'Z') || ('0' <= c && c <= '9') || c == '-' || c
            == '_' || c == '.' || c == '/' || c == '=' || c == ':' || c == ',' || c == '@' || c == '%' || c
            == '+';
        assert(ok == is_safe_char(s@[i as int]));
        safe = safe && ok;
        i = i + 1;
    }
    if safe {
        return String::from_str(s);
    }
    let mut r = String::new();
    push_char(&mut r, '\'');
    let mut j: usize = 0;
    assert(escaped(s@.take(0)) =~= Seq::<char>::empty()) by {
        assert(s@.take(0) =~= Seq::<char>::empty());
    }
    while j < n
        invariant
            n == s@.len(),
            j <= n,
            r@ == seq!['\''] + escaped(s@.take(j as int)),
        decreases n - j,
    {
        let c = s.get_char(j);
        proof {
            assert(s@.take(j + 1) =~= s@.take(j as int) + seq![c]);
            lemma_escaped_append(s@.take(j as int), seq![c]);
            assert(seq![c].drop_first() =~= Seq::<char>::empty());
            assert(escaped(Seq::<char>::empty()) =~= Seq::<char>::empty());
            assert(seq![c][0] == c);
            assert(escaped(seq![c]) =~= escaped_char(c));
        }
        if c == '\'' {
            push_char(&mut r, '\'');
            push_char(&mut r, '\\');
            push_char(&mut r, '\'');
            push_char(&mut r, '\'');
        } else {
            push_char(&mut r, c);
        }
        assert(r@ =~= seq!['\''] + escaped(s@.take(j + 1)));
        j = j + 1;
    }
    push_char(&mut r, '\'');
    assert(s@.take(n as int) =~= s@);
    r
}

/// A displayed command line is read back by a POSIX shell as the exact
/// argument that was quoted: quoting loses nothing and never splits a word.
pub proof fn law_shell_quote_roundtrip(s: Seq<char>)
    ensures
        shell_word(shell_quote_spec(s), false) == Some(s),
{
    if s.len() > 0 && all_safe(s) {
        lemma_safe_word(s, Seq::<char>::empty());
        assert(s + Seq::<char>::empty() =~= s);
    } else {
        let q = seq!['\''] + escaped(s) + seq!['\''];
        assert(q.drop_first() =~= escaped(s) + seq!['\'']);
        lemma_quoted_word(s, seq!['\'']);
        assert(seq!['\''].drop_first() =~= Seq::<char>::empty());
        assert(shell_word(seq!['\''], true) == shell_word(Seq::<char>::empty(), false));
        assert(s + Seq::<char>::empty() =~= s);
    }
}

} // verus!
