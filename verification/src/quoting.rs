//! The protocol's escaping scheme for request and response payloads.
//!
//! A quoted token carries an arbitrary string through the line-oriented
//! protocol without raw spaces or newlines (beyond an unescaped first
//! character): a space becomes `&_`, a newline `&n`, an ampersand `&&`, and
//! a leading dash is shielded as `&-` so the token is not misread as a
//! command flag.

use vstd::prelude::*;

verus! {

/// The escape sequence emitted for one character past the first.
pub open spec fn escape_char(c: char) -> Seq<char> {
    if c == ' ' {
        seq!['&', '_']
    } else if c == '\n' {
        seq!['&', 'n']
    } else if c == '&' {
        seq!['&', '&']
    } else {
        seq![c]
    }
}

/// The escaped form of every character of `s`, concatenated.
pub open spec fn escape_seq(s: Seq<char>) -> Seq<char>
    decreases s.len(),
{
    if s.len() == 0 {
        Seq::<char>::empty()
    } else {
        escape_char(s[0]) + escape_seq(s.drop_first())
    }
}

/// The quoted form of a whole argument: the first character is kept as it
/// is unless it is `-` (which becomes `&-`); every later character is
/// escaped by `escape_char`.
pub open spec fn spec_quote(s: Seq<char>) -> Seq<char> {
    if s.len() == 0 {
        Seq::<char>::empty()
    } else if s[0] == '-' {
        seq!['&', '-'] + escape_seq(s.drop_first())
    } else {
        seq![s[0]] + escape_seq(s.drop_first())
    }
}

/// What one character decodes to when it follows an `&`.
pub open spec fn unescape_char(c: char) -> char {
    if c == '_' {
        ' '
    } else if c == 'n' {
        '\n'
    } else {
        c
    }
}

/// A quoted token is well formed when every `&` is followed by at least one
/// more character; a trailing lone `&` is a truncated escape.
pub open spec fn quoted_wf(s: Seq<char>) -> bool
    decreases s.len(),
{
    if s.len() == 0 {
        true
    } else if s[0] == '&' {
        s.len() >= 2 && quoted_wf(s.skip(2))
    } else {
        quoted_wf(s.skip(1))
    }
}

/// The decoded form of a quoted token: `&` consumes the following
/// character and decodes it, any other character is copied through.
/// (On a token whose last character is a lone `&` the truncated escape is
/// dropped; decoding is only ever applied to well-formed tokens.)
pub open spec fn spec_unquote(s: Seq<char>) -> Seq<char>
    decreases s.len(),
{
    if s.len() == 0 {
        Seq::<char>::empty()
    } else if s[0] == '&' {
        if s.len() == 1 {
            Seq::<char>::empty()
        } else {
            seq![unescape_char(s[1])] + spec_unquote(s.skip(2))
        }
    } else {
        seq![s[0]] + spec_unquote(s.skip(1))
    }
}

/// Escaping one more character appends its escape sequence.
pub proof fn lemma_escape_seq_push(s: Seq<char>, c: char)
    ensures
        escape_seq(s.push(c)) == escape_seq(s) + escape_char(c),
    decreases s.len(),
{
    if s.len() == 0 {
        let p = s.push(c);
        assert(p.len() == 1);
        assert(p[0] == c);
        assert(p.drop_first() =~= Seq::<char>::empty());
        assert(escape_seq(p) == escape_char(p[0]) + escape_seq(p.drop_first()));
        assert(escape_seq(p.drop_first()) == Seq::<char>::empty());
        assert(escape_char(c) + Seq::<char>::empty() =~= escape_char(c));
        assert(escape_seq(s) + escape_char(c) =~= escape_char(c));
    } else {
        lemma_escape_seq_push(s.drop_first(), c);
        assert(s.push(c).drop_first() =~= s.drop_first().push(c));
        assert(escape_char(s[0]) + (escape_seq(s.drop_first()) + escape_char(c)) =~= (escape_char(
            s[0],
        ) + escape_seq(s.drop_first())) + escape_char(c));
        assert(escape_seq(s.push(c)) =~= escape_seq(s) + escape_char(c));
    }
}

/// Quoting one more character (past a nonempty start) appends its escape
/// sequence.
pub proof fn lemma_spec_quote_push(t: Seq<char>, c: char)
    requires
        t.len() >= 1,
    ensures
        spec_quote(t.push(c)) == spec_quote(t) + escape_char(c),
{
    lemma_escape_seq_push(t.drop_first(), c);
    assert(t.push(c).drop_first() =~= t.drop_first().push(c));
    if t[0] == '-' {
        assert(seq!['&', '-'] + (escape_seq(t.drop_first()) + escape_char(c)) =~= (seq!['&', '-']
            + escape_seq(t.drop_first())) + escape_char(c));
    } else {
        assert(seq![t[0]] + (escape_seq(t.drop_first()) + escape_char(c)) =~= (seq![t[0]]
            + escape_seq(t.drop_first())) + escape_char(c));
    }
}

/// The escaped remainder of a token is well formed and decodes back to the
/// characters it was built from.
pub proof fn lemma_unquote_escape_seq(s: Seq<char>)
    ensures
        quoted_wf(escape_seq(s)),
        spec_unquote(escape_seq(s)) == s,
    decreases s.len(),
{
    if s.len() == 0 {
    } else {
        lemma_unquote_escape_seq(s.drop_first());
        let e = escape_seq(s.drop_first());
        let c = s[0];
        let w = escape_char(c) + e;
        assert(escape_seq(s) == w);
        if c == ' ' || c == '\n' || c == '&' {
            assert(w[0] == '&');
            assert(w.len() >= 2);
            assert(w.skip(2) =~= e);
            assert(unescape_char(w[1]) == c);
            assert(spec_unquote(w) =~= seq![c] + s.drop_first());
            assert(seq![c] + s.drop_first() =~= s);
        } else {
            assert(w[0] == c && c != '&');
            assert(w.skip(1) =~= e);
            assert(spec_unquote(w) =~= seq![c] + s.drop_first());
            assert(seq![c] + s.drop_first() =~= s);
        }
    }
}

/// The escaped remainder of a token never holds a raw space or newline.
pub proof fn lemma_escape_seq_no_raw_whitespace(s: Seq<char>)
    ensures
        forall|i: int|
            0 <= i < escape_seq(s).len() ==> escape_seq(s)[i] != ' ' && escape_seq(s)[i] != '\n',
    decreases s.len(),
{
    if s.len() == 0 {
    } else {
        lemma_escape_seq_no_raw_whitespace(s.drop_first());
        let e = escape_char(s[0]);
        let rest = escape_seq(s.drop_first());
        assert forall|i: int|
            0 <= i < escape_seq(s).len() implies escape_seq(s)[i] != ' ' && escape_seq(s)[i]
            != '\n' by {
            assert(escape_seq(s) == e + rest);
            if i < e.len() {
                assert(escape_seq(s)[i] == e[i]);
            } else {
                assert(escape_seq(s)[i] == rest[i - e.len()]);
            }
        }
    }
}

/// Past its first character, which stays unescaped unless it is a dash,
/// the quoted form of an argument holds no raw space or newline.
pub proof fn lemma_quote_no_raw_whitespace(s: Seq<char>)
    ensures
        forall|i: int|
            1 <= i < spec_quote(s).len() ==> spec_quote(s)[i] != ' ' && spec_quote(s)[i] != '\n',
{
    if s.len() == 0 {
    } else {
        lemma_escape_seq_no_raw_whitespace(s.drop_first());
        let rest = escape_seq(s.drop_first());
        let head: Seq<char> = if s[0] == '-' {
            seq!['&', '-']
        } else {
            seq![s[0]]
        };
        assert forall|i: int|
            1 <= i < spec_quote(s).len() implies spec_quote(s)[i] != ' ' && spec_quote(s)[i]
            != '\n' by {
            assert(spec_quote(s) == head + rest);
            if i < head.len() {
                assert(spec_quote(s)[i] == head[i]);
            } else {
                assert(spec_quote(s)[i] == rest[i - head.len()]);
            }
        }
    }
}

/// Round trip: for every string that does not begin with a literal `&`,
/// the quoted form is a well-formed token and unquoting it gives the
/// original string back.
pub proof fn lemma_quote_unquote_roundtrip(s: Seq<char>)
    requires
        s.len() > 0 ==> s[0] != '&',
    ensures
        quoted_wf(spec_quote(s)),
        spec_unquote(spec_quote(s)) == s,
{
    if s.len() == 0 {
    } else {
        lemma_unquote_escape_seq(s.drop_first());
        let e = escape_seq(s.drop_first());
        if s[0] == '-' {
            let w = seq!['&', '-'] + e;
            assert(w[0] == '&');
            assert(w.len() >= 2);
            assert(w.skip(2) =~= e);
            assert(unescape_char(w[1]) == '-');
            assert(spec_unquote(w) =~= seq!['-'] + s.drop_first());
            assert(seq![s[0]] + s.drop_first() =~= s);
        } else {
            let w = seq![s[0]] + e;
            assert(w[0] == s[0] && s[0] != '&');
            assert(w.skip(1) =~= e);
            assert(spec_unquote(w) =~= seq![s[0]] + s.drop_first());
            assert(seq![s[0]] + s.drop_first() =~= s);
        }
    }
}

} // verus!
