//! Formatting of a window-manager command as an expression for the
//! remote evaluator.

use vstd::prelude::*;

verus! {

/// The escaped form of one character inside a double-quoted Lisp string:
/// a double quote gets a backslash before it.
pub open spec fn dquote_escape_char(c: char) -> Seq<char> {
    if c == '"' {
        seq!['\\', '"']
    } else {
        seq![c]
    }
}

/// Every character of `s`, escaped for a double-quoted Lisp string.
pub open spec fn escape_dquotes(s: Seq<char>) -> Seq<char>
    decreases s.len(),
{
    if s.len() == 0 {
        Seq::<char>::empty()
    } else {
        dquote_escape_char(s[0]) + escape_dquotes(s.drop_first())
    }
}

/// The expression evaluated remotely for one command: the command,
/// double quotes escaped, as the string argument of a fixed call.
pub open spec fn spec_emacs_i3_command(s: Seq<char>) -> Seq<char> {
    "(my/emacs-i3-command \""@ + escape_dquotes(s) + "\")"@
}

/// Escaping one more character appends its escaped form.
proof fn lemma_escape_dquotes_push(s: Seq<char>, c: char)
    ensures
        escape_dquotes(s.push(c)) == escape_dquotes(s) + dquote_escape_char(c),
    decreases s.len(),
{
    if s.len() == 0 {
        let p = s.push(c);
        assert(p[0] == c);
        assert(p.drop_first() =~= Seq::<char>::empty());
        assert(escape_dquotes(p) == dquote_escape_char(p[0]) + escape_dquotes(p.drop_first()));
        assert(escape_dquotes(p.drop_first()) == Seq::<char>::empty());
        assert(dquote_escape_char(c) + Seq::<char>::empty() =~= dquote_escape_char(c));
        assert(escape_dquotes(s) + dquote_escape_char(c) =~= dquote_escape_char(c));
    } else {
        lemma_escape_dquotes_push(s.drop_first(), c);
        assert(s.push(c).drop_first() =~= s.drop_first().push(c));
        assert(dquote_escape_char(s[0]) + (escape_dquotes(s.drop_first()) + dquote_escape_char(c))
            =~= (dquote_escape_char(s[0]) + escape_dquotes(s.drop_first())) + dquote_escape_char(
            c,
        ));
        assert(escape_dquotes(s.push(c)) =~= escape_dquotes(s) + dquote_escape_char(c));
    }
}

/// Formats a command as the expression to be evaluated remotely.
pub fn emacs_i3_command(command: &str) -> (r: String)
    ensures
        r@ == spec_emacs_i3_command(command@),
{
    let n: usize = command.unicode_len();
    let mut out = String::from_str("(my/emacs-i3-command \"");
    proof {
        assert(command@.take(0) =~= Seq::<char>::empty());
        assert(out@ + Seq::<char>::empty() =~= out@);
    }
    let mut i: usize = 0;
    while i < n
        invariant
            0 <= i <= n,
            n == command@.len(),
            out@ == "(my/emacs-i3-command \""@ + escape_dquotes(command@.take(i as int)),
        decreases n - i,
    {
        let c = command.get_char(i);
        if c == '"' {
            out.push('\\');
            out.push('"');
        } else {
            out.push(c);
        }
        proof {
            lemma_escape_dquotes_push(command@.take(i as int), command@[i as int]);
            assert(command@.take(i as int).push(command@[i as int]) =~= command@.take(
                i as int + 1,
            ));
            assert(out@ =~= "(my/emacs-i3-command \""@ + escape_dquotes(
                command@.take(i as int + 1),
            ));
        }
        i = i + 1;
    }
    proof {
        assert(command@.take(n as int) =~= command@);
    }
    out.append("\")");
    out
}

} // verus!
