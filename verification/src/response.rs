//! Classification of the server's reply.
//!
//! The reply is text split on newlines. The first line carrying a
//! `-print ` directive decides success, the first carrying `-error `
//! decides failure; every other line is ignored. A line may end in a
//! carriage return, which is not part of its payload.

use vstd::prelude::*;

verus! {

/// The directive found in a reply: the still-quoted payload of the first
/// `-print ` or `-error ` line.
pub enum Directive {
    Print(Seq<char>),
    Error(Seq<char>),
}

/// The marker that opens a success line.
pub open spec fn print_marker() -> Seq<char> {
    seq!['-', 'p', 'r', 'i', 'n', 't', ' ']
}

/// The marker that opens a failure line.
pub open spec fn error_marker() -> Seq<char> {
    seq!['-', 'e', 'r', 'r', 'o', 'r', ' ']
}

/// Whether `l` begins with the marker `m`.
pub open spec fn has_marker(l: Seq<char>, m: Seq<char>) -> bool {
    l.len() >= m.len() && l.subrange(0, m.len() as int) == m
}

/// A line without its trailing carriage return, if it has one.
pub open spec fn strip_cr(l: Seq<char>) -> Seq<char> {
    if l.len() > 0 && l[l.len() - 1] == '\r' {
        l.drop_last()
    } else {
        l
    }
}

/// The directive carried by one line, if any: the part after a leading
/// `-print ` or `-error ` marker.
pub open spec fn line_directive(l: Seq<char>) -> Option<Directive> {
    if has_marker(l, print_marker()) {
        Some(Directive::Print(l.skip(print_marker().len() as int)))
    } else if has_marker(l, error_marker()) {
        Some(Directive::Error(l.skip(error_marker().len() as int)))
    } else {
        None
    }
}

/// Scans the remaining reply text `s`, with `line` the part of the
/// current line read so far, and gives the first directive. A final line
/// needs no terminating newline; an empty final segment is no line.
pub open spec fn classify_from(s: Seq<char>, line: Seq<char>) -> Option<Directive>
    decreases s.len(),
{
    if s.len() == 0 {
        if line.len() == 0 {
            None
        } else {
            line_directive(strip_cr(line))
        }
    } else if s[0] == '\n' {
        if line_directive(strip_cr(line)) is Some {
            line_directive(strip_cr(line))
        } else {
            classify_from(s.drop_first(), Seq::<char>::empty())
        }
    } else {
        classify_from(s.drop_first(), line.push(s[0]))
    }
}

/// The first directive of a whole reply, if it has one.
pub open spec fn classify_response(s: Seq<char>) -> Option<Directive> {
    classify_from(s, Seq::<char>::empty())
}

/// The directive of one reply line: `true` with the payload for
/// `-print `, `false` with the payload for `-error `, nothing otherwise.
pub(crate) fn line_directive_exec(line: &str) -> (r: Option<(bool, String)>)
    ensures
        line_directive(strip_cr(line@)) is None <==> r is None,
        line_directive(strip_cr(line@)) matches Some(Directive::Print(v)) ==> (r matches Some(p)
            && p.0 && p.1@ == v),
        line_directive(strip_cr(line@)) matches Some(Directive::Error(v)) ==> (r matches Some(p)
            && !p.0 && p.1@ == v),
{
    let n: usize = line.unicode_len();
    let m: usize = if n > 0 && line.get_char(n - 1) == '\r' {
        n - 1
    } else {
        n
    };
    proof {
        if n > 0 && line@[n as int - 1] == '\r' {
            assert(line@.drop_last() =~= line@.subrange(0, n as int - 1));
        } else {
            assert(line@ =~= line@.subrange(0, n as int));
        }
        assert(strip_cr(line@) == line@.subrange(0, m as int));
    }
    if m < 7 {
        return None;
    }
    let is_print = line.get_char(0) == '-' && line.get_char(1) == 'p' && line.get_char(2) == 'r'
        && line.get_char(3) == 'i' && line.get_char(4) == 'n' && line.get_char(5) == 't'
        && line.get_char(6) == ' ';
    let is_error = line.get_char(0) == '-' && line.get_char(1) == 'e' && line.get_char(2) == 'r'
        && line.get_char(3) == 'r' && line.get_char(4) == 'o' && line.get_char(5) == 'r'
        && line.get_char(6) == ' ';
    proof {
        let l = strip_cr(line@);
        assert(forall|k: int| 0 <= k < m ==> l[k] == line@[k]);
        if is_print {
            assert(l.subrange(0, 7) =~= print_marker());
        } else {
            assert(l.subrange(0, 7) != print_marker()) by {
                if l.subrange(0, 7) == print_marker() {
                    assert(forall|k: int| 0 <= k < 7 ==> l.subrange(0, 7)[k] == print_marker()[k]);
                    assert(line@[0] == '-' && line@[1] == 'p' && line@[2] == 'r' && line@[3] == 'i'
                        && line@[4] == 'n' && line@[5] == 't' && line@[6] == ' ');
                }
            }
        }
        if is_error {
            assert(l.subrange(0, 7) =~= error_marker());
        } else {
            assert(l.subrange(0, 7) != error_marker()) by {
                if l.subrange(0, 7) == error_marker() {
                    assert(forall|k: int| 0 <= k < 7 ==> l.subrange(0, 7)[k] == error_marker()[k]);
                    assert(line@[0] == '-' && line@[1] == 'e' && line@[2] == 'r' && line@[3] == 'r'
                        && line@[4] == 'o' && line@[5] == 'r' && line@[6] == ' ');
                }
            }
        }
    }
    if is_print || is_error {
        let payload = line.substring_char(7, m);
        proof {
            assert(strip_cr(line@).skip(7) =~= line@.subrange(7, m as int));
        }
        Some((is_print, payload.to_owned()))
    } else {
        None
    }
}

/// Finds the first directive line of a whole reply: `true` with the
/// still-quoted payload for `-print `, `false` with it for `-error `,
/// nothing when no directive line exists.
pub fn classify(response: &str) -> (r: Option<(bool, String)>)
    ensures
        classify_response(response@) is None <==> r is None,
        classify_response(response@) matches Some(Directive::Print(v)) ==> (r matches Some(p)
            && p.0 && p.1@ == v),
        classify_response(response@) matches Some(Directive::Error(v)) ==> (r matches Some(p)
            && !p.0 && p.1@ == v),
{
    let n: usize = response.unicode_len();
    let mut i: usize = 0;
    let mut line_start: usize = 0;
    proof {
        assert(response@.skip(0) =~= response@);
        assert(response@.subrange(0, 0) =~= Seq::<char>::empty());
    }
    while i < n
        invariant
            line_start <= i <= n,
            n == response@.len(),
            classify_response(response@) == classify_from(
                response@.skip(i as int),
                response@.subrange(line_start as int, i as int),
            ),
        decreases n - i,
    {
        let c = response.get_char(i);
        proof {
            assert(response@.skip(i as int)[0] == response@[i as int]);
            assert(response@.skip(i as int).drop_first() =~= response@.skip(i as int + 1));
        }
        if c == '\n' {
            let line = response.substring_char(line_start, i);
            let d = line_directive_exec(line);
            if d.is_some() {
                return d;
            }
            proof {
                assert(response@.subrange(i as int + 1, i as int + 1) =~= Seq::<char>::empty());
            }
            line_start = i + 1;
        } else {
            proof {
                assert(response@.subrange(line_start as int, i as int).push(response@[i as int])
                    =~= response@.subrange(line_start as int, i as int + 1));
            }
        }
        i = i + 1;
    }
    proof {
        assert(response@.skip(n as int) =~= Seq::<char>::empty());
    }
    if line_start < n {
        let line = response.substring_char(line_start, n);
        return line_directive_exec(line);
    }
    None
}

} // verus!
