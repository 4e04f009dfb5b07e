//! The protocol client: request encoding, payload quoting and unquoting,
//! and classification of the server's reply.
//!
//! The client itself holds only the endpoint address of the local socket.
//! All socket I/O is left to the caller, who hands the raw transport
//! outcome to [`EmacsClient::eval_outcome`].

use vstd::prelude::*;

use crate::quoting::{
    escape_char, quoted_wf, spec_quote, spec_unquote, unescape_char, lemma_spec_quote_push,
};
use crate::response::{classify, classify_response, Directive};

verus! {

/// The request line sent for one evaluation: the fixed command prefix,
/// the quoted expression, a trailing space and a newline.
pub open spec fn request_line(expr: Seq<char>) -> Seq<char> {
    "-current-frame -eval "@ + spec_quote(expr) + " \n"@
}

/// Whether `r` is the protocol-violation outcome recording the requested
/// expression and the raw reply.
pub open spec fn is_protocol_violation(
    r: Result<String, EmacsError>,
    expr: Seq<char>,
    response: Seq<char>,
) -> bool {
    r matches Err(EmacsError::ProtocolViolation { expression, response: got }) && expression@
        == expr && got@ == response
}

/// What an evaluation returns for a reply it managed to read: the decoded
/// payload of the first `-print ` line as success, the decoded payload of
/// the first `-error ` line as an evaluation failure, and a protocol
/// violation when no directive line exists or the payload's quoting is
/// truncated.
pub open spec fn response_outcome(
    expr: Seq<char>,
    response: Seq<char>,
    r: Result<String, EmacsError>,
) -> bool {
    match classify_response(response) {
        None => is_protocol_violation(r, expr, response),
        Some(Directive::Print(v)) => if quoted_wf(v) {
            r matches Ok(value) && value@ == spec_unquote(v)
        } else {
            is_protocol_violation(r, expr, response)
        },
        Some(Directive::Error(v)) => if quoted_wf(v) {
            r matches Err(EmacsError::EvaluationFailure(m)) && m@ == spec_unquote(v)
        } else {
            is_protocol_violation(r, expr, response)
        },
    }
}

/// A client for one local Emacs server endpoint. Stateless apart from the
/// endpoint address; no connection is held between evaluations.
pub struct EmacsClient {
    /// The endpoint address of the local socket, e.g. a filesystem path.
    pub socket_path: String,
}

/// How an evaluation failed.
#[derive(Debug)]
pub enum EmacsError {
    /// The connection could not be established, or a send or receive on it
    /// failed. The payload is the reported I/O failure text.
    TransportFailure(String),
    /// The remote side executed the request and reported an error; the
    /// payload is the decoded error text.
    EvaluationFailure(String),
    /// The remote side broke the protocol: its reply carried no directive
    /// line, or a payload held a truncated escape. Not recoverable; the
    /// fields keep the requested expression and the raw reply for
    /// diagnosis.
    ProtocolViolation { expression: String, response: String },
}

impl EmacsClient {
    /// Makes a client for the given endpoint address. Performs no I/O.
    pub fn new(socket_path: &str) -> (r: EmacsClient)
        ensures
            r.socket_path@ == socket_path@,
    {
        EmacsClient { socket_path: socket_path.to_owned() }
    }

    /// Quote an argument for the server: encodes the string as one token,
    /// escaping spaces, newlines and ampersands past the first character,
    /// and shielding a leading dash.
    pub fn quote_argument(s: &str) -> (r: String)
        ensures
            r@ == spec_quote(s@),
    {
        let n: usize = s.unicode_len();
        let mut out = String::new();
        if n == 0 {
            return out;
        }
        let first = s.get_char(0);
        if first == '-' {
            out.push('&');
            out.push('-');
        } else {
            out.push(first);
        }
        proof {
            assert(s@.take(1).drop_first() =~= Seq::<char>::empty());
            assert(s@.take(1)[0] == s@[0]);
            if s@[0] == '-' {
                assert(out@ =~= seq!['&', '-'] + crate::quoting::escape_seq(
                    Seq::<char>::empty(),
                ));
            } else {
                assert(out@ =~= seq![s@[0]] + crate::quoting::escape_seq(Seq::<char>::empty()));
            }
        }
        let mut i: usize = 1;
        while i < n
            invariant
                1 <= i <= n,
                n == s@.len(),
                out@ == spec_quote(s@.take(i as int)),
            decreases n - i,
        {
            let c = s.get_char(i);
            if c == ' ' {
                out.push('&');
                out.push('_');
            } else if c == '\n' {
                out.push('&');
                out.push('n');
            } else if c == '&' {
                out.push('&');
                out.push('&');
            } else {
                out.push(c);
            }
            proof {
                lemma_spec_quote_push(s@.take(i as int), s@[i as int]);
                assert(s@.take(i as int).push(s@[i as int]) =~= s@.take(i as int + 1));
                assert(out@ =~= spec_quote(s@.take(i as int)) + escape_char(s@[i as int]));
            }
            i = i + 1;
        }
        proof {
            assert(s@.take(n as int) =~= s@);
        }
        out
    }

    /// Whether a quoted token is well formed: every `&` has at least one
    /// character after it to decode.
    pub fn is_quoted_wf(s: &str) -> (r: bool)
        ensures
            r == quoted_wf(s@),
    {
        let n: usize = s.unicode_len();
        let mut i: usize = 0;
        proof {
            assert(s@.skip(0) =~= s@);
        }
        while i < n
            invariant
                0 <= i <= n,
                n == s@.len(),
                quoted_wf(s@) == quoted_wf(s@.skip(i as int)),
            decreases n - i,
        {
            let c = s.get_char(i);
            proof {
                assert(s@.skip(i as int)[0] == s@[i as int]);
            }
            if c == '&' {
                if i + 1 == n {
                    proof {
                        assert(s@.skip(i as int).len() == 1);
                    }
                    return false;
                }
                proof {
                    assert(s@.skip(i as int).skip(2) =~= s@.skip(i as int + 2));
                }
                i = i + 2;
            } else {
                proof {
                    assert(s@.skip(i as int).skip(1) =~= s@.skip(i as int + 1));
                }
                i = i + 1;
            }
        }
        proof {
            assert(s@.skip(i as int) =~= Seq::<char>::empty());
        }
        true
    }

    /// Unquote an argument from the server: decodes every `&`-escape back
    /// to the character it stands for. The token must be well formed; a
    /// reply whose payload is not is treated as a protocol violation
    /// before this runs.
    pub fn unquote_argument(s: &str) -> (r: String)
        requires
            quoted_wf(s@),
        ensures
            r@ == spec_unquote(s@),
    {
        let n: usize = s.unicode_len();
        let mut out = String::new();
        let mut i: usize = 0;
        proof {
            assert(s@.skip(0) =~= s@);
            assert(Seq::<char>::empty() + spec_unquote(s@) =~= spec_unquote(s@));
        }
        while i < n
            invariant
                0 <= i <= n,
                n == s@.len(),
                quoted_wf(s@.skip(i as int)),
                spec_unquote(s@) == out@ + spec_unquote(s@.skip(i as int)),
            decreases n - i,
        {
            let c = s.get_char(i);
            proof {
                assert(s@.skip(i as int)[0] == s@[i as int]);
            }
            if c == '&' {
                proof {
                    assert(s@.skip(i as int).len() >= 2);
                    assert(s@.skip(i as int)[1] == s@[i as int + 1]);
                    assert(s@.skip(i as int).skip(2) =~= s@.skip(i as int + 2));
                }
                let e = s.get_char(i + 1);
                let d: char = if e == '_' {
                    ' '
                } else if e == 'n' {
                    '\n'
                } else {
                    e
                };
                proof {
                    assert(d == unescape_char(s@[i as int + 1]));
                }
                out.push(d);
                proof {
                    assert(out@ + spec_unquote(s@.skip(i as int + 2)) =~= spec_unquote(s@));
                }
                i = i + 2;
            } else {
                proof {
                    assert(s@.skip(i as int).skip(1) =~= s@.skip(i as int + 1));
                }
                out.push(c);
                proof {
                    assert(out@ + spec_unquote(s@.skip(i as int + 1)) =~= spec_unquote(s@));
                }
                i = i + 1;
            }
        }
        proof {
            assert(s@.skip(i as int) =~= Seq::<char>::empty());
        }
        out
    }

    /// Builds the request line for one evaluation of `expr`.
    pub fn build_request(expr: &str) -> (r: String)
        ensures
            r@ == request_line(expr@),
    {
        let mut out = String::from_str("-current-frame -eval ");
        let quoted = Self::quote_argument(expr);
        out.append(quoted.as_str());
        out.append(" \n");
        out
    }

    /// Decodes a reply that was read in full: the first directive line
    /// decides the outcome, a reply without one (or with a truncated
    /// payload escape) is a protocol violation.
    pub fn process_response(expr: &str, response: &str) -> (r: Result<String, EmacsError>)
        ensures
            response_outcome(expr@, response@, r),
    {
        match classify(response) {
            Some((is_print, payload)) => {
                if Self::is_quoted_wf(payload.as_str()) {
                    let value = Self::unquote_argument(payload.as_str());
                    if is_print {
                        Ok(value)
                    } else {
                        Err(EmacsError::EvaluationFailure(value))
                    }
                } else {
                    Err(
                        EmacsError::ProtocolViolation {
                            expression: expr.to_owned(),
                            response: response.to_owned(),
                        },
                    )
                }
            },
            None => Err(
                EmacsError::ProtocolViolation {
                    expression: expr.to_owned(),
                    response: response.to_owned(),
                },
            ),
        }
    }

    /// Completes one evaluation from the transport outcome the caller
    /// obtained: the full reply text read from the endpoint, or the text
    /// of the I/O failure that prevented reading one. A failed transport
    /// is surfaced as such, never retried; a reply is decoded by
    /// [`Self::process_response`].
    pub fn eval_outcome(&self, expr: &str, transport: Result<String, String>) -> (r: Result<
        String,
        EmacsError,
    >)
        ensures
            transport matches Err(m) ==> (r matches Err(EmacsError::TransportFailure(t)) && t@
                == m@),
            transport matches Ok(resp) ==> response_outcome(expr@, resp@, r),
    {
        match transport {
            Ok(resp) => Self::process_response(expr, resp.as_str()),
            Err(m) => Err(EmacsError::TransportFailure(m)),
        }
    }
}

impl EmacsError {
    /// What this error describes, one line of text.
    pub open spec fn spec_describe(&self) -> Seq<char> {
        match self {
            EmacsError::TransportFailure(m) => m@,
            EmacsError::EvaluationFailure(m) => "eval error: "@ + m@,
            EmacsError::ProtocolViolation { expression, response } => {
                "expected response to contain '-print' or '-error' on eval of: "@ + expression@
                    + ", got: "@ + response@
            },
        }
    }

    /// Renders the error as one line of text.
    pub fn describe(&self) -> (r: String)
        ensures
            r@ == self.spec_describe(),
    {
        match self {
            EmacsError::TransportFailure(m) => m.clone(),
            EmacsError::EvaluationFailure(m) => {
                let mut out = String::from_str("eval error: ");
                out.append(m.as_str());
                out
            },
            EmacsError::ProtocolViolation { expression, response } => {
                let mut out = String::from_str(
                    "expected response to contain '-print' or '-error' on eval of: ",
                );
                out.append(expression.as_str());
                out.append(", got: ");
                out.append(response.as_str());
                out
            },
        }
    }
}

} // verus!
