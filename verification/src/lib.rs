//! A minimal client for the Emacs server protocol.
//!
//! The client sends a single `-current-frame -eval` request over a local
//! socket and classifies the line-oriented reply. The protocol's escaping
//! scheme (`quote_argument` / `unquote_argument`) and the response
//! classification are verified; the socket I/O itself lives with the caller.

pub mod command;
pub mod emacs;
pub mod quoting;
pub mod response;

use vstd::prelude::*;

verus! {

/// Relies on `String::push`: appends the given character to the end of the
/// string.
pub assume_specification[ String::push ](s: &mut String, ch: char)
    ensures
        final(s)@ == old(s)@.push(ch),
;

} // verus!
