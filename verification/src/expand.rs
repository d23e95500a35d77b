//! The top-level driver.
//!
//! `expand` orchestrates one invocation: it runs the scanner over the body;
//! when a marker was found, the scanner's output — the body with only the
//! marked subtree repeated — is the whole result; otherwise the entire body
//! is repeated, one substituted copy per value of the range.
//! `expand_tokens` parses the header first and propagates its diagnostic;
//! after a successful parse, no failure is possible.

use vstd::prelude::*;

use crate::header::{header_err, header_inv, header_ok, parse_header, HeaderError, Invocation,
    InvocationView};
use crate::scan::{scan, scan_seq};
use crate::subst::{repeat_body, repeat_concat};
use crate::token::{toks_view, Tok, Token};

verus! {

/// The expansion an invocation denotes: the scanned body when it holds a
/// marker, and the whole body repeated over the range otherwise.
pub open spec fn expand_spec(inv: InvocationView) -> Seq<Tok> {
    let scanned = scan_seq(inv.body, inv.ident, inv.start, inv.end);
    if scanned.1 {
        scanned.0
    } else {
        repeat_concat(inv.body, inv.ident, inv.start, inv.end)
    }
}

/// Expands one parsed invocation, exactly as `expand_spec` describes.
pub fn expand(inv: &Invocation) -> (out: Vec<Token>)
    ensures
        toks_view(out@) == expand_spec(inv@),
{
    let r = scan(&inv.body, &inv.ident, inv.start, inv.end);
    if r.1 {
        r.0
    } else {
        repeat_body(&inv.body, &inv.ident, inv.start, inv.end)
    }
}

/// Parses and expands one invocation: the replacement token sequence on
/// well-formed input, and the header diagnostic otherwise.
pub fn expand_tokens(tokens: &Vec<Token>) -> (r: Result<Vec<Token>, HeaderError>)
    ensures
        r is Ok <==> header_ok(toks_view(tokens@)),
        r matches Ok(out) ==> toks_view(out@) == expand_spec(header_inv(toks_view(tokens@))),
        r matches Err(e) ==> e == header_err(toks_view(tokens@)),
{
    match parse_header(tokens) {
        Ok(inv) => Ok(expand(&inv)),
        Err(e) => Err(e),
    }
}

} // verus!
