//! The header parser.
//!
//! An invocation reads `<identifier> in <integer>..<integer> { <body> }`,
//! where each bound is a base-10 signed integer: an integer literal token,
//! optionally preceded by a `-` punctuation that negates it (a host lexer
//! delivers a negative bound as exactly those two tokens).  `parse_header`
//! recognizes that shape and returns the parsed `Invocation`, or a
//! `HeaderError` naming the first element that is missing or of the wrong
//! kind, located at the offending token.

use vstd::prelude::*;
use vstd::string::StringExecFns;

use crate::token::{dup_tokens, lemma_toks_view_elts, toks_view, Delim, Tok, Token};

verus! {

broadcast use crate::token::group_token_views;

/// One parsed invocation: the loop identifier, the half-open integer range
/// `[start, end)`, and the body token sequence.  `start > end` is not an
/// error; it simply yields zero iterations.
#[derive(Debug, PartialEq, Eq)]
pub struct Invocation {
    pub ident: String,
    pub start: i64,
    pub end: i64,
    pub body: Vec<Token>,
}

/// The mathematical model of an invocation.
pub struct InvocationView {
    pub ident: Seq<char>,
    pub start: i64,
    pub end: i64,
    pub body: Seq<Tok>,
}

impl View for Invocation {
    type V = InvocationView;

    open spec fn view(&self) -> InvocationView {
        InvocationView {
            ident: self.ident@,
            start: self.start,
            end: self.end,
            body: toks_view(self.body@),
        }
    }
}

/// The header element that a malformed invocation lacks.
#[derive(Clone, Copy, Debug, PartialEq, Eq)]
pub enum HeaderPart {
    /// The loop identifier.
    LoopIdent,
    /// The `in` keyword.
    InKeyword,
    /// The integer lower bound.
    RangeStart,
    /// The `..` separator.
    RangeDots,
    /// The integer upper bound.
    RangeEnd,
    /// The brace-delimited body.
    Body,
    /// The end of the invocation: tokens remained after the body.
    End,
}

/// A malformed-header diagnostic: the element that was expected, and the
/// provenance tag of the offending token — `None` when the input ended
/// before that position.
#[derive(Clone, Copy, Debug, PartialEq, Eq)]
pub struct HeaderError {
    pub part: HeaderPart,
    pub loc: Option<u64>,
}

/// The text of the `in` keyword.
pub open spec fn kw_in() -> Seq<char> {
    seq!['i', 'n']
}

/// Whether position `p` holds a minus-sign punctuation.
pub open spec fn minus_at(s: Seq<Tok>, p: int) -> bool {
    &&& p < s.len()
    &&& s[p] is Punct
    &&& s[p]->Punct_ch == '-'
}

/// The number of tokens the bound at `p` occupies: two with a leading
/// minus sign, one without.
pub open spec fn bound_width(s: Seq<Tok>, p: int) -> int {
    if minus_at(s, p) {
        2
    } else {
        1
    }
}

/// The bound at `p` is well-formed: an integer literal, optionally
/// preceded by a minus sign — and then the negated value must still fit
/// the bound's integer width.
pub open spec fn bound_ok(s: Seq<Tok>, p: int) -> bool {
    if minus_at(s, p) {
        &&& p + 1 < s.len()
        &&& s[p + 1] is IntLit
        &&& s[p + 1]->IntLit_value != i64::MIN
    } else {
        &&& p < s.len()
        &&& s[p] is IntLit
    }
}

/// The value the bound at `p` denotes.
pub open spec fn bound_val(s: Seq<Tok>, p: int) -> i64
    recommends
        bound_ok(s, p),
{
    if minus_at(s, p) {
        (-s[p + 1]->IntLit_value) as i64
    } else {
        s[p]->IntLit_value
    }
}

/// The position a diagnostic about a malformed bound at `p` points at: the
/// token after a minus sign, else `p` itself.
pub open spec fn bound_err_pos(s: Seq<Tok>, p: int) -> int {
    if minus_at(s, p) {
        p + 1
    } else {
        p
    }
}

/// A well-formed header: the loop identifier, the `in` keyword, two
/// optionally signed integer bounds around the two-dot separator, the
/// brace-delimited body, and nothing after it.
pub open spec fn header_ok(s: Seq<Tok>) -> bool {
    let dots = 2 + bound_width(s, 2);
    let end_pos = dots + 2;
    let body_pos = end_pos + bound_width(s, end_pos);
    &&& s.len() > 0
    &&& s[0] is Ident
    &&& s.len() > 1
    &&& s[1] is Ident
    &&& s[1]->Ident_text == kw_in()
    &&& bound_ok(s, 2)
    &&& dots < s.len()
    &&& s[dots] is Punct
    &&& s[dots]->Punct_ch == '.'
    &&& dots + 1 < s.len()
    &&& s[dots + 1] is Punct
    &&& s[dots + 1]->Punct_ch == '.'
    &&& bound_ok(s, end_pos)
    &&& body_pos < s.len()
    &&& s[body_pos] is Group
    &&& s[body_pos]->Group_delim == Delim::Brace
    &&& s.len() == body_pos + 1
}

/// The invocation a well-formed header denotes.
pub open spec fn header_inv(s: Seq<Tok>) -> InvocationView
    recommends
        header_ok(s),
{
    let dots = 2 + bound_width(s, 2);
    let end_pos = dots + 2;
    let body_pos = end_pos + bound_width(s, end_pos);
    InvocationView {
        ident: s[0]->Ident_text,
        start: bound_val(s, 2),
        end: bound_val(s, end_pos),
        body: s[body_pos]->Group_inner,
    }
}

/// The provenance tag a token carries.
pub open spec fn tok_loc(t: Tok) -> u64 {
    match t {
        Tok::Ident { loc, .. } => loc,
        Tok::IntLit { loc, .. } => loc,
        Tok::Punct { loc, .. } => loc,
        Tok::Group { loc, .. } => loc,
    }
}

/// The place a diagnostic at position `i` points at: the tag of the token
/// there, or nothing when the input is shorter.
pub open spec fn loc_at(s: Seq<Tok>, i: int) -> Option<u64> {
    if i < s.len() {
        Some(tok_loc(s[i]))
    } else {
        None
    }
}

/// The diagnostic for a malformed header: the first position, in reading
/// order, whose token is missing or of the wrong kind.
pub open spec fn header_err(s: Seq<Tok>) -> HeaderError
    recommends
        !header_ok(s),
{
    let dots = 2 + bound_width(s, 2);
    let end_pos = dots + 2;
    let body_pos = end_pos + bound_width(s, end_pos);
    if !(0 < s.len() && s[0] is Ident) {
        HeaderError { part: HeaderPart::LoopIdent, loc: loc_at(s, 0) }
    } else if !(1 < s.len() && s[1] is Ident && s[1]->Ident_text == kw_in()) {
        HeaderError { part: HeaderPart::InKeyword, loc: loc_at(s, 1) }
    } else if !bound_ok(s, 2) {
        HeaderError { part: HeaderPart::RangeStart, loc: loc_at(s, bound_err_pos(s, 2)) }
    } else if !(dots < s.len() && s[dots] is Punct && s[dots]->Punct_ch == '.') {
        HeaderError { part: HeaderPart::RangeDots, loc: loc_at(s, dots) }
    } else if !(dots + 1 < s.len() && s[dots + 1] is Punct && s[dots + 1]->Punct_ch == '.') {
        HeaderError { part: HeaderPart::RangeDots, loc: loc_at(s, dots + 1) }
    } else if !bound_ok(s, end_pos) {
        HeaderError { part: HeaderPart::RangeEnd, loc: loc_at(s, bound_err_pos(s, end_pos)) }
    } else if !(body_pos < s.len() && s[body_pos] is Group && s[body_pos]->Group_delim
        == Delim::Brace) {
        HeaderError { part: HeaderPart::Body, loc: loc_at(s, body_pos) }
    } else {
        HeaderError { part: HeaderPart::End, loc: loc_at(s, body_pos + 1) }
    }
}

/// The provenance tag of one token.
pub fn token_loc(t: &Token) -> (l: u64)
    ensures
        l == tok_loc(t@),
{
    match t {
        Token::Ident { loc, .. } => *loc,
        Token::IntLit { loc, .. } => *loc,
        Token::Punct { loc, .. } => *loc,
        Token::Group { loc, .. } => *loc,
    }
}

/// Builds the diagnostic that points at position `i` of `tokens`.
fn err_at(tokens: &Vec<Token>, i: usize, part: HeaderPart) -> (e: HeaderError)
    ensures
        e.part == part,
        e.loc == loc_at(toks_view(tokens@), i as int),
{
    proof {
        lemma_toks_view_elts(tokens@);
    }
    if i < tokens.len() {
        let l = token_loc(&tokens[i]);
        HeaderError { part, loc: Some(l) }
    } else {
        HeaderError { part, loc: None }
    }
}

/// Reads the range bound at position `p`: an integer literal, optionally
/// preceded by a minus sign that negates it.  Returns the value and the
/// number of tokens consumed, or the diagnostic naming `part`.
fn parse_bound(tokens: &Vec<Token>, p: usize, part: HeaderPart) -> (r: Result<
    (i64, usize),
    HeaderError,
>)
    requires
        p <= tokens@.len(),
    ensures
        r is Ok <==> bound_ok(toks_view(tokens@), p as int),
        r matches Ok(b) ==> {
            &&& b.0 == bound_val(toks_view(tokens@), p as int)
            &&& b.1 == bound_width(toks_view(tokens@), p as int)
            &&& p + b.1 <= tokens@.len()
        },
        r matches Err(e) ==> e == (HeaderError {
            part,
            loc: loc_at(toks_view(tokens@), bound_err_pos(toks_view(tokens@), p as int)),
        }),
{
    proof {
        lemma_toks_view_elts(tokens@);
    }
    let has_minus = p < tokens.len() && (match &tokens[p] {
        Token::Punct { ch, .. } => *ch == '-',
        _ => false,
    });
    if has_minus {
        if p + 1 == tokens.len() {
            return Err(err_at(tokens, p + 1, part));
        }
        match &tokens[p + 1] {
            Token::IntLit { value, .. } => {
                if *value == i64::MIN {
                    return Err(err_at(tokens, p + 1, part));
                }
                Ok((-*value, 2))
            },
            _ => Err(err_at(tokens, p + 1, part)),
        }
    } else {
        if p == tokens.len() {
            return Err(err_at(tokens, p, part));
        }
        match &tokens[p] {
            Token::IntLit { value, .. } => Ok((*value, 1)),
            _ => Err(err_at(tokens, p, part)),
        }
    }
}

/// Parses the invocation header.
///
/// Succeeds exactly on well-formed input, returning the loop identifier,
/// the two bounds with their signs applied, and a copy of the body;
/// otherwise reports the first missing or ill-shaped element at the
/// offending token's location.
pub fn parse_header(tokens: &Vec<Token>) -> (r: Result<Invocation, HeaderError>)
    ensures
        r is Ok <==> header_ok(toks_view(tokens@)),
        r matches Ok(inv) ==> inv@ == header_inv(toks_view(tokens@)),
        r matches Err(e) ==> e == header_err(toks_view(tokens@)),
{
    proof {
        lemma_toks_view_elts(tokens@);
    }
    if tokens.len() == 0 {
        return Err(err_at(tokens, 0, HeaderPart::LoopIdent));
    }
    let ident: String = match &tokens[0] {
        Token::Ident { text, .. } => text.clone(),
        _ => {
            return Err(err_at(tokens, 0, HeaderPart::LoopIdent));
        },
    };
    if tokens.len() == 1 {
        return Err(err_at(tokens, 1, HeaderPart::InKeyword));
    }
    match &tokens[1] {
        Token::Ident { text, .. } => {
            let kw = "in".to_owned();
            proof {
                reveal_strlit("in");
                assert(kw@ =~= kw_in());
            }
            if !text.eq(&kw) {
                return Err(err_at(tokens, 1, HeaderPart::InKeyword));
            }
        },
        _ => {
            return Err(err_at(tokens, 1, HeaderPart::InKeyword));
        },
    }
    let (start, start_width) = match parse_bound(tokens, 2, HeaderPart::RangeStart) {
        Ok(b) => b,
        Err(e) => {
            return Err(e);
        },
    };
    let dots = 2 + start_width;
    if dots >= tokens.len() {
        return Err(err_at(tokens, dots, HeaderPart::RangeDots));
    }
    match &tokens[dots] {
        Token::Punct { ch, .. } => {
            if *ch != '.' {
                return Err(err_at(tokens, dots, HeaderPart::RangeDots));
            }
        },
        _ => {
            return Err(err_at(tokens, dots, HeaderPart::RangeDots));
        },
    }
    if dots + 1 >= tokens.len() {
        return Err(err_at(tokens, dots + 1, HeaderPart::RangeDots));
    }
    match &tokens[dots + 1] {
        Token::Punct { ch, .. } => {
            if *ch != '.' {
                return Err(err_at(tokens, dots + 1, HeaderPart::RangeDots));
            }
        },
        _ => {
            return Err(err_at(tokens, dots + 1, HeaderPart::RangeDots));
        },
    }
    let (end, end_width) = match parse_bound(tokens, dots + 2, HeaderPart::RangeEnd) {
        Ok(b) => b,
        Err(e) => {
            return Err(e);
        },
    };
    let body_pos = dots + 2 + end_width;
    if body_pos >= tokens.len() {
        return Err(err_at(tokens, body_pos, HeaderPart::Body));
    }
    let body: Vec<Token> = match &tokens[body_pos] {
        Token::Group { delim, inner, .. } => {
            if !(*delim == Delim::Brace) {
                return Err(err_at(tokens, body_pos, HeaderPart::Body));
            }
            dup_tokens(inner)
        },
        _ => {
            return Err(err_at(tokens, body_pos, HeaderPart::Body));
        },
    };
    if tokens.len() > body_pos + 1 {
        return Err(err_at(tokens, body_pos + 1, HeaderPart::End));
    }
    Ok(Invocation { ident, start, end, body })
}

} // verus!
