//! Header parsing: the accepted shape and each diagnostic, at the offending
//! token's location.

use seq_expand::expand::expand_tokens;
use seq_expand::header::{parse_header, HeaderError, HeaderPart};
use seq_expand::token::{Delim, Token};

fn ident(text: &str, loc: u64) -> Token {
    Token::Ident { text: text.to_string(), loc }
}

fn intlit(value: i64, loc: u64) -> Token {
    Token::IntLit { value, loc }
}

fn punct(ch: char, loc: u64) -> Token {
    Token::Punct { ch, loc }
}

fn group(delim: Delim, inner: Vec<Token>, loc: u64) -> Token {
    Token::Group { delim, inner, loc }
}

fn good_header() -> Vec<Token> {
    vec![
        ident("N", 0),
        ident("in", 1),
        intlit(0, 2),
        punct('.', 3),
        punct('.', 4),
        intlit(3, 5),
        group(Delim::Brace, vec![ident("N", 7)], 6),
    ]
}

#[test]
fn well_formed_header_parses() {
    let inv = parse_header(&good_header()).unwrap();
    assert_eq!(inv.ident, "N".to_string());
    assert_eq!(inv.start, 0);
    assert_eq!(inv.end, 3);
    assert_eq!(inv.body, vec![ident("N", 7)]);
}

#[test]
fn negative_bounds_are_accepted_as_values() {
    let mut tokens = good_header();
    tokens[2] = intlit(-4, 2);
    tokens[5] = intlit(-1, 5);
    let inv = parse_header(&tokens).unwrap();
    assert_eq!(inv.start, -4);
    assert_eq!(inv.end, -1);
}

#[test]
fn empty_input_wants_loop_identifier() {
    let e = parse_header(&vec![]).unwrap_err();
    assert_eq!(
        e,
        HeaderError { part: HeaderPart::LoopIdent, loc: None }
    );
}

#[test]
fn non_identifier_start_is_rejected() {
    let mut tokens = good_header();
    tokens[0] = intlit(9, 40);
    let e = parse_header(&tokens).unwrap_err();
    assert_eq!(
        e,
        HeaderError { part: HeaderPart::LoopIdent, loc: Some(40) }
    );
}

#[test]
fn missing_in_keyword_reports_following_token() {
    // seq N 0..3 { .. }: the diagnostic points at the token after the
    // identifier.
    let tokens = vec![
        ident("N", 0),
        intlit(0, 41),
        punct('.', 3),
        punct('.', 4),
        intlit(3, 5),
        group(Delim::Brace, vec![], 6),
    ];
    let e = parse_header(&tokens).unwrap_err();
    assert_eq!(
        e,
        HeaderError { part: HeaderPart::InKeyword, loc: Some(41) }
    );
    assert_eq!(expand_tokens(&tokens).unwrap_err(), e);
}

#[test]
fn wrong_keyword_is_rejected() {
    let mut tokens = good_header();
    tokens[1] = ident("of", 42);
    let e = parse_header(&tokens).unwrap_err();
    assert_eq!(
        e,
        HeaderError { part: HeaderPart::InKeyword, loc: Some(42) }
    );
}

#[test]
fn input_ending_after_keyword_wants_lower_bound() {
    let tokens = vec![ident("N", 0), ident("in", 1)];
    let e = parse_header(&tokens).unwrap_err();
    assert_eq!(
        e,
        HeaderError { part: HeaderPart::RangeStart, loc: None }
    );
}

#[test]
fn non_integer_lower_bound_is_rejected() {
    let mut tokens = good_header();
    tokens[2] = ident("a", 43);
    let e = parse_header(&tokens).unwrap_err();
    assert_eq!(
        e,
        HeaderError { part: HeaderPart::RangeStart, loc: Some(43) }
    );
}

#[test]
fn missing_first_dot_is_rejected() {
    let mut tokens = good_header();
    tokens[3] = punct(',', 44);
    let e = parse_header(&tokens).unwrap_err();
    assert_eq!(
        e,
        HeaderError { part: HeaderPart::RangeDots, loc: Some(44) }
    );
}

#[test]
fn missing_second_dot_is_rejected() {
    let mut tokens = good_header();
    tokens[4] = punct(';', 45);
    let e = parse_header(&tokens).unwrap_err();
    assert_eq!(
        e,
        HeaderError { part: HeaderPart::RangeDots, loc: Some(45) }
    );
}

#[test]
fn non_integer_upper_bound_is_rejected() {
    let mut tokens = good_header();
    tokens[5] = ident("end", 46);
    let e = parse_header(&tokens).unwrap_err();
    assert_eq!(
        e,
        HeaderError { part: HeaderPart::RangeEnd, loc: Some(46) }
    );
}

#[test]
fn missing_body_is_rejected() {
    let tokens = vec![
        ident("N", 0),
        ident("in", 1),
        intlit(0, 2),
        punct('.', 3),
        punct('.', 4),
        intlit(3, 5),
    ];
    let e = parse_header(&tokens).unwrap_err();
    assert_eq!(e, HeaderError { part: HeaderPart::Body, loc: None });
}

#[test]
fn non_brace_body_is_rejected() {
    let mut tokens = good_header();
    tokens[6] = group(Delim::Bracket, vec![], 47);
    let e = parse_header(&tokens).unwrap_err();
    assert_eq!(
        e,
        HeaderError { part: HeaderPart::Body, loc: Some(47) }
    );
}

#[test]
fn trailing_tokens_are_rejected() {
    let mut tokens = good_header();
    tokens.push(punct(';', 48));
    let e = parse_header(&tokens).unwrap_err();
    assert_eq!(
        e,
        HeaderError { part: HeaderPart::End, loc: Some(48) }
    );
}

#[test]
fn signed_lower_bound_parses_as_two_tokens() {
    // seq N in -2..2 { .. }: the host lexer delivers the sign as its own
    // punctuation token before the literal.
    let tokens = vec![
        ident("N", 0),
        ident("in", 1),
        punct('-', 30),
        intlit(2, 31),
        punct('.', 3),
        punct('.', 4),
        intlit(2, 5),
        group(Delim::Brace, vec![ident("N", 7)], 6),
    ];
    let inv = parse_header(&tokens).unwrap();
    assert_eq!(inv.start, -2);
    assert_eq!(inv.end, 2);
    assert_eq!(inv.body, vec![ident("N", 7)]);
}

#[test]
fn signed_upper_bound_shifts_later_positions() {
    let tokens = vec![
        ident("N", 0),
        ident("in", 1),
        intlit(0, 2),
        punct('.', 3),
        punct('.', 4),
        punct('-', 32),
        intlit(1, 33),
        group(Delim::Brace, vec![], 6),
    ];
    let inv = parse_header(&tokens).unwrap();
    assert_eq!(inv.start, 0);
    assert_eq!(inv.end, -1);
}

#[test]
fn both_bounds_signed() {
    let tokens = vec![
        ident("N", 0),
        ident("in", 1),
        punct('-', 30),
        intlit(4, 31),
        punct('.', 3),
        punct('.', 4),
        punct('-', 32),
        intlit(1, 33),
        group(Delim::Brace, vec![], 6),
    ];
    let inv = parse_header(&tokens).unwrap();
    assert_eq!(inv.start, -4);
    assert_eq!(inv.end, -1);
}

#[test]
fn sign_without_literal_is_rejected_after_the_sign() {
    let tokens = vec![
        ident("N", 0),
        ident("in", 1),
        punct('-', 30),
        punct('.', 3),
        punct('.', 4),
        intlit(3, 5),
        group(Delim::Brace, vec![], 6),
    ];
    let e = parse_header(&tokens).unwrap_err();
    assert_eq!(
        e,
        HeaderError { part: HeaderPart::RangeStart, loc: Some(3) }
    );
}

#[test]
fn sign_at_end_of_input_is_rejected() {
    let tokens = vec![ident("N", 0), ident("in", 1), punct('-', 30)];
    let e = parse_header(&tokens).unwrap_err();
    assert_eq!(
        e,
        HeaderError { part: HeaderPart::RangeStart, loc: None }
    );
}

#[test]
fn doubled_sign_is_rejected_at_the_second_sign() {
    let tokens = vec![
        ident("N", 0),
        ident("in", 1),
        punct('-', 30),
        punct('-', 34),
        intlit(5, 35),
        punct('.', 3),
        punct('.', 4),
        intlit(9, 5),
        group(Delim::Brace, vec![], 6),
    ];
    let e = parse_header(&tokens).unwrap_err();
    assert_eq!(
        e,
        HeaderError { part: HeaderPart::RangeStart, loc: Some(34) }
    );
}

#[test]
fn negating_the_minimum_value_is_rejected() {
    // The negated bound must still fit the bound's integer width.
    let tokens = vec![
        ident("N", 0),
        ident("in", 1),
        punct('-', 30),
        intlit(i64::MIN, 31),
        punct('.', 3),
        punct('.', 4),
        intlit(0, 5),
        group(Delim::Brace, vec![], 6),
    ];
    let e = parse_header(&tokens).unwrap_err();
    assert_eq!(
        e,
        HeaderError { part: HeaderPart::RangeStart, loc: Some(31) }
    );
}

#[test]
fn trailing_tokens_after_signed_bounds_are_rejected() {
    let tokens = vec![
        ident("N", 0),
        ident("in", 1),
        punct('-', 30),
        intlit(4, 31),
        punct('.', 3),
        punct('.', 4),
        punct('-', 32),
        intlit(1, 33),
        group(Delim::Brace, vec![], 6),
        punct(';', 50),
    ];
    let e = parse_header(&tokens).unwrap_err();
    assert_eq!(
        e,
        HeaderError { part: HeaderPart::End, loc: Some(50) }
    );
}

#[test]
fn any_identifier_token_can_be_the_loop_identifier() {
    // The token model has no keyword distinction: an `in` identifier token
    // is a valid loop identifier when the grammar still fits.
    let mut tokens = good_header();
    tokens[0] = ident("in", 49);
    let inv = parse_header(&tokens).unwrap();
    assert_eq!(inv.ident, "in".to_string());
}
