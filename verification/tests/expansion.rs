//! End-to-end expansion behaviour: whole-body repetition, marker expansion,
//! pasting, empty ranges, and scanner idempotence.

use seq_expand::expand::{expand, expand_tokens};
use seq_expand::header::Invocation;
use seq_expand::scan::scan;
use seq_expand::subst::substitute;
use seq_expand::token::{dup_tokens, Delim, Token};

fn ident(text: &str, loc: u64) -> Token {
    Token::Ident { text: text.to_string(), loc }
}

fn intlit(value: i64, loc: u64) -> Token {
    Token::IntLit { value, loc }
}

fn punct(ch: char, loc: u64) -> Token {
    Token::Punct { ch, loc }
}

fn group(delim: Delim, inner: Vec<Token>, loc: u64) -> Token {
    Token::Group { delim, inner, loc }
}

fn invocation_tokens(id: &str, start: i64, end: i64, body: Vec<Token>) -> Vec<Token> {
    vec![
        ident(id, 0),
        ident("in", 1),
        intlit(start, 2),
        punct('.', 3),
        punct('.', 4),
        intlit(end, 5),
        group(Delim::Brace, body, 6),
    ]
}

fn scenario_a_body() -> Vec<Token> {
    // fn f~N() -> i32 { N }
    vec![
        ident("fn", 10),
        ident("f", 11),
        punct('~', 12),
        ident("N", 13),
        group(Delim::Paren, vec![], 14),
        punct('-', 15),
        punct('>', 16),
        ident("i32", 17),
        group(Delim::Brace, vec![ident("N", 18)], 19),
    ]
}

fn scenario_a_copy(i: i64) -> Vec<Token> {
    vec![
        ident("fn", 10),
        ident(&format!("f{}", i), 11),
        group(Delim::Paren, vec![], 14),
        punct('-', 15),
        punct('>', 16),
        ident("i32", 17),
        group(Delim::Brace, vec![intlit(i, 18)], 19),
    ]
}

#[test]
fn scenario_three_functions() {
    // seq N in 0..3 { fn f~N() -> i32 { N } } gives f0, f1, f2 in order.
    let tokens = invocation_tokens("N", 0, 3, scenario_a_body());
    let out = expand_tokens(&tokens).unwrap();
    let mut expected = Vec::new();
    for i in 0..3 {
        expected.extend(scenario_a_copy(i));
    }
    assert_eq!(out, expected);
}

fn scenario_b_body() -> Vec<Token> {
    // const ARR: [i32; 2] = [ #(N,)* ];
    vec![
        ident("const", 10),
        ident("ARR", 11),
        punct(':', 12),
        group(
            Delim::Bracket,
            vec![ident("i32", 13), punct(';', 14), intlit(2, 15)],
            16,
        ),
        punct('=', 17),
        group(
            Delim::Bracket,
            vec![
                punct('#', 18),
                group(Delim::Paren, vec![ident("N", 19), punct(',', 20)], 21),
                punct('*', 22),
            ],
            23,
        ),
        punct(';', 24),
    ]
}

#[test]
fn scenario_marker_in_array() {
    // seq N in 0..2 { const ARR: [i32; 2] = [ #(N,)* ]; } repeats only the
    // marked subtree; the surrounding definition appears exactly once.
    let tokens = invocation_tokens("N", 0, 2, scenario_b_body());
    let out = expand_tokens(&tokens).unwrap();
    let expected = vec![
        ident("const", 10),
        ident("ARR", 11),
        punct(':', 12),
        group(
            Delim::Bracket,
            vec![ident("i32", 13), punct(';', 14), intlit(2, 15)],
            16,
        ),
        punct('=', 17),
        group(
            Delim::Bracket,
            vec![intlit(0, 19), punct(',', 20), intlit(1, 19), punct(',', 20)],
            23,
        ),
        punct(';', 24),
    ];
    assert_eq!(out, expected);
}

#[test]
fn scenario_empty_range_no_marker() {
    // seq N in 5..5 { struct S~N; } produces no tokens at all.
    let body = vec![
        ident("struct", 10),
        ident("S", 11),
        punct('~', 12),
        ident("N", 13),
        punct(';', 14),
    ];
    let tokens = invocation_tokens("N", 5, 5, body);
    let out = expand_tokens(&tokens).unwrap();
    assert_eq!(out, Vec::<Token>::new());
}

#[test]
fn empty_range_marker_case() {
    // With start == end the marker expands to nothing; the rest of the body
    // stands exactly once.
    let tokens = invocation_tokens("N", 2, 2, scenario_b_body());
    let out = expand_tokens(&tokens).unwrap();
    let expected = vec![
        ident("const", 10),
        ident("ARR", 11),
        punct(':', 12),
        group(
            Delim::Bracket,
            vec![ident("i32", 13), punct(';', 14), intlit(2, 15)],
            16,
        ),
        punct('=', 17),
        group(Delim::Bracket, vec![], 23),
        punct(';', 24),
    ];
    assert_eq!(out, expected);
}

#[test]
fn negative_range_expands_end_to_end() {
    // seq N in -2..1 { N } as the host delivers it: the sign is a separate
    // punctuation token before the lower bound.
    let tokens = vec![
        ident("N", 0),
        ident("in", 1),
        punct('-', 30),
        intlit(2, 31),
        punct('.', 3),
        punct('.', 4),
        intlit(1, 5),
        group(Delim::Brace, vec![ident("N", 7)], 6),
    ];
    let out = expand_tokens(&tokens).unwrap();
    assert_eq!(out, vec![intlit(-2, 7), intlit(-1, 7), intlit(0, 7)]);
}

#[test]
fn reversed_range_yields_nothing() {
    let body = vec![ident("N", 10)];
    let tokens = invocation_tokens("N", 3, 0, body);
    let out = expand_tokens(&tokens).unwrap();
    assert_eq!(out, Vec::<Token>::new());
}

#[test]
fn pasting_determinism() {
    // prefix~N over 0..3 gives the fused identifiers prefix0 prefix1 prefix2,
    // each carrying the prefix token's provenance tag.
    let body = vec![ident("prefix", 7), punct('~', 8), ident("N", 9)];
    let tokens = invocation_tokens("N", 0, 3, body);
    let out = expand_tokens(&tokens).unwrap();
    let expected = vec![
        ident("prefix0", 7),
        ident("prefix1", 7),
        ident("prefix2", 7),
    ];
    assert_eq!(out, expected);
}

#[test]
fn no_marker_expansion_equals_manual_concatenation() {
    // Without a marker, expand equals the concatenation of substituted
    // whole-body copies, in ascending range order.
    let body = scenario_a_body();
    let id = "N".to_string();
    let mut manual: Vec<Token> = Vec::new();
    for i in -2..2 {
        manual.extend(substitute(&body, &id, i));
    }
    let inv = Invocation {
        ident: id.clone(),
        start: -2,
        end: 2,
        body: dup_tokens(&body),
    };
    let auto = expand(&inv);
    assert_eq!(auto, manual);
}

#[test]
fn scanner_is_idempotent_on_expanded_output() {
    // Expanding removes the only marker; scanning the output finds nothing
    // and leaves the tree unchanged, twice over.
    let tokens = invocation_tokens("N", 0, 2, scenario_b_body());
    let out = expand_tokens(&tokens).unwrap();
    let id = "N".to_string();
    let (once, found_once) = scan(&out, &id, 0, 2);
    assert!(!found_once);
    assert_eq!(once, out);
    let (twice, found_twice) = scan(&once, &id, 0, 2);
    assert!(!found_twice);
    assert_eq!(twice, once);
}

#[test]
fn only_first_marker_is_expanded() {
    // Two sibling markers: the first is expanded, the second is copied
    // through untouched.
    let body = vec![
        punct('#', 1),
        group(Delim::Paren, vec![ident("N", 2)], 3),
        punct('*', 4),
        punct('#', 5),
        group(Delim::Paren, vec![ident("N", 6)], 7),
        punct('*', 8),
    ];
    let tokens = invocation_tokens("N", 0, 2, body);
    let out = expand_tokens(&tokens).unwrap();
    let expected = vec![
        intlit(0, 2),
        intlit(1, 2),
        punct('#', 5),
        group(Delim::Paren, vec![ident("N", 6)], 7),
        punct('*', 8),
    ];
    assert_eq!(out, expected);
}

#[test]
fn marker_found_inside_nested_group() {
    let body = vec![group(
        Delim::Brace,
        vec![
            punct('#', 1),
            group(Delim::Paren, vec![ident("N", 2)], 3),
            punct('*', 4),
        ],
        9,
    )];
    let tokens = invocation_tokens("N", 1, 3, body);
    let out = expand_tokens(&tokens).unwrap();
    let expected = vec![group(Delim::Brace, vec![intlit(1, 2), intlit(2, 2)], 9)];
    assert_eq!(out, expected);
}

#[test]
fn hash_with_bracket_group_is_not_a_marker() {
    // #[N]* is not the marker pattern (the group must be parenthesized), so
    // the whole body falls back to repetition.
    let body = vec![
        punct('#', 1),
        group(Delim::Bracket, vec![ident("N", 2)], 3),
        punct('*', 4),
    ];
    let tokens = invocation_tokens("N", 0, 2, body);
    let out = expand_tokens(&tokens).unwrap();
    let expected = vec![
        punct('#', 1),
        group(Delim::Bracket, vec![intlit(0, 2)], 3),
        punct('*', 4),
        punct('#', 1),
        group(Delim::Bracket, vec![intlit(1, 2)], 3),
        punct('*', 4),
    ];
    assert_eq!(out, expected);
}

#[test]
fn substitute_leaves_other_identifiers_alone() {
    let body = vec![ident("f", 1), punct('~', 2), ident("M", 3)];
    let id = "N".to_string();
    let out = substitute(&body, &id, 7);
    assert_eq!(out, vec![ident("f", 1), punct('~', 2), ident("M", 3)]);
}

#[test]
fn substitute_pastes_even_when_prefix_is_the_loop_identifier() {
    let body = vec![ident("N", 1), punct('~', 2), ident("N", 3)];
    let id = "N".to_string();
    let out = substitute(&body, &id, 4);
    assert_eq!(out, vec![ident("N4", 1)]);
}

#[test]
fn substitute_replaces_bare_identifier_with_literal() {
    let body = vec![ident("N", 1)];
    let id = "N".to_string();
    let out = substitute(&body, &id, -3);
    assert_eq!(out, vec![intlit(-3, 1)]);
}

#[test]
fn substitute_pastes_negative_values_with_sign() {
    let body = vec![ident("x", 1), punct('~', 2), ident("N", 3)];
    let id = "N".to_string();
    let out = substitute(&body, &id, -2);
    assert_eq!(out, vec![ident("x-2", 1)]);
}

#[test]
fn incomplete_pasting_pattern_is_copied_through() {
    // A trailing `f ~` has no third token, so nothing fuses.
    let body = vec![ident("f", 1), punct('~', 2)];
    let id = "N".to_string();
    let out = substitute(&body, &id, 9);
    assert_eq!(out, vec![ident("f", 1), punct('~', 2)]);
}

#[test]
fn duplication_preserves_structure() {
    let body = scenario_b_body();
    let copy = dup_tokens(&body);
    assert_eq!(copy, body);
}
