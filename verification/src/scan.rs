//! The repetition-marker scanner.
//!
//! `scan` walks a token sequence depth first, left to right, looking for the
//! marker `#( ... )*`: a `#` punctuation, a parenthesized group, and a `*`
//! punctuation as three consecutive siblings, at any nesting depth.  The
//! first marker encountered is replaced in place by the concatenated
//! expansion of its subtree; every other token — including everything after
//! the marker — is copied unchanged.  The returned flag says whether a
//! marker was found; when it is false the output equals the input.

use vstd::prelude::*;

use crate::subst::{repeat_body, repeat_concat};
use crate::token::{dup_token, lemma_toks_view_index, lemma_toks_view_len, tok_view, toks_view,
    Delim, Tok, Token};

verus! {

broadcast use crate::token::group_token_views;

/// The repetition marker starts at `from`: `#`, a parenthesized group, `*`.
pub open spec fn is_marker_at(s: Seq<Tok>, from: int) -> bool {
    &&& 0 <= from
    &&& from + 2 < s.len()
    &&& s[from] is Punct
    &&& s[from]->Punct_ch == '#'
    &&& s[from + 1] is Group
    &&& s[from + 1]->Group_delim == Delim::Paren
    &&& s[from + 2] is Punct
    &&& s[from + 2]->Punct_ch == '*'
}

/// Whether a marker occurs in `s` at or after `from`, at any nesting depth.
pub open spec fn has_marker_from(s: Seq<Tok>, from: int) -> bool
    decreases s, s.len() - from,
{
    if from < 0 || from >= s.len() {
        false
    } else if is_marker_at(s, from) {
        true
    } else if s[from] is Group {
        has_marker_from(s[from]->Group_inner, 0) || has_marker_from(s, from + 1)
    } else {
        has_marker_from(s, from + 1)
    }
}

/// Whether a marker occurs anywhere in `s`.
pub open spec fn has_marker(s: Seq<Tok>) -> bool {
    has_marker_from(s, 0)
}

/// One scanning pass over `s`, beginning at `from`.
///
/// The first marker encountered — depth first, left to right — is replaced
/// by `repeat_concat` of its subtree; the tokens after it are copied
/// unchanged, so at most one marker is expanded per pass.  A group is
/// rebuilt with the same delimiter and provenance tag around the scan of its
/// contents.  No substitution happens outside the marker's subtree.
pub open spec fn scan_from(s: Seq<Tok>, id: Seq<char>, lo: i64, hi: i64, from: int) -> (Seq<
    Tok,
>, bool)
    decreases s, s.len() - from,
{
    if from < 0 || from >= s.len() {
        (Seq::empty(), false)
    } else if is_marker_at(s, from) {
        (
            repeat_concat(s[from + 1]->Group_inner, id, lo, hi) + s.subrange(
                from + 3,
                s.len() as int,
            ),
            true,
        )
    } else if s[from] is Group {
        let inner_scan = scan_from(s[from]->Group_inner, id, lo, hi, 0);
        if inner_scan.1 {
            (
                seq![
                    Tok::Group {
                        delim: s[from]->Group_delim,
                        inner: inner_scan.0,
                        loc: s[from]->Group_loc,
                    },
                ] + s.subrange(from + 1, s.len() as int),
                true,
            )
        } else {
            let rest = scan_from(s, id, lo, hi, from + 1);
            (seq![s[from]] + rest.0, rest.1)
        }
    } else {
        let rest = scan_from(s, id, lo, hi, from + 1);
        (seq![s[from]] + rest.0, rest.1)
    }
}

/// The scanning pass over a whole sequence.
pub open spec fn scan_seq(s: Seq<Tok>, id: Seq<char>, lo: i64, hi: i64) -> (Seq<Tok>, bool) {
    scan_from(s, id, lo, hi, 0)
}

/// The scanner's flag reports exactly whether a marker occurs at or after
/// `from`; it does not depend on the loop identifier or the range.
pub proof fn lemma_scan_found_iff_marker(s: Seq<Tok>, id: Seq<char>, lo: i64, hi: i64, from: int)
    ensures
        scan_from(s, id, lo, hi, from).1 == has_marker_from(s, from),
    decreases s, s.len() - from,
{
    if from < 0 || from >= s.len() {
    } else if is_marker_at(s, from) {
    } else if s[from] is Group {
        lemma_scan_found_iff_marker(s[from]->Group_inner, id, lo, hi, 0);
        lemma_scan_found_iff_marker(s, id, lo, hi, from + 1);
    } else {
        lemma_scan_found_iff_marker(s, id, lo, hi, from + 1);
    }
}

/// A scan that finds no marker returns its input unchanged: the pass is
/// side-effect-free when nothing matches.
pub proof fn lemma_scan_not_found(s: Seq<Tok>, id: Seq<char>, lo: i64, hi: i64, from: int)
    requires
        0 <= from <= s.len(),
        !has_marker_from(s, from),
    ensures
        scan_from(s, id, lo, hi, from).0 == s.subrange(from, s.len() as int),
        !scan_from(s, id, lo, hi, from).1,
    decreases s, s.len() - from,
{
    lemma_scan_found_iff_marker(s, id, lo, hi, from);
    if from >= s.len() {
        assert(s.subrange(from, s.len() as int) =~= Seq::<Tok>::empty());
    } else {
        lemma_scan_not_found(s, id, lo, hi, from + 1);
        assert(seq![s[from]] + s.subrange(from + 1, s.len() as int) =~= s.subrange(
            from,
            s.len() as int,
        ));
    }
}

/// Scans `tokens` for the first repetition marker and expands it in place,
/// exactly as `scan_seq` describes; the flag reports whether one was found.
pub fn scan(tokens: &Vec<Token>, id: &String, lo: i64, hi: i64) -> (r: (Vec<Token>, bool))
    ensures
        toks_view(r.0@) == scan_seq(toks_view(tokens@), id@, lo, hi).0,
        r.1 == scan_seq(toks_view(tokens@), id@, lo, hi).1,
    decreases tokens@,
{
    let mut out: Vec<Token> = Vec::new();
    let mut found = false;
    let mut i: usize = 0;
    while i < tokens.len()
        invariant
            i <= tokens.len(),
            !found ==> scan_from(toks_view(tokens@), id@, lo, hi, 0).0 == toks_view(out@)
                + scan_from(toks_view(tokens@), id@, lo, hi, i as int).0,
            !found ==> scan_from(toks_view(tokens@), id@, lo, hi, 0).1 == scan_from(
                toks_view(tokens@),
                id@,
                lo,
                hi,
                i as int,
            ).1,
            found ==> scan_from(toks_view(tokens@), id@, lo, hi, 0).0 == toks_view(out@)
                + toks_view(tokens@).subrange(i as int, toks_view(tokens@).len() as int),
            found ==> scan_from(toks_view(tokens@), id@, lo, hi, 0).1,
        decreases tokens@.len() - i,
    {
        let ghost sv = toks_view(tokens@);
        let ghost out0 = toks_view(out@);
        let ghost i0 = i as int;
        proof {
            lemma_toks_view_len(tokens@);
            lemma_toks_view_index(tokens@, i0);
        }
        if found {
            let t = dup_token(&tokens[i]);
            out.push(t);
            i = i + 1;
            proof {
                assert(sv.subrange(i0, sv.len() as int) =~= seq![sv[i0]] + sv.subrange(
                    i0 + 1,
                    sv.len() as int,
                ));
                assert(out0 + (seq![sv[i0]] + sv.subrange(i0 + 1, sv.len() as int)) =~= toks_view(
                    out@,
                ) + sv.subrange(i0 + 1, sv.len() as int));
            }
        } else {
            let mut consumed = false;
            if tokens.len() - i > 2 {
                proof {
                    lemma_toks_view_index(tokens@, i0 + 1);
                    lemma_toks_view_index(tokens@, i0 + 2);
                }
                let hash_ok = match &tokens[i] {
                    Token::Punct { ch, .. } => *ch == '#',
                    _ => false,
                };
                let group_ok = match &tokens[i + 1] {
                    Token::Group { delim, .. } => *delim == Delim::Paren,
                    _ => false,
                };
                let star_ok = match &tokens[i + 2] {
                    Token::Punct { ch, .. } => *ch == '*',
                    _ => false,
                };
                if hash_ok && group_ok && star_ok {
                    assert(is_marker_at(sv, i0));
                    match &tokens[i + 1] {
                        Token::Group { inner, .. } => {
                            let mut exp = repeat_body(inner, id, lo, hi);
                            out.append(&mut exp);
                        },
                        _ => {},
                    }
                    found = true;
                    i = i + 3;
                    consumed = true;
                    proof {
                        assert(out0 + (repeat_concat(sv[i0 + 1]->Group_inner, id@, lo, hi)
                            + sv.subrange(i0 + 3, sv.len() as int)) =~= toks_view(out@)
                            + sv.subrange(i0 + 3, sv.len() as int));
                    }
                }
            }
            if !consumed {
                assert(!is_marker_at(sv, i0));
                match &tokens[i] {
                    Token::Group { delim, inner, loc } => {
                        let rr = scan(inner, id, lo, hi);
                        let new_inner = rr.0;
                        let f = rr.1;
                        proof {
                            lemma_scan_found_iff_marker(toks_view(inner@), id@, lo, hi, 0);
                        }
                        if f {
                            let t = Token::Group { delim: *delim, inner: new_inner, loc: *loc };
                            out.push(t);
                            found = true;
                            i = i + 1;
                            proof {
                                assert(out0 + (seq![
                                    Tok::Group {
                                        delim: sv[i0]->Group_delim,
                                        inner: scan_from(sv[i0]->Group_inner, id@, lo, hi, 0).0,
                                        loc: sv[i0]->Group_loc,
                                    },
                                ] + sv.subrange(i0 + 1, sv.len() as int)) =~= toks_view(out@)
                                    + sv.subrange(i0 + 1, sv.len() as int));
                            }
                        } else {
                            proof {
                                lemma_scan_not_found(toks_view(inner@), id@, lo, hi, 0);
                                assert(toks_view(inner@).subrange(
                                    0,
                                    toks_view(inner@).len() as int,
                                ) =~= toks_view(inner@));
                            }
                            let t = Token::Group { delim: *delim, inner: new_inner, loc: *loc };
                            assert(tok_view(t) == sv[i0]);
                            out.push(t);
                            i = i + 1;
                            proof {
                                assert(out0 + (seq![sv[i0]] + scan_from(sv, id@, lo, hi, i0 + 1).0)
                                    =~= toks_view(out@) + scan_from(sv, id@, lo, hi, i0 + 1).0);
                            }
                        }
                    },
                    _ => {
                        let t = dup_token(&tokens[i]);
                        out.push(t);
                        i = i + 1;
                        proof {
                            assert(out0 + (seq![sv[i0]] + scan_from(sv, id@, lo, hi, i0 + 1).0)
                                =~= toks_view(out@) + scan_from(sv, id@, lo, hi, i0 + 1).0);
                        }
                    },
                }
            }
        }
    }
    proof {
        lemma_toks_view_len(tokens@);
        if found {
            assert(toks_view(tokens@).subrange(
                tokens@.len() as int,
                toks_view(tokens@).len() as int,
            ) =~= Seq::<Tok>::empty());
        }
        assert(toks_view(out@) + Seq::<Tok>::empty() =~= toks_view(out@));
    }
    (out, found)
}

} // verus!
