//! The substitution engine.
//!
//! `substitute` copies a token sequence, replacing the loop identifier by the
//! current integer value and fusing `prefix ~ <loop identifier>` into a single
//! pasted identifier; it recurses into groups.  `repeat_body` concatenates one
//! substituted copy per value of the range, in ascending order.

use vstd::prelude::*;
use vstd::string::StringExecFns;

use crate::decimal::{dec_str, i64_dec_string};
use crate::token::{tok_view, toks_view, Tok, Token};

verus! {

broadcast use crate::token::group_token_views;

/// The pasting pattern starts at `from`: an identifier, a `~`, and then an
/// identifier equal to the loop identifier, as three consecutive siblings.
pub open spec fn is_paste_at(s: Seq<Tok>, id: Seq<char>, from: int) -> bool {
    &&& 0 <= from
    &&& from + 2 < s.len()
    &&& s[from] is Ident
    &&& s[from + 1] is Punct
    &&& s[from + 1]->Punct_ch == '~'
    &&& s[from + 2] is Ident
    &&& s[from + 2]->Ident_text == id
}

/// One left-to-right substitution pass over `s`, beginning at `from`.
///
/// Pasting is checked first and consumes three tokens at once; a bare loop
/// identifier becomes an integer literal; groups are rebuilt around a
/// recursive pass over their contents; every other token is copied unchanged.
/// Synthesized tokens inherit their provenance tag from the token they
/// replace (a pasted identifier from its prefix identifier).
pub open spec fn subst_from(s: Seq<Tok>, id: Seq<char>, v: i64, from: int) -> Seq<Tok>
    decreases s, s.len() - from,
{
    if from < 0 || from >= s.len() {
        Seq::empty()
    } else if is_paste_at(s, id, from) {
        seq![
            Tok::Ident {
                text: s[from]->Ident_text + dec_str(v as int),
                loc: s[from]->Ident_loc,
            },
        ] + subst_from(s, id, v, from + 3)
    } else if s[from] is Ident && s[from]->Ident_text == id {
        seq![Tok::IntLit { value: v, loc: s[from]->Ident_loc }] + subst_from(s, id, v, from + 1)
    } else if s[from] is Group {
        seq![
            Tok::Group {
                delim: s[from]->Group_delim,
                inner: subst_from(s[from]->Group_inner, id, v, 0),
                loc: s[from]->Group_loc,
            },
        ] + subst_from(s, id, v, from + 1)
    } else {
        seq![s[from]] + subst_from(s, id, v, from + 1)
    }
}

/// The substitution pass over a whole sequence.
pub open spec fn subst_seq(s: Seq<Tok>, id: Seq<char>, v: i64) -> Seq<Tok> {
    subst_from(s, id, v, 0)
}

/// The concatenation of one substituted copy of `s` per integer in
/// `[lo, hi)`, in ascending order; empty when `lo >= hi`.
pub open spec fn repeat_concat(s: Seq<Tok>, id: Seq<char>, lo: i64, hi: i64) -> Seq<Tok>
    decreases hi - lo,
{
    if lo >= hi {
        Seq::empty()
    } else {
        subst_seq(s, id, lo) + repeat_concat(s, id, (lo + 1) as i64, hi)
    }
}

/// Copies `tokens`, substituting `v` for the loop identifier `id` and fusing
/// pasting patterns, exactly as `subst_seq` describes.
pub fn substitute(tokens: &Vec<Token>, id: &String, v: i64) -> (out: Vec<Token>)
    ensures
        toks_view(out@) == subst_seq(toks_view(tokens@), id@, v),
    decreases tokens@,
{
    let mut out: Vec<Token> = Vec::new();
    let mut i: usize = 0;
    while i < tokens.len()
        invariant
            i <= tokens.len(),
            subst_from(toks_view(tokens@), id@, v, 0) == toks_view(out@) + subst_from(
                toks_view(tokens@),
                id@,
                v,
                i as int,
            ),
        decreases tokens@.len() - i,
    {
        let ghost sv = toks_view(tokens@);
        let ghost out0 = toks_view(out@);
        let ghost i0 = i as int;
        proof {
            crate::token::lemma_toks_view_len(tokens@);
            crate::token::lemma_toks_view_index(tokens@, i0);
        }
        let mut pasted = false;
        match &tokens[i] {
            Token::Ident { text, loc } => {
                if tokens.len() - i > 2 {
                    proof {
                        if i0 + 1 < tokens@.len() {
                            crate::token::lemma_toks_view_index(tokens@, i0 + 1);
                        }
                        if i0 + 2 < tokens@.len() {
                            crate::token::lemma_toks_view_index(tokens@, i0 + 2);
                        }
                    }
                    let tilde = match &tokens[i + 1] {
                        Token::Punct { ch, .. } => *ch == '~',
                        _ => false,
                    };
                    if tilde {
                        let matches_id = match &tokens[i + 2] {
                            Token::Ident { text: t2, .. } => t2.eq(id),
                            _ => false,
                        };
                        if matches_id {
                            assert(is_paste_at(sv, id@, i0));
                            let mut new_text = text.clone();
                            let num = i64_dec_string(v);
                            new_text.append(num.as_str());
                            let t = Token::Ident { text: new_text, loc: *loc };
                            assert(tok_view(t) == Tok::Ident {
                                text: sv[i0]->Ident_text + dec_str(v as int),
                                loc: sv[i0]->Ident_loc,
                            });
                            out.push(t);
                            i = i + 3;
                            pasted = true;
                            proof {
                                assert(toks_view(out@) =~= out0 + seq![
                                    Tok::Ident {
                                        text: sv[i0]->Ident_text + dec_str(v as int),
                                        loc: sv[i0]->Ident_loc,
                                    },
                                ]);
                                assert(subst_from(sv, id@, v, 0) == toks_view(out@) + subst_from(
                                    sv,
                                    id@,
                                    v,
                                    i as int,
                                )) by {
                                    assert(out0 + (seq![
                                        Tok::Ident {
                                            text: sv[i0]->Ident_text + dec_str(v as int),
                                            loc: sv[i0]->Ident_loc,
                                        },
                                    ] + subst_from(sv, id@, v, i0 + 3)) =~= toks_view(out@)
                                        + subst_from(sv, id@, v, i0 + 3));
                                }
                            }
                        }
                    }
                }
                if !pasted {
                    assert(!is_paste_at(sv, id@, i0));
                    if text.eq(id) {
                        let t = Token::IntLit { value: v, loc: *loc };
                        out.push(t);
                    } else {
                        let t = Token::Ident { text: text.clone(), loc: *loc };
                        out.push(t);
                    }
                    i = i + 1;
                    proof {
                        assert(out0 + (seq![toks_view(out@).last()] + subst_from(sv, id@, v, i0 + 1))
                            =~= toks_view(out@) + subst_from(sv, id@, v, i0 + 1));
                    }
                }
            },
            Token::IntLit { value, loc } => {
                let t = Token::IntLit { value: *value, loc: *loc };
                out.push(t);
                i = i + 1;
                proof {
                    assert(out0 + (seq![sv[i0]] + subst_from(sv, id@, v, i0 + 1)) =~= toks_view(out@)
                        + subst_from(sv, id@, v, i0 + 1));
                }
            },
            Token::Punct { ch, loc } => {
                let t = Token::Punct { ch: *ch, loc: *loc };
                out.push(t);
                i = i + 1;
                proof {
                    assert(out0 + (seq![sv[i0]] + subst_from(sv, id@, v, i0 + 1)) =~= toks_view(out@)
                        + subst_from(sv, id@, v, i0 + 1));
                }
            },
            Token::Group { delim, inner, loc } => {
                let new_inner = substitute(inner, id, v);
                let t = Token::Group { delim: *delim, inner: new_inner, loc: *loc };
                assert(tok_view(t) == Tok::Group {
                    delim: sv[i0]->Group_delim,
                    inner: subst_from(sv[i0]->Group_inner, id@, v, 0),
                    loc: sv[i0]->Group_loc,
                });
                out.push(t);
                i = i + 1;
                proof {
                    assert(out0 + (seq![tok_view(t)] + subst_from(sv, id@, v, i0 + 1)) =~= toks_view(
                        out@,
                    ) + subst_from(sv, id@, v, i0 + 1));
                }
            },
        }
    }
    proof {
        assert(subst_from(toks_view(tokens@), id@, v, tokens@.len() as int) =~= Seq::<Tok>::empty());
        assert(toks_view(out@) + Seq::<Tok>::empty() =~= toks_view(out@));
    }
    out
}

/// Concatenates one substituted copy of `tokens` per integer in `[lo, hi)`,
/// ascending, exactly as `repeat_concat` describes.
pub fn repeat_body(tokens: &Vec<Token>, id: &String, lo: i64, hi: i64) -> (out: Vec<Token>)
    ensures
        toks_view(out@) == repeat_concat(toks_view(tokens@), id@, lo, hi),
{
    let mut out: Vec<Token> = Vec::new();
    let mut j: i64 = lo;
    while j < hi
        invariant
            lo <= j,
            j <= hi || j == lo,
            repeat_concat(toks_view(tokens@), id@, lo, hi) == toks_view(out@) + repeat_concat(
                toks_view(tokens@),
                id@,
                j,
                hi,
            ),
        decreases hi - j,
    {
        let ghost out0 = toks_view(out@);
        let ghost j0 = j;
        let mut part = substitute(tokens, id, j);
        out.append(&mut part);
        j = j + 1;
        proof {
            assert(out0 + (subst_seq(toks_view(tokens@), id@, j0) + repeat_concat(
                toks_view(tokens@),
                id@,
                j,
                hi,
            )) =~= toks_view(out@) + repeat_concat(toks_view(tokens@), id@, j, hi));
        }
    }
    proof {
        assert(toks_view(out@) + repeat_concat(toks_view(tokens@), id@, j, hi) =~= toks_view(out@));
    }
    out
}

} // verus!
