//! The abstract token tree that the engine rewrites, together with its
//! mathematical model.
//!
//! A `Token` is an identifier, an integer literal, a punctuation character,
//! or a delimited group of nested tokens.  Every token carries an opaque
//! provenance tag (`loc`) that rewrites preserve; the engine never reads it,
//! it only copies it onto the tokens of the output.

use vstd::prelude::*;

verus! {

/// The delimiter shape of a token group.
#[derive(Clone, Copy, PartialEq, Eq, Structural, Debug)]
pub enum Delim {
    Paren,
    Bracket,
    Brace,
}

/// The mathematical model of a token: identifier text becomes a `Seq<char>`,
/// group contents become a `Seq<Tok>`.  Provenance tags are carried along
/// unchanged so that contracts can state exactly which tag each output token
/// inherits.
pub enum Tok {
    Ident { text: Seq<char>, loc: u64 },
    IntLit { value: i64, loc: u64 },
    Punct { ch: char, loc: u64 },
    Group { delim: Delim, inner: Seq<Tok>, loc: u64 },
}

/// An executable token tree.
#[derive(Debug, PartialEq, Eq)]
pub enum Token {
    Ident { text: String, loc: u64 },
    IntLit { value: i64, loc: u64 },
    Punct { ch: char, loc: u64 },
    Group { delim: Delim, inner: Vec<Token>, loc: u64 },
}

/// The model of one executable token.
pub open spec fn tok_view(t: Token) -> Tok
    decreases t,
{
    match t {
        Token::Ident { text, loc } => Tok::Ident { text: text@, loc },
        Token::IntLit { value, loc } => Tok::IntLit { value, loc },
        Token::Punct { ch, loc } => Tok::Punct { ch, loc },
        Token::Group { delim, inner, loc } => Tok::Group {
            delim,
            inner: toks_view(inner@),
            loc,
        },
    }
}

/// The model of a sequence of executable tokens, element by element.
pub open spec fn toks_view(s: Seq<Token>) -> Seq<Tok>
    decreases s,
{
    if s.len() == 0 {
        Seq::empty()
    } else {
        seq![tok_view(s[0])] + toks_view(s.drop_first())
    }
}

impl View for Token {
    type V = Tok;

    open spec fn view(&self) -> Tok {
        tok_view(*self)
    }
}

/// `toks_view` maps a sequence pointwise: it keeps the length and models
/// each element on its own.
pub broadcast proof fn lemma_toks_view_len(s: Seq<Token>)
    ensures
        #[trigger] toks_view(s).len() == s.len(),
    decreases s,
{
    if s.len() > 0 {
        lemma_toks_view_len(s.drop_first());
    }
}

/// Indexing the model of a sequence is the model of the indexed element.
pub broadcast proof fn lemma_toks_view_index(s: Seq<Token>, i: int)
    requires
        0 <= i < s.len(),
    ensures
        #[trigger] toks_view(s)[i] == tok_view(s[i]),
    decreases s,
{
    lemma_toks_view_len(s);
    if i > 0 {
        lemma_toks_view_index(s.drop_first(), i - 1);
    }
}

/// The model of a one-token sequence.
pub broadcast proof fn lemma_toks_view_singleton(t: Token)
    ensures
        #[trigger] toks_view(seq![t]) == seq![tok_view(t)],
{
    assert(seq![t].drop_first() =~= Seq::<Token>::empty());
    assert(toks_view(Seq::<Token>::empty()) =~= Seq::<Tok>::empty());
    assert(toks_view(seq![t]) =~= seq![tok_view(t)]);
}

/// Modelling a concatenation concatenates the models.
pub broadcast proof fn lemma_toks_view_concat(a: Seq<Token>, b: Seq<Token>)
    ensures
        #[trigger] toks_view(a + b) == toks_view(a) + toks_view(b),
{
    lemma_toks_view_len(a);
    lemma_toks_view_len(b);
    lemma_toks_view_len(a + b);
    assert forall|i: int| 0 <= i < a.len() + b.len() implies toks_view(a + b)[i] == (toks_view(a)
        + toks_view(b))[i] by {
        lemma_toks_view_index(a + b, i);
        if i < a.len() {
            lemma_toks_view_index(a, i);
        } else {
            lemma_toks_view_index(b, i - a.len());
        }
    }
    assert(toks_view(a + b) =~= toks_view(a) + toks_view(b));
}

/// Modelling a pushed sequence pushes the model of the new element.
pub broadcast proof fn lemma_toks_view_push(s: Seq<Token>, t: Token)
    ensures
        #[trigger] toks_view(s.push(t)) == toks_view(s).push(tok_view(t)),
{
    lemma_toks_view_singleton(t);
    lemma_toks_view_concat(s, seq![t]);
    assert(s.push(t) =~= s + seq![t]);
    assert(toks_view(s).push(tok_view(t)) =~= toks_view(s) + seq![tok_view(t)]);
}

/// The pointwise description of `toks_view`, every index at once.
pub proof fn lemma_toks_view_elts(s: Seq<Token>)
    ensures
        toks_view(s).len() == s.len(),
        forall|j: int| 0 <= j < s.len() ==> #[trigger] toks_view(s)[j] == tok_view(s[j]),
{
    lemma_toks_view_len(s);
    assert forall|j: int| 0 <= j < s.len() implies #[trigger] toks_view(s)[j] == tok_view(s[j]) by {
        lemma_toks_view_index(s, j);
    }
}

pub broadcast group group_token_views {
    lemma_toks_view_len,
    lemma_toks_view_index,
    lemma_toks_view_singleton,
    lemma_toks_view_concat,
    lemma_toks_view_push,
}

/// A structural copy of one token; the copy has the same model, provenance
/// tags included.
pub fn dup_token(t: &Token) -> (r: Token)
    ensures
        r@ == t@,
    decreases t,
{
    match t {
        Token::Ident { text, loc } => Token::Ident { text: text.clone(), loc: *loc },
        Token::IntLit { value, loc } => Token::IntLit { value: *value, loc: *loc },
        Token::Punct { ch, loc } => Token::Punct { ch: *ch, loc: *loc },
        Token::Group { delim, inner, loc } => Token::Group {
            delim: *delim,
            inner: dup_tokens(inner),
            loc: *loc,
        },
    }
}

/// A structural copy of a token sequence, element by element.
pub fn dup_tokens(v: &Vec<Token>) -> (r: Vec<Token>)
    ensures
        toks_view(r@) == toks_view(v@),
    decreases v,
{
    let mut r: Vec<Token> = Vec::new();
    let mut i: usize = 0;
    while i < v.len()
        invariant
            i <= v.len(),
            r@.len() == i,
            forall|j: int| 0 <= j < i ==> tok_view(r@[j]) == tok_view(v@[j]),
        decreases v@.len() - i,
    {
        let t = dup_token(&v[i]);
        r.push(t);
        i = i + 1;
    }
    proof {
        lemma_toks_view_len(r@);
        lemma_toks_view_len(v@);
        assert forall|j: int| 0 <= j < v@.len() implies toks_view(r@)[j] == toks_view(v@)[j] by {
            lemma_toks_view_index(r@, j);
            lemma_toks_view_index(v@, j);
        }
        assert(toks_view(r@) =~= toks_view(v@));
    }
    r
}

} // verus!
