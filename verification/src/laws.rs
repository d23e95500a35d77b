//! Laws of the expansion engine.
//!
//! Each proof function here states, over the models, a property that holds
//! of every invocation: how the driver behaves without a marker, how a
//! single marker isolates the repeated subtree, what pasting produces, what
//! an empty range yields, and that scanning a marker-free tree is a no-op.

use vstd::prelude::*;

use crate::expand::expand_spec;
use crate::header::InvocationView;
use crate::scan::{has_marker, has_marker_from, is_marker_at, lemma_scan_found_iff_marker,
    lemma_scan_not_found, scan_from, scan_seq};
use crate::subst::{is_paste_at, repeat_concat, subst_from, subst_seq};
use crate::token::{Delim, Tok};

verus! {

/// The three tokens of a repetition marker wrapping the subtree `sub`.
pub open spec fn marker3(sub: Seq<Tok>, hash_loc: u64, group_loc: u64, star_loc: u64) -> Seq<
    Tok,
> {
    seq![
        Tok::Punct { ch: '#', loc: hash_loc },
        Tok::Group { delim: Delim::Paren, inner: sub, loc: group_loc },
        Tok::Punct { ch: '*', loc: star_loc },
    ]
}

/// Idempotent traversal: scanning a tree with no marker anywhere — for
/// instance one that a previous expansion already produced — reports
/// nothing found and returns the tree unchanged, so a second pass over an
/// already-expanded tree is a no-op.
pub proof fn lemma_scan_marker_free_noop(s: Seq<Tok>, id: Seq<char>, lo: i64, hi: i64)
    requires
        !has_marker(s),
    ensures
        scan_seq(s, id, lo, hi).0 == s,
        !scan_seq(s, id, lo, hi).1,
{
    lemma_scan_not_found(s, id, lo, hi, 0);
    assert(s.subrange(0, s.len() as int) =~= s);
}

/// No-marker equivalence: when the body holds no marker, the expansion of
/// an invocation is the concatenation, for each value of the range in
/// ascending order, of one substituted copy of the whole body.
pub proof fn lemma_no_marker_expand(inv: InvocationView)
    requires
        !has_marker(inv.body),
    ensures
        expand_spec(inv) == repeat_concat(inv.body, inv.ident, inv.start, inv.end),
{
    lemma_scan_found_iff_marker(inv.body, inv.ident, inv.start, inv.end, 0);
}

/// The scan of `pre + marker + post` with no marker in `pre` walks `pre`
/// unchanged, expands the marker, and copies `post` through.
proof fn lemma_scan_reaches_marker(
    pre: Seq<Tok>,
    sub: Seq<Tok>,
    post: Seq<Tok>,
    hash_loc: u64,
    group_loc: u64,
    star_loc: u64,
    id: Seq<char>,
    lo: i64,
    hi: i64,
    from: int,
)
    requires
        0 <= from <= pre.len(),
        !has_marker_from(pre, from),
    ensures
        ({
            let s = pre + marker3(sub, hash_loc, group_loc, star_loc) + post;
            scan_from(s, id, lo, hi, from) == (
                pre.subrange(from, pre.len() as int) + repeat_concat(sub, id, lo, hi) + post,
                true,
            )
        }),
    decreases pre.len() - from,
{
    let m = marker3(sub, hash_loc, group_loc, star_loc);
    let s = pre + m + post;
    assert(s.len() == pre.len() + 3 + post.len());
    if from == pre.len() {
        assert(s[from] == m[0]);
        assert(s[from + 1] == m[1]);
        assert(s[from + 2] == m[2]);
        assert(is_marker_at(s, from));
        assert(s.subrange(from + 3, s.len() as int) =~= post);
        assert(pre.subrange(from, pre.len() as int) =~= Seq::<Tok>::empty());
        assert(pre.subrange(from, pre.len() as int) + repeat_concat(sub, id, lo, hi) + post
            =~= repeat_concat(sub, id, lo, hi) + s.subrange(from + 3, s.len() as int));
    } else {
        assert(s[from] == pre[from]);
        assert(!is_marker_at(s, from)) by {
            if is_marker_at(s, from) {
                if from + 2 < pre.len() {
                    assert(s[from + 1] == pre[from + 1]);
                    assert(s[from + 2] == pre[from + 2]);
                    assert(is_marker_at(pre, from));
                    assert(has_marker_from(pre, from));
                } else if from + 2 == pre.len() {
                    assert(s[from + 2] == m[0]);
                } else if from + 2 == pre.len() + 1 {
                    assert(s[from + 2] == m[1]);
                }
            }
        }
        lemma_scan_reaches_marker(
            pre,
            sub,
            post,
            hash_loc,
            group_loc,
            star_loc,
            id,
            lo,
            hi,
            from + 1,
        );
        if s[from] is Group {
            assert(pre[from] is Group);
            assert(!has_marker_from(pre[from]->Group_inner, 0));
            lemma_scan_found_iff_marker(s[from]->Group_inner, id, lo, hi, 0);
        }
        assert(seq![s[from]] + (pre.subrange(from + 1, pre.len() as int) + repeat_concat(
            sub,
            id,
            lo,
            hi,
        ) + post) =~= pre.subrange(from, pre.len() as int) + repeat_concat(sub, id, lo, hi)
            + post);
    }
}

/// Marker isolation: for a body made of `pre`, exactly one marker wrapping
/// the subtree `sub`, and `post`, the scan — and with it the whole
/// expansion — replaces the three marker tokens by the concatenated
/// expansion of `sub`; every token outside `sub` appears exactly once,
/// unmodified, and the marker is reported found.
pub proof fn lemma_marker_isolation(
    pre: Seq<Tok>,
    sub: Seq<Tok>,
    post: Seq<Tok>,
    hash_loc: u64,
    group_loc: u64,
    star_loc: u64,
    id: Seq<char>,
    lo: i64,
    hi: i64,
)
    requires
        !has_marker(pre),
    ensures
        ({
            let body = pre + marker3(sub, hash_loc, group_loc, star_loc) + post;
            &&& scan_seq(body, id, lo, hi).0 == pre + repeat_concat(sub, id, lo, hi) + post
            &&& scan_seq(body, id, lo, hi).1
            &&& expand_spec(
                InvocationView { ident: id, start: lo, end: hi, body },
            ) == pre + repeat_concat(sub, id, lo, hi) + post
        }),
{
    lemma_scan_reaches_marker(pre, sub, post, hash_loc, group_loc, star_loc, id, lo, hi, 0);
    assert(pre.subrange(0, pre.len() as int) =~= pre);
}

/// One enclosing group around a hole: the sibling tokens before the group,
/// the group's delimiter and provenance tag, and the siblings after it.
pub struct CtxFrame {
    pub pre: Seq<Tok>,
    pub delim: Delim,
    pub loc: u64,
    pub post: Seq<Tok>,
}

/// Wraps `s` in the given frames, outermost first: each frame contributes
/// `pre + Group(delim, ..., loc) + post` around the next level, and the
/// innermost level is `s` itself.
pub open spec fn plug(frames: Seq<CtxFrame>, s: Seq<Tok>) -> Seq<Tok>
    decreases frames.len(),
{
    if frames.len() == 0 {
        s
    } else {
        frames[0].pre + seq![
            Tok::Group {
                delim: frames[0].delim,
                inner: plug(frames.drop_first(), s),
                loc: frames[0].loc,
            },
        ] + frames[0].post
    }
}

/// The frame's own tokens complete a marker around its hole: its prefix
/// ends with `#`, its group is parenthesized, and its suffix starts with
/// `*`.  A body whose marker is the hole's content has no such frame, for
/// that shape would itself be an earlier marker.
pub open spec fn frame_is_marker(f: CtxFrame) -> bool {
    &&& f.delim == Delim::Paren
    &&& f.pre.len() > 0
    &&& f.pre.last() is Punct
    &&& f.pre.last()->Punct_ch == '#'
    &&& f.post.len() > 0
    &&& f.post[0] is Punct
    &&& f.post[0]->Punct_ch == '*'
}

/// The scan of `a + Group(d, b, loc) + c`, with no marker in `a`, no
/// marker completed around the group, and a marker found inside `b`,
/// rebuilds the group around the scanned `b` and copies everything else
/// through.
proof fn lemma_scan_reaches_group(
    a: Seq<Tok>,
    d: Delim,
    group_loc: u64,
    b: Seq<Tok>,
    c: Seq<Tok>,
    id: Seq<char>,
    lo: i64,
    hi: i64,
    from: int,
)
    requires
        0 <= from <= a.len(),
        !has_marker_from(a, from),
        !(d == Delim::Paren && a.len() > 0 && a.last() is Punct && a.last()->Punct_ch == '#'
            && c.len() > 0 && c[0] is Punct && c[0]->Punct_ch == '*'),
        scan_from(b, id, lo, hi, 0).1,
    ensures
        ({
            let s = a + seq![Tok::Group { delim: d, inner: b, loc: group_loc }] + c;
            scan_from(s, id, lo, hi, from) == (
                a.subrange(from, a.len() as int) + seq![
                    Tok::Group { delim: d, inner: scan_from(b, id, lo, hi, 0).0, loc: group_loc },
                ] + c,
                true,
            )
        }),
    decreases a.len() - from,
{
    let g = Tok::Group { delim: d, inner: b, loc: group_loc };
    let s = a + seq![g] + c;
    assert(s.len() == a.len() + 1 + c.len());
    if from == a.len() {
        assert(s[from] == g);
        assert(!is_marker_at(s, from));
        assert(s.subrange(from + 1, s.len() as int) =~= c);
        assert(a.subrange(from, a.len() as int) =~= Seq::<Tok>::empty());
        assert(a.subrange(from, a.len() as int) + seq![
            Tok::Group { delim: d, inner: scan_from(b, id, lo, hi, 0).0, loc: group_loc },
        ] + c =~= seq![
            Tok::Group { delim: d, inner: scan_from(b, id, lo, hi, 0).0, loc: group_loc },
        ] + s.subrange(from + 1, s.len() as int));
    } else {
        assert(s[from] == a[from]);
        assert(!is_marker_at(s, from)) by {
            if is_marker_at(s, from) {
                if from + 2 < a.len() {
                    assert(s[from + 1] == a[from + 1]);
                    assert(s[from + 2] == a[from + 2]);
                    assert(is_marker_at(a, from));
                    assert(has_marker_from(a, from));
                } else if from + 2 == a.len() {
                    assert(s[from + 2] == g);
                } else {
                    assert(from + 2 == a.len() + 1);
                    assert(s[from + 1] == g);
                    assert(s[from + 2] == c[0]);
                    assert(a.last() == a[from]);
                }
            }
        }
        lemma_scan_reaches_group(a, d, group_loc, b, c, id, lo, hi, from + 1);
        if s[from] is Group {
            assert(a[from] is Group);
            assert(!has_marker_from(a[from]->Group_inner, 0));
            lemma_scan_found_iff_marker(s[from]->Group_inner, id, lo, hi, 0);
        }
        assert(seq![s[from]] + (a.subrange(from + 1, a.len() as int) + seq![
            Tok::Group { delim: d, inner: scan_from(b, id, lo, hi, 0).0, loc: group_loc },
        ] + c) =~= a.subrange(from, a.len() as int) + seq![
            Tok::Group { delim: d, inner: scan_from(b, id, lo, hi, 0).0, loc: group_loc },
        ] + c);
    }
}

/// Marker isolation at any nesting depth: for a body that is `pre`, one
/// marker wrapping the subtree `sub`, and `post`, enclosed in any stack of
/// groups whose leading siblings are marker-free and which do not
/// themselves complete a marker, the scan — and with it the whole
/// expansion — replaces the three marker tokens by the concatenated
/// expansion of `sub` and copies every token outside `sub`, at every
/// depth, through exactly once, unmodified; in particular no occurrence of
/// the loop identifier outside `sub` is substituted.
pub proof fn lemma_marker_isolation_nested(
    frames: Seq<CtxFrame>,
    pre: Seq<Tok>,
    sub: Seq<Tok>,
    post: Seq<Tok>,
    hash_loc: u64,
    group_loc: u64,
    star_loc: u64,
    id: Seq<char>,
    lo: i64,
    hi: i64,
)
    requires
        !has_marker(pre),
        forall|k: int| #![trigger frames[k]]
            0 <= k < frames.len() ==> !has_marker(frames[k].pre) && !frame_is_marker(frames[k]),
    ensures
        ({
            let body = plug(frames, pre + marker3(sub, hash_loc, group_loc, star_loc) + post);
            let replaced = plug(frames, pre + repeat_concat(sub, id, lo, hi) + post);
            &&& scan_seq(body, id, lo, hi).0 == replaced
            &&& scan_seq(body, id, lo, hi).1
            &&& expand_spec(InvocationView { ident: id, start: lo, end: hi, body }) == replaced
        }),
    decreases frames.len(),
{
    if frames.len() == 0 {
        lemma_marker_isolation(pre, sub, post, hash_loc, group_loc, star_loc, id, lo, hi);
    } else {
        let rest = frames.drop_first();
        assert forall|k: int| 0 <= k < rest.len() implies !has_marker(#[trigger] rest[k].pre)
            && !frame_is_marker(rest[k]) by {
            assert(rest[k] == frames[k + 1]);
        }
        lemma_marker_isolation_nested(
            rest,
            pre,
            sub,
            post,
            hash_loc,
            group_loc,
            star_loc,
            id,
            lo,
            hi,
        );
        let f = frames[0];
        let inner_body = plug(rest, pre + marker3(sub, hash_loc, group_loc, star_loc) + post);
        let inner_replaced = plug(rest, pre + repeat_concat(sub, id, lo, hi) + post);
        lemma_scan_reaches_group(f.pre, f.delim, f.loc, inner_body, f.post, id, lo, hi, 0);
        assert(f.pre.subrange(0, f.pre.len() as int) =~= f.pre);
        assert(scan_from(inner_body, id, lo, hi, 0).0 == inner_replaced);
    }
}

/// Pasting determinism: a body that is just `prefix ~ <loop identifier>`,
/// expanded over the range `0..3`, yields exactly the three pasted
/// identifiers `prefix0`, `prefix1`, `prefix2`, in that order — each a
/// single fused token carrying the prefix identifier's provenance tag.
pub proof fn lemma_pasting_determinism(
    prefix: Seq<char>,
    prefix_loc: u64,
    tilde_loc: u64,
    id_loc: u64,
    id: Seq<char>,
)
    ensures
        ({
            let body = seq![
                Tok::Ident { text: prefix, loc: prefix_loc },
                Tok::Punct { ch: '~', loc: tilde_loc },
                Tok::Ident { text: id, loc: id_loc },
            ];
            repeat_concat(body, id, 0, 3) == seq![
                Tok::Ident { text: prefix + seq!['0'], loc: prefix_loc },
                Tok::Ident { text: prefix + seq!['1'], loc: prefix_loc },
                Tok::Ident { text: prefix + seq!['2'], loc: prefix_loc },
            ]
        }),
{
    let body = seq![
        Tok::Ident { text: prefix, loc: prefix_loc },
        Tok::Punct { ch: '~', loc: tilde_loc },
        Tok::Ident { text: id, loc: id_loc },
    ];
    assert(is_paste_at(body, id, 0));
    assert forall|v: i64| 0 <= v < 3 implies subst_seq(body, id, v) == seq![
        Tok::Ident { text: prefix + crate::decimal::dec_str(v as int), loc: prefix_loc },
    ] by {
        assert(subst_from(body, id, v, 3) =~= Seq::<Tok>::empty());
        assert(seq![
            Tok::Ident { text: prefix + crate::decimal::dec_str(v as int), loc: prefix_loc },
        ] + Seq::<Tok>::empty() =~= seq![
            Tok::Ident { text: prefix + crate::decimal::dec_str(v as int), loc: prefix_loc },
        ]);
    }
    assert(crate::decimal::dec_str(0) == seq!['0']);
    assert(crate::decimal::dec_str(1) == seq!['1']);
    assert(crate::decimal::dec_str(2) == seq!['2']);
    assert(repeat_concat(body, id, 3, 3) =~= Seq::<Tok>::empty());
    assert(repeat_concat(body, id, 2, 3) == subst_seq(body, id, 2) + repeat_concat(body, id, 3, 3));
    assert(repeat_concat(body, id, 1, 3) == subst_seq(body, id, 1) + repeat_concat(body, id, 2, 3));
    assert(repeat_concat(body, id, 0, 3) == subst_seq(body, id, 0) + repeat_concat(body, id, 1, 3));
    assert(repeat_concat(body, id, 0, 3) =~= seq![
        Tok::Ident { text: prefix + seq!['0'], loc: prefix_loc },
        Tok::Ident { text: prefix + seq!['1'], loc: prefix_loc },
        Tok::Ident { text: prefix + seq!['2'], loc: prefix_loc },
    ]);
}

/// Empty range, no-marker case: `start == end` yields zero copies — the
/// expansion is empty, and it is not an error: expansion is total once the
/// header has parsed.
pub proof fn lemma_empty_range_no_marker(body: Seq<Tok>, id: Seq<char>, n: i64)
    requires
        !has_marker(body),
    ensures
        expand_spec(InvocationView { ident: id, start: n, end: n, body }) == Seq::<Tok>::empty(),
{
    lemma_no_marker_expand(InvocationView { ident: id, start: n, end: n, body });
}

/// Empty range, marker case: `start == end` produces an empty marker
/// expansion — the marker tokens disappear and the rest of the body stands
/// exactly once.
pub proof fn lemma_empty_range_marker(
    pre: Seq<Tok>,
    sub: Seq<Tok>,
    post: Seq<Tok>,
    hash_loc: u64,
    group_loc: u64,
    star_loc: u64,
    id: Seq<char>,
    n: i64,
)
    requires
        !has_marker(pre),
    ensures
        ({
            let body = pre + marker3(sub, hash_loc, group_loc, star_loc) + post;
            expand_spec(InvocationView { ident: id, start: n, end: n, body }) == pre + post
        }),
{
    lemma_marker_isolation(pre, sub, post, hash_loc, group_loc, star_loc, id, n, n);
    assert(pre + repeat_concat(sub, id, n, n) + post =~= pre + post);
}

/// Empty range, marker case, at any nesting depth: `start == end` makes
/// the marker expand to nothing; the three marker tokens disappear and
/// every other token of the body, at every depth, stands exactly once,
/// unmodified — and never an error: expansion is total once the header
/// has parsed.
pub proof fn lemma_empty_range_marker_nested(
    frames: Seq<CtxFrame>,
    pre: Seq<Tok>,
    sub: Seq<Tok>,
    post: Seq<Tok>,
    hash_loc: u64,
    group_loc: u64,
    star_loc: u64,
    id: Seq<char>,
    n: i64,
)
    requires
        !has_marker(pre),
        forall|k: int| #![trigger frames[k]]
            0 <= k < frames.len() ==> !has_marker(frames[k].pre) && !frame_is_marker(frames[k]),
    ensures
        ({
            let body = plug(frames, pre + marker3(sub, hash_loc, group_loc, star_loc) + post);
            expand_spec(InvocationView { ident: id, start: n, end: n, body }) == plug(
                frames,
                pre + post,
            )
        }),
{
    lemma_marker_isolation_nested(
        frames,
        pre,
        sub,
        post,
        hash_loc,
        group_loc,
        star_loc,
        id,
        n,
        n,
    );
    assert(pre + repeat_concat(sub, id, n, n) + post =~= pre + post);
}

} // verus!
