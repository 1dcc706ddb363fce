//! The laws of the compiler, stated and proved once and for all inputs:
//! determinism, when compilation is owed to succeed, how many segments an
//! input yields, which variant the terminal segment carries, and how the
//! output nests.

use vstd::prelude::*;

use crate::builder::{
    bind_tok, build_spec, cond_tokens, ctor_ident, expr_from, is_checked, scrut_tokens, wf_chain,
    wrap_some,
};
use crate::compile_spec;
use crate::segmenter::{
    marker_at, next_depth, scan, segment_spec, ChainError, SegV, Variant,
};
use crate::token::{Delim, TokenV};

verus! {

/// Compilation is deterministic: what comes out is a function of the input
/// tokens alone, so repeated compilations of one chain yield identical
/// output token sequences.
pub proof fn lemma_deterministic(
    toks: Seq<TokenV>,
    r1: Result<Seq<TokenV>, ChainError>,
    r2: Result<Seq<TokenV>, ChainError>,
)
    requires
        r1 == compile_spec(toks),
        r2 == compile_spec(toks),
    ensures
        r1 == r2,
{
}

/// Every segment list the segmenter accepts is a well-formed chain.
proof fn lemma_scan_wf(rest: Seq<TokenV>, depth: nat, cur: Seq<TokenV>, acc: Seq<SegV>)
    requires
        forall|j: int| 0 <= j < acc.len() ==> is_checked(#[trigger] acc[j].variant),
        forall|j: int| 0 <= j < acc.len() ==> (#[trigger] acc[j].tokens).len() > 0,
    ensures
        scan(rest, depth, cur, acc) matches Ok(segs) ==> wf_chain(segs),
    decreases rest.len(),
{
    if rest.len() == 0 {
    } else {
        match (if depth == 0 {
            marker_at(rest)
        } else {
            None
        }) {
            Some(p) => {
                let v = p.0;
                let k = p.1;
                assert(is_checked(v));
                if cur.len() == 0 {
                } else if rest[k - 1] == TokenV::Punct('.') {
                    let acc2 = acc.push(SegV { variant: v, tokens: cur });
                    assert(forall|j: int|
                        0 <= j < acc2.len() ==> is_checked(#[trigger] acc2[j].variant));
                    assert(forall|j: int|
                        0 <= j < acc2.len() ==> (#[trigger] acc2[j].tokens).len() > 0);
                    lemma_scan_wf(rest.skip(k as int), 0, Seq::empty(), acc2);
                }
            },
            None => {
                lemma_scan_wf(rest.skip(1), next_depth(depth, rest[0]), cur.push(rest[0]), acc);
            },
        }
    }
}

/// Success is owed exactly where the segmenter accepts the input: an
/// accepted segment list is always a well-formed chain, so the builder never
/// rejects it, and a rejected input's error passes through unchanged.
pub proof fn lemma_compile_succeeds(toks: Seq<TokenV>)
    ensures
        segment_spec(toks) matches Ok(segs) ==> compile_spec(toks) == Ok::<
            Seq<TokenV>,
            ChainError,
        >(expr_from(segs, 0)),
        segment_spec(toks) matches Err(e) ==> compile_spec(toks) == Err::<
            Seq<TokenV>,
            ChainError,
        >(e),
{
    lemma_scan_wf(toks, 0, Seq::empty(), Seq::empty());
    if segment_spec(toks) is Ok {
        let segs = segment_spec(toks)->Ok_0;
        assert(wf_chain(segs));
        assert(!(exists|j: int|
            0 <= j < segs.len() && (#[trigger] segs[j].tokens).len() == 0));
        assert(build_spec(segs) == Ok::<Seq<TokenV>, ChainError>(expr_from(segs, 0)));
    }
}

/// How many segment-splitting markers the scan recognizes in `rest` at
/// nesting depth `depth`: the markers followed by more input.  A trailing
/// marker closes no new span; it only retags the final segment.
pub open spec fn mid_marker_count(rest: Seq<TokenV>, depth: nat) -> nat
    decreases rest.len(),
{
    if rest.len() == 0 {
        0
    } else {
        match (if depth == 0 {
            marker_at(rest)
        } else {
            None
        }) {
            Some(p) => {
                if rest[p.1 - 1] == TokenV::Punct('.') {
                    1 + mid_marker_count(rest.skip(p.1 as int), 0)
                } else {
                    0
                }
            },
            None => mid_marker_count(rest.skip(1), next_depth(depth, rest[0])),
        }
    }
}

proof fn lemma_scan_count(rest: Seq<TokenV>, depth: nat, cur: Seq<TokenV>, acc: Seq<SegV>)
    ensures
        scan(rest, depth, cur, acc) matches Ok(segs) ==> segs.len() == acc.len()
            + mid_marker_count(rest, depth) + 1,
    decreases rest.len(),
{
    if rest.len() == 0 {
    } else {
        match (if depth == 0 {
            marker_at(rest)
        } else {
            None
        }) {
            Some(p) => {
                if cur.len() == 0 {
                } else if rest[p.1 - 1] == TokenV::Punct('.') {
                    lemma_scan_count(
                        rest.skip(p.1 as int),
                        0,
                        Seq::empty(),
                        acc.push(SegV { variant: p.0, tokens: cur }),
                    );
                }
            },
            None => {
                lemma_scan_count(rest.skip(1), next_depth(depth, rest[0]), cur.push(rest[0]), acc);
            },
        }
    }
}

/// Segment count: an input in which the segmenter recognizes exactly `k`
/// segment-splitting markers is accepted as exactly `k + 1` segments.
pub proof fn lemma_segment_count(toks: Seq<TokenV>)
    ensures
        segment_spec(toks) matches Ok(segs) ==> segs.len() == mid_marker_count(toks, 0) + 1,
{
    lemma_scan_count(toks, 0, Seq::empty(), Seq::empty());
}

/// Nesting depth after reading `toks`, starting from `depth`.
pub open spec fn depth_after(depth: nat, toks: Seq<TokenV>) -> nat
    decreases toks.len(),
{
    if toks.len() == 0 {
        depth
    } else {
        depth_after(next_depth(depth, toks[0]), toks.skip(1))
    }
}

/// The variant the terminal segment must carry, read off the tail of the
/// input alone: a final `?` at nesting depth zero is the trailing bare
/// marker; a final `?` plus branch keyword at depth zero is a trailing
/// branch marker; any other ending leaves the terminal segment `Required`.
pub open spec fn trailing_from(depth: nat, rest: Seq<TokenV>) -> Variant {
    if rest.len() >= 1 && rest[rest.len() - 1] == TokenV::Punct('?') && depth_after(
        depth,
        rest.take(rest.len() - 1),
    ) == 0 {
        Variant::Optional
    } else if rest.len() >= 2 && rest[rest.len() - 2] == TokenV::Punct('?') && rest[rest.len() - 1]
        == TokenV::Ident("Ok"@) && depth_after(depth, rest.take(rest.len() - 2)) == 0 {
        Variant::SuccessBranch
    } else if rest.len() >= 2 && rest[rest.len() - 2] == TokenV::Punct('?') && rest[rest.len() - 1]
        == TokenV::Ident("Err"@) && depth_after(depth, rest.take(rest.len() - 2)) == 0 {
        Variant::FailureBranch
    } else {
        Variant::Required
    }
}

/// The trailing rule applied to a whole input.
pub open spec fn trailing_variant(toks: Seq<TokenV>) -> Variant {
    trailing_from(0, toks)
}

proof fn lemma_depth_after_append(depth: nat, a: Seq<TokenV>, b: Seq<TokenV>)
    ensures
        depth_after(depth, a + b) == depth_after(depth_after(depth, a), b),
    decreases a.len(),
{
    if a.len() == 0 {
        assert(a + b =~= b);
    } else {
        assert((a + b)[0] == a[0]);
        assert((a + b).skip(1) =~= a.skip(1) + b);
        lemma_depth_after_append(next_depth(depth, a[0]), a.skip(1), b);
    }
}

proof fn lemma_depth_after_neutral(depth: nat, toks: Seq<TokenV>)
    requires
        forall|i: int|
            0 <= i < toks.len() ==> !((#[trigger] toks[i]) is Open) && !(toks[i] is Close),
    ensures
        depth_after(depth, toks) == depth,
    decreases toks.len(),
{
    if toks.len() > 0 {
        assert(next_depth(depth, toks[0]) == depth);
        assert(forall|i: int|
            0 <= i < toks.skip(1).len() ==> !((#[trigger] toks.skip(1)[i]) is Open) && !(toks.skip(
                1,
            )[i] is Close));
        lemma_depth_after_neutral(depth, toks.skip(1));
    }
}

proof fn lemma_scan_trailing(rest: Seq<TokenV>, depth: nat, cur: Seq<TokenV>, acc: Seq<SegV>)
    ensures
        scan(rest, depth, cur, acc) matches Ok(segs) ==> segs.len() > 0 && segs[segs.len()
            - 1].variant == trailing_from(depth, rest),
    decreases rest.len(),
{
    if rest.len() == 0 {
    } else {
        let n = rest.len() as int;
        match (if depth == 0 {
            marker_at(rest)
        } else {
            None
        }) {
            Some(p) => {
                let v = p.0;
                let k = p.1 as int;
                assert(1 <= k <= n);
                if cur.len() == 0 {
                } else if rest[k - 1] == TokenV::Punct('.') {
                    // A separator marker: the scan continues on the suffix,
                    // whose tail (and the depth reached before it) is the
                    // tail of `rest` itself.
                    assert(k == 2 || k == 3);
                    let s = rest.skip(k);
                    let acc2 = acc.push(SegV { variant: v, tokens: cur });
                    lemma_scan_trailing(s, 0, Seq::empty(), acc2);
                    if scan(rest, depth, cur, acc) is Ok {
                        let m = s.len() as int;
                        assert(m >= 1);
                        let pre = rest.take(k);
                        assert(forall|i: int|
                            0 <= i < pre.len() ==> !((#[trigger] pre[i]) is Open) && !(
                            pre[i] is Close)) by {
                            assert(rest[0] == TokenV::Punct('?'));
                            assert(forall|i: int| 0 <= i < pre.len() ==> pre[i] == rest[i]);
                        }
                        lemma_depth_after_neutral(0, pre);
                        assert(s[m - 1] == rest[n - 1]);
                        assert(rest.take(n - 1) =~= pre + s.take(m - 1));
                        lemma_depth_after_append(0, pre, s.take(m - 1));
                        if m >= 2 {
                            assert(s[m - 2] == rest[n - 2]);
                            assert(rest.take(n - 2) =~= pre + s.take(m - 2));
                            lemma_depth_after_append(0, pre, s.take(m - 2));
                        } else {
                            assert(rest[n - 2] == TokenV::Punct('.'));
                        }
                        assert(trailing_from(depth, rest) == trailing_from(0, s));
                    }
                } else {
                    // A trailing marker: the whole remaining input is the
                    // marker itself.
                    assert(k == n);
                    if k == 1 {
                        assert(rest.take(0) =~= Seq::<TokenV>::empty());
                        assert(trailing_from(depth, rest) == Variant::Optional);
                    } else {
                        assert(k == 2 && n == 2);
                        assert(rest.take(0) =~= Seq::<TokenV>::empty());
                        assert(trailing_from(depth, rest) == v);
                    }
                }
            },
            None => {
                let d2 = next_depth(depth, rest[0]);
                let s = rest.skip(1);
                lemma_scan_trailing(s, d2, cur.push(rest[0]), acc);
                if scan(rest, depth, cur, acc) is Ok {
                    let m = s.len() as int;
                    if m == 0 {
                        // One ordinary token is left: were it a trailing bare
                        // marker at depth zero, the marker path would have
                        // been taken instead.
                        assert(trailing_from(depth, rest) == Variant::Required);
                    } else {
                        assert(s[m - 1] == rest[n - 1]);
                        assert(rest.take(n - 1)[0] == rest[0]);
                        assert(rest.take(n - 1).skip(1) =~= s.take(m - 1));
                        assert(depth_after(depth, rest.take(n - 1)) == depth_after(
                            d2,
                            s.take(m - 1),
                        ));
                        if m >= 2 {
                            assert(s[m - 2] == rest[n - 2]);
                            assert(rest.take(n - 2)[0] == rest[0]);
                            assert(rest.take(n - 2).skip(1) =~= s.take(m - 2));
                            assert(depth_after(depth, rest.take(n - 2)) == depth_after(
                                d2,
                                s.take(m - 2),
                            ));
                        } else {
                            // Two tokens are left: were they a trailing
                            // branch marker at depth zero, the marker path
                            // would have been taken instead.
                            assert(rest.take(0) =~= Seq::<TokenV>::empty());
                        }
                        assert(trailing_from(depth, rest) == trailing_from(d2, s));
                    }
                }
            },
        }
    }
}

/// Terminal-variant correctness: an accepted input ending in the trailing
/// bare marker has `Optional` as its last segment's variant; ending in a
/// trailing branch marker, that branch's variant; ending in no marker,
/// `Required`.
pub proof fn lemma_terminal_variant(toks: Seq<TokenV>)
    ensures
        segment_spec(toks) matches Ok(segs) ==> segs.len() > 0 && segs[segs.len() - 1].variant
            == trailing_variant(toks),
{
    lemma_scan_trailing(toks, 0, Seq::empty(), Seq::empty());
}

/// Round-trip structure, one level at a time: each non-terminal segment
/// wraps the expression built from the segments after it in exactly one more
/// conditional, so the conditional nesting depth of the output equals the
/// number of non-terminal segments.
pub proof fn lemma_nesting_structure(segs: Seq<SegV>, i: int)
    requires
        wf_chain(segs),
        0 <= i < segs.len() - 1,
    ensures
        expr_from(segs, i) == cond_tokens(
            segs[i].variant,
            scrut_tokens(segs, i),
            expr_from(segs, i + 1),
        ),
{
}

/// The innermost expression of the output: the terminal segment's direct
/// present-wrap when it is `Required`, and its final check-and-wrap
/// conditional otherwise.
pub proof fn lemma_terminal_shape(segs: Seq<SegV>)
    requires
        wf_chain(segs),
    ensures
        segs[segs.len() - 1].variant == Variant::Required ==> expr_from(segs, segs.len() - 1)
            == wrap_some(scrut_tokens(segs, segs.len() - 1)),
        segs[segs.len() - 1].variant != Variant::Required ==> expr_from(segs, segs.len() - 1)
            == cond_tokens(
            segs[segs.len() - 1].variant,
            scrut_tokens(segs, segs.len() - 1),
            wrap_some(seq![bind_tok()]),
        ),
{
}

/// One token's contribution to brace nesting: opening braces go one level
/// deeper, closing braces come one level up, everything else stays level.
pub open spec fn brace_step(t: TokenV) -> int {
    match t {
        TokenV::Open(Delim::Brace) => 1,
        TokenV::Close(Delim::Brace) => -1,
        _ => 0,
    }
}

/// Net brace nesting over a whole token sequence.
pub open spec fn brace_net(toks: Seq<TokenV>) -> int
    decreases toks.len(),
{
    if toks.len() == 0 {
        0
    } else {
        brace_step(toks[0]) + brace_net(toks.skip(1))
    }
}

/// The deepest brace nesting reached while reading a token sequence from a
/// starting level of zero.
pub open spec fn brace_peak(toks: Seq<TokenV>) -> int
    decreases toks.len(),
{
    if toks.len() == 0 {
        0
    } else {
        let inner = brace_step(toks[0]) + brace_peak(toks.skip(1));
        if inner > 0 {
            inner
        } else {
            0
        }
    }
}

/// A token sequence without brace tokens, as accessor spans ordinarily are.
pub open spec fn brace_free(toks: Seq<TokenV>) -> bool {
    forall|i: int| 0 <= i < toks.len() ==> brace_step(#[trigger] toks[i]) == 0
}

proof fn lemma_brace_one(t: TokenV)
    ensures
        brace_net(seq![t]) == brace_step(t),
        brace_peak(seq![t]) == if brace_step(t) > 0 {
            brace_step(t)
        } else {
            0
        },
{
    let s = seq![t];
    assert(s[0] == t);
    assert(s.skip(1) =~= Seq::<TokenV>::empty());
    assert(brace_net(Seq::<TokenV>::empty()) == 0);
    assert(brace_peak(Seq::<TokenV>::empty()) == 0);
}

proof fn lemma_brace_cons(t: TokenV, rest: Seq<TokenV>)
    ensures
        brace_net(seq![t] + rest) == brace_step(t) + brace_net(rest),
        brace_peak(seq![t] + rest) == if brace_step(t) + brace_peak(rest) > 0 {
            brace_step(t) + brace_peak(rest)
        } else {
            0
        },
{
    let s = seq![t] + rest;
    assert(s[0] == t);
    assert(s.skip(1) =~= rest);
}

proof fn lemma_brace_append(a: Seq<TokenV>, b: Seq<TokenV>)
    ensures
        brace_net(a + b) == brace_net(a) + brace_net(b),
        brace_peak(a + b) == if brace_peak(a) > brace_net(a) + brace_peak(b) {
            brace_peak(a)
        } else {
            brace_net(a) + brace_peak(b)
        },
    decreases a.len(),
{
    if a.len() == 0 {
        assert(a + b =~= b);
    } else {
        assert((a + b)[0] == a[0]);
        assert((a + b).skip(1) =~= a.skip(1) + b);
        lemma_brace_append(a.skip(1), b);
    }
}

proof fn lemma_brace_free_flat(toks: Seq<TokenV>)
    requires
        brace_free(toks),
    ensures
        brace_net(toks) == 0,
        brace_peak(toks) == 0,
    decreases toks.len(),
{
    if toks.len() > 0 {
        assert(forall|i: int|
            0 <= i < toks.skip(1).len() ==> brace_step(#[trigger] toks.skip(1)[i]) == 0);
        lemma_brace_free_flat(toks.skip(1));
    }
}

proof fn lemma_wrap_braces(body: Seq<TokenV>)
    requires
        brace_free(body),
    ensures
        brace_net(wrap_some(body)) == 0,
        brace_peak(wrap_some(body)) == 0,
{
    assert(brace_free(wrap_some(body)));
    lemma_brace_free_flat(wrap_some(body));
}

proof fn lemma_cond_braces(v: Variant, scrut: Seq<TokenV>, body: Seq<TokenV>)
    requires
        is_checked(v),
        brace_free(scrut),
        brace_net(body) == 0,
    ensures
        brace_net(cond_tokens(v, scrut, body)) == 0,
        brace_peak(cond_tokens(v, scrut, body)) == 1 + brace_peak(body),
{
    let h = seq![
        TokenV::Ident("if"@),
        TokenV::Ident("let"@),
        ctor_ident(v),
        TokenV::Open(Delim::Paren),
        bind_tok(),
        TokenV::Close(Delim::Paren),
        TokenV::Punct('='),
        TokenV::Punct('&'),
    ];
    let ob = seq![TokenV::Open(Delim::Brace)];
    let cb = seq![TokenV::Close(Delim::Brace)];
    let r2 = seq![TokenV::Ident("None"@)] + cb;
    let r3 = ob + r2;
    let r4 = seq![TokenV::Ident("else"@)] + r3;
    let tail = cb + r4;
    assert(ctor_ident(v) is Ident);
    assert(brace_free(h));
    lemma_brace_free_flat(h);
    lemma_brace_free_flat(scrut);
    lemma_brace_one(TokenV::Open(Delim::Brace));
    lemma_brace_one(TokenV::Close(Delim::Brace));
    lemma_brace_cons(TokenV::Ident("None"@), cb);
    lemma_brace_cons(TokenV::Open(Delim::Brace), r2);
    lemma_brace_cons(TokenV::Ident("else"@), r3);
    lemma_brace_cons(TokenV::Close(Delim::Brace), r4);
    assert(brace_net(tail) == -1);
    assert(brace_peak(tail) == 0);
    assert(brace_peak(body) >= 0);
    let a1 = h + scrut;
    let a2 = a1 + ob;
    let a3 = a2 + body;
    let a4 = a3 + tail;
    lemma_brace_append(h, scrut);
    lemma_brace_append(a1, ob);
    lemma_brace_append(a2, body);
    lemma_brace_append(a3, tail);
    assert(cond_tokens(v, scrut, body) =~= a4);
    assert(brace_net(a4) == 0);
    assert(brace_peak(a4) == 1 + brace_peak(body));
}

proof fn lemma_depth_from(segs: Seq<SegV>, i: int)
    requires
        wf_chain(segs),
        0 <= i < segs.len(),
        forall|j: int| 0 <= j < segs.len() ==> brace_free((#[trigger] segs[j]).tokens),
    ensures
        brace_net(expr_from(segs, i)) == 0,
        brace_peak(expr_from(segs, i)) == (segs.len() - 1 - i) + (if segs[segs.len()
            - 1].variant == Variant::Required {
            0int
        } else {
            1int
        }),
    decreases segs.len() - i,
{
    let scrut = scrut_tokens(segs, i);
    assert(brace_free(scrut)) by {
        if i > 0 {
            let pre = seq![bind_tok(), TokenV::Punct('.')];
            assert(forall|q: int| 0 <= q < scrut.len() ==> brace_step(#[trigger] scrut[q]) == 0)
                by {
                assert(forall|q: int|
                    2 <= q < scrut.len() ==> #[trigger] scrut[q] == segs[i].tokens[q - 2]);
            }
        }
    }
    if i >= segs.len() - 1 {
        if segs[i].variant == Variant::Required {
            lemma_wrap_braces(scrut);
        } else {
            assert(brace_free(seq![bind_tok()]));
            lemma_wrap_braces(seq![bind_tok()]);
            lemma_cond_braces(segs[i].variant, scrut, wrap_some(seq![bind_tok()]));
        }
    } else {
        lemma_depth_from(segs, i + 1);
        lemma_cond_braces(segs[i].variant, scrut, expr_from(segs, i + 1));
    }
}

/// Round-trip structure at token level: when the accessor spans hold no
/// brace tokens of their own, the deepest brace nesting of the output is
/// exactly one level per non-terminal segment, plus the innermost level of
/// the terminal segment's own conditional when the chain ends in a marker.
pub proof fn lemma_nesting_depth(segs: Seq<SegV>)
    requires
        wf_chain(segs),
        forall|j: int| 0 <= j < segs.len() ==> brace_free((#[trigger] segs[j]).tokens),
    ensures
        brace_peak(expr_from(segs, 0)) == (segs.len() - 1) + (if segs[segs.len() - 1].variant
            == Variant::Required {
            0int
        } else {
            1int
        }),
{
    lemma_depth_from(segs, 0);
}

} // verus!
