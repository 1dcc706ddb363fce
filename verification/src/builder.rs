//! The expression builder: turns an ordered segment list into one nested
//! conditional expression.
//!
//! The output is assembled innermost first, from the last segment to the
//! first.  A terminal `Required` segment becomes a direct present-wrap of its
//! accessor; any other terminal segment becomes a conditional that unwraps
//! its accessor's value, binds it to the synthetic name, and present-wraps
//! that name.  Every earlier segment wraps the expression built so far in one
//! more conditional whose failing arm yields the absent result.  Each
//! non-first accessor chains off the synthetic name bound by the enclosing
//! conditional; the first segment's accessor is the bare chain receiver.

use vstd::prelude::*;

use crate::segmenter::{ChainError, SegV, Segment, Variant};
use crate::token::{Delim, Token, TokenV};

verus! {

/// The synthetic name that every conditional binds; its fixed reserved
/// spelling keeps it from colliding with ordinary identifiers, and each
/// nesting level shadows the outer ones.
pub open spec fn bind_tok() -> TokenV {
    TokenV::Ident("____v"@)
}

/// The variants that stand for a real unwrap check.
pub open spec fn is_checked(v: Variant) -> bool {
    v == Variant::Optional || v == Variant::SuccessBranch || v == Variant::FailureBranch
}

/// The constructor name whose shape a checked unwrap must match.
pub open spec fn ctor_ident(v: Variant) -> TokenV
    recommends
        is_checked(v),
{
    match v {
        Variant::Optional => TokenV::Ident("Some"@),
        Variant::SuccessBranch => TokenV::Ident("Ok"@),
        Variant::FailureBranch => TokenV::Ident("Err"@),
        _ => arbitrary(),
    }
}

/// A present-wrap: `Some ( body )`.
pub open spec fn wrap_some(body: Seq<TokenV>) -> Seq<TokenV> {
    seq![TokenV::Ident("Some"@), TokenV::Open(Delim::Paren)] + body + seq![
        TokenV::Close(Delim::Paren),
    ]
}

/// One conditional step:
/// `if let Ctor ( ____v ) = & scrut { body } else { None }`.
pub open spec fn cond_tokens(v: Variant, scrut: Seq<TokenV>, body: Seq<TokenV>) -> Seq<TokenV> {
    seq![
        TokenV::Ident("if"@),
        TokenV::Ident("let"@),
        ctor_ident(v),
        TokenV::Open(Delim::Paren),
        bind_tok(),
        TokenV::Close(Delim::Paren),
        TokenV::Punct('='),
        TokenV::Punct('&'),
    ] + scrut + seq![TokenV::Open(Delim::Brace)] + body + seq![
        TokenV::Close(Delim::Brace),
        TokenV::Ident("else"@),
        TokenV::Open(Delim::Brace),
        TokenV::Ident("None"@),
        TokenV::Close(Delim::Brace),
    ]
}

/// The invariants of a chain handed to the builder: non-empty, every
/// non-terminal segment carries a real check, the terminal segment carries a
/// real check or `Required`, and no span is empty.
pub open spec fn wf_chain(segs: Seq<SegV>) -> bool {
    &&& segs.len() > 0
    &&& forall|j: int| 0 <= j < segs.len() - 1 ==> is_checked(#[trigger] segs[j].variant)
    &&& (is_checked(segs[segs.len() - 1].variant) || segs[segs.len() - 1].variant
        == Variant::Required)
    &&& forall|j: int| 0 <= j < segs.len() ==> (#[trigger] segs[j].tokens).len() > 0
}

/// The accessor a conditional scrutinizes for segment `i`: the segment's own
/// span, chained off the synthetic name except for the first segment, whose
/// span already names the chain receiver.
pub open spec fn scrut_tokens(segs: Seq<SegV>, i: int) -> Seq<TokenV>
    recommends
        0 <= i < segs.len(),
{
    if i == 0 {
        segs[0].tokens
    } else {
        seq![bind_tok(), TokenV::Punct('.')] + segs[i].tokens
    }
}

/// The expression built from segments `i ..`: the terminal segment's wrap or
/// final check, inside one conditional per earlier segment.
pub open spec fn expr_from(segs: Seq<SegV>, i: int) -> Seq<TokenV>
    recommends
        0 <= i < segs.len(),
        wf_chain(segs),
    decreases segs.len() - i,
{
    if i >= segs.len() - 1 {
        if segs[i].variant == Variant::Required {
            wrap_some(scrut_tokens(segs, i))
        } else {
            cond_tokens(segs[i].variant, scrut_tokens(segs, i), wrap_some(seq![bind_tok()]))
        }
    } else {
        cond_tokens(segs[i].variant, scrut_tokens(segs, i), expr_from(segs, i + 1))
    }
}

/// What the builder returns on a segment list: the nested conditional
/// expression for a well-formed chain, and the exact rejection otherwise.
pub open spec fn build_spec(segs: Seq<SegV>) -> Result<Seq<TokenV>, ChainError> {
    if segs.len() == 0 {
        Err(ChainError::EmptySegment)
    } else if exists|j: int| 0 <= j < segs.len() && (#[trigger] segs[j].tokens).len() == 0 {
        Err(ChainError::EmptySegment)
    } else if !wf_chain(segs) {
        Err(ChainError::InvalidTerminalVariant)
    } else {
        Ok(expr_from(segs, 0))
    }
}

/// After appending, the deep view of a vector is the concatenation of the
/// two deep views.
pub proof fn lemma_deep_view_concat<T: DeepView>(a: Vec<T>, b: Vec<T>, c: Vec<T>)
    requires
        c@ == a@ + b@,
    ensures
        c.deep_view() == a.deep_view() + b.deep_view(),
{
    assert(c.deep_view() =~= a.deep_view() + b.deep_view());
}

/// Two vectors with the same elements have the same deep view.
pub proof fn lemma_deep_view_same<T: DeepView>(a: Vec<T>, b: Vec<T>)
    requires
        a@ == b@,
    ensures
        a.deep_view() == b.deep_view(),
{
    assert(a.deep_view() =~= b.deep_view());
}

/// Pushes one token, tracking the deep view.
fn push_tok(dst: &mut Vec<Token>, t: Token)
    ensures
        final(dst).deep_view() == old(dst).deep_view().push(t.deep_view()),
{
    let ghost pre = *dst;
    let ghost gt = t;
    dst.push(t);
    proof {
        crate::segmenter::lemma_deep_view_push(pre, *dst, gt);
    }
}

/// Moves `src` to the end of `dst`.
fn extend_tokens(dst: &mut Vec<Token>, src: Vec<Token>)
    ensures
        final(dst).deep_view() == old(dst).deep_view() + src.deep_view(),
{
    let ghost pre = *dst;
    let ghost gsrc = src;
    let mut s = src;
    dst.append(&mut s);
    proof {
        lemma_deep_view_concat(pre, gsrc, *dst);
    }
}

/// Clones a span of tokens.
fn clone_tokens(ts: &Vec<Token>) -> (r: Vec<Token>)
    ensures
        r.deep_view() == ts.deep_view(),
{
    let mut r: Vec<Token> = Vec::new();
    let mut j: usize = 0;
    while j < ts.len()
        invariant
            j <= ts@.len(),
            r@.len() == j,
            forall|q: int| 0 <= q < j ==> r@[q] == ts@[q],
        decreases ts@.len() - j,
    {
        r.push(ts[j].clone());
        j = j + 1;
    }
    proof {
        assert(r@ =~= ts@);
        lemma_deep_view_same(r, *ts);
    }
    r
}

/// Whether `v` stands for a real unwrap check.
fn checked_variant(v: Variant) -> (r: bool)
    ensures
        r == is_checked(v),
{
    match v {
        Variant::Optional => true,
        Variant::SuccessBranch => true,
        Variant::FailureBranch => true,
        _ => false,
    }
}

/// Wraps a token sequence as a present result: `Some ( body )`.
pub fn some_wrapper(body: Vec<Token>) -> (r: Vec<Token>)
    ensures
        r.deep_view() == wrap_some(body.deep_view()),
{
    let ghost gbody = body.deep_view();
    let mut r: Vec<Token> = Vec::new();
    push_tok(&mut r, Token::Ident("Some".to_owned()));
    push_tok(&mut r, Token::Open(Delim::Paren));
    extend_tokens(&mut r, body);
    push_tok(&mut r, Token::Close(Delim::Paren));
    proof {
        assert(r.deep_view() =~= wrap_some(gbody));
    }
    r
}

/// One conditional step of the output:
/// `if let Ctor ( ____v ) = & after_eq { body } else { None }`, where `Ctor`
/// is the constructor shape the checked variant demands.
pub fn if_let(variant: Variant, after_eq: Vec<Token>, body: Vec<Token>) -> (r: Vec<Token>)
    requires
        is_checked(variant),
    ensures
        r.deep_view() == cond_tokens(variant, after_eq.deep_view(), body.deep_view()),
{
    let ghost gscrut = after_eq.deep_view();
    let ghost gbody = body.deep_view();
    let mut r: Vec<Token> = Vec::new();
    push_tok(&mut r, Token::Ident("if".to_owned()));
    push_tok(&mut r, Token::Ident("let".to_owned()));
    let ctor: &str = match variant {
        Variant::Optional => "Some",
        Variant::SuccessBranch => "Ok",
        Variant::FailureBranch => "Err",
        _ => unreached(),
    };
    push_tok(&mut r, Token::Ident(ctor.to_owned()));
    push_tok(&mut r, Token::Open(Delim::Paren));
    push_tok(&mut r, Token::Ident("____v".to_owned()));
    push_tok(&mut r, Token::Close(Delim::Paren));
    push_tok(&mut r, Token::Punct('='));
    push_tok(&mut r, Token::Punct('&'));
    extend_tokens(&mut r, after_eq);
    push_tok(&mut r, Token::Open(Delim::Brace));
    extend_tokens(&mut r, body);
    push_tok(&mut r, Token::Close(Delim::Brace));
    push_tok(&mut r, Token::Ident("else".to_owned()));
    push_tok(&mut r, Token::Open(Delim::Brace));
    push_tok(&mut r, Token::Ident("None".to_owned()));
    push_tok(&mut r, Token::Close(Delim::Brace));
    proof {
        assert(r.deep_view() =~= cond_tokens(variant, gscrut, gbody));
    }
    r
}

/// Builds the accessor that segment `i`'s conditional scrutinizes.
fn scrut_exec(segs: &Vec<Segment>, i: usize) -> (r: Vec<Token>)
    requires
        i < segs@.len(),
    ensures
        r.deep_view() == scrut_tokens(segs.deep_view(), i as int),
{
    let mut r: Vec<Token> = Vec::new();
    if i > 0 {
        push_tok(&mut r, Token::Ident("____v".to_owned()));
        push_tok(&mut r, Token::Punct('.'));
    }
    let span = clone_tokens(&segs[i].tokens);
    extend_tokens(&mut r, span);
    proof {
        assert(segs.deep_view()[i as int] == segs@[i as int].deep_view());
        assert(r.deep_view() =~= scrut_tokens(segs.deep_view(), i as int));
    }
    r
}

/// Builds the nested conditional expression for a segment list.
///
/// Succeeds exactly on well-formed chains; an empty list or an empty span is
/// rejected as `EmptySegment`, and a list whose variants break the chain
/// invariants as `InvalidTerminalVariant`.
pub fn build_expression(segs: &Vec<Segment>) -> (r: Result<Vec<Token>, ChainError>)
    ensures
        match r {
            Ok(out) => build_spec(segs.deep_view()) == Ok::<Seq<TokenV>, ChainError>(
                out.deep_view(),
            ),
            Err(e) => build_spec(segs.deep_view()) == Err::<Seq<TokenV>, ChainError>(e),
        },
{
    let ghost gsegs = segs.deep_view();
    let n = segs.len();
    if n == 0 {
        return Err(ChainError::EmptySegment);
    }
    let mut j: usize = 0;
    while j < n
        invariant
            n == segs@.len(),
            gsegs == segs.deep_view(),
            j <= n,
            forall|q: int| 0 <= q < j ==> (#[trigger] gsegs[q].tokens).len() > 0,
        decreases n - j,
    {
        if segs[j].tokens.is_empty() {
            proof {
                assert(gsegs[j as int].tokens.len() == 0);
            }
            return Err(ChainError::EmptySegment);
        }
        j = j + 1;
    }
    let mut j: usize = 0;
    while j < n - 1
        invariant
            n == segs@.len(),
            n > 0,
            gsegs == segs.deep_view(),
            j <= n - 1,
            forall|q: int| 0 <= q < n ==> (#[trigger] gsegs[q].tokens).len() > 0,
            forall|q: int| 0 <= q < j ==> is_checked(#[trigger] gsegs[q].variant),
        decreases n - j,
    {
        if !checked_variant(segs[j].variant) {
            proof {
                assert(!is_checked(gsegs[j as int].variant));
            }
            return Err(ChainError::InvalidTerminalVariant);
        }
        j = j + 1;
    }
    let lastv = segs[n - 1].variant;
    if !(checked_variant(lastv) || lastv == Variant::Required) {
        return Err(ChainError::InvalidTerminalVariant);
    }
    proof {
        assert(wf_chain(gsegs));
    }
    let scrut = scrut_exec(segs, n - 1);
    let mut result: Vec<Token>;
    if lastv == Variant::Required {
        result = some_wrapper(scrut);
    } else {
        let mut bindv: Vec<Token> = Vec::new();
        bindv.push(Token::Ident("____v".to_owned()));
        proof {
            assert(bindv.deep_view() =~= seq![bind_tok()]);
        }
        result = if_let(lastv, scrut, some_wrapper(bindv));
    }
    proof {
        assert(result.deep_view() == expr_from(gsegs, (n - 1) as int));
    }
    let mut idx: usize = n - 1;
    while idx > 0
        invariant
            n == segs@.len(),
            n > 0,
            gsegs == segs.deep_view(),
            wf_chain(gsegs),
            idx <= n - 1,
            result.deep_view() == expr_from(gsegs, idx as int),
        decreases idx,
    {
        idx = idx - 1;
        proof {
            assert(gsegs[idx as int] == segs@[idx as int].deep_view());
            assert(is_checked(gsegs[idx as int].variant));
        }
        let scrut = scrut_exec(segs, idx);
        result = if_let(segs[idx].variant, scrut, result);
    }
    Ok(result)
}

} // verus!
