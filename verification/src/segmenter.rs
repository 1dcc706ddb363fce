//! The segmenter: splits a chain expression around its short-circuit markers.
//!
//! A marker is the punctuation character `?`, either followed by the member
//! separator `.` (an optional-container check), or followed by one of the two
//! branch keywords `Ok` / `Err` and then the separator (a dual-result check).
//! A marker at the very end of the input omits the separator and only retags
//! the final segment.  A `?` that fits neither shape is an ordinary token of
//! the host language and stays in the current span, as does everything inside
//! a grouped sub-expression.
//!
//! Each produced segment carries the check that applies to the value produced
//! by its own span: the marker that closes a span tags that span's segment,
//! and the trailing marker (or its absence) tags the final segment.

use vstd::prelude::*;

use crate::token::{Token, TokenV};

verus! {

/// The check applied to the value a segment produces before it may feed the
/// next segment.
#[derive(Clone, Copy, Debug, PartialEq, Eq, Structural)]
pub enum Variant {
    /// The base expression before any marker applies.  The segmenter
    /// resolves every segment's variant from the marker that closes it (or
    /// from the trailing rule), so no segment it produces carries `Root`;
    /// the builder rejects a chain that still does.
    Root,
    /// The value is an optional container; unwrap succeeds if it holds a value.
    Optional,
    /// The value is a dual-result container; unwrap succeeds on the success branch.
    SuccessBranch,
    /// The value is a dual-result container; unwrap succeeds on the failure branch.
    FailureBranch,
    /// Terminal only: no check, the span's value is used as it stands.
    Required,
}

/// One span of tokens between markers, tagged with the check that applies to
/// the value this very span produces.
#[derive(Debug, PartialEq, Eq)]
pub struct Segment {
    pub variant: Variant,
    pub tokens: Vec<Token>,
}

/// The mathematical value of a segment.
#[verifier::ext_equal]
pub ghost struct SegV {
    pub variant: Variant,
    pub tokens: Seq<TokenV>,
}

impl DeepView for Segment {
    type V = SegV;

    open spec fn deep_view(&self) -> SegV {
        SegV { variant: self.variant, tokens: self.tokens.deep_view() }
    }
}

/// Why a compilation is rejected.
#[derive(Clone, Copy, Debug, PartialEq, Eq, Structural)]
pub enum ChainError {
    /// A span between two markers, before the first marker, or after the last
    /// marker holds no tokens: an empty accessor path is never meaningful.
    EmptySegment,
    /// A segment list handed to the expression builder breaks the chain
    /// invariants: a non-terminal segment without a real check, or any
    /// segment still tagged `Root`.  The segmenter never produces such a
    /// list, so meeting this error means the builder was fed by hand.
    InvalidTerminalVariant,
}

/// The variant denoted by a branch keyword, if the token is one.
pub open spec fn spec_branch_keyword(t: TokenV) -> Option<Variant> {
    if t == TokenV::Ident("Ok"@) {
        Some(Variant::SuccessBranch)
    } else if t == TokenV::Ident("Err"@) {
        Some(Variant::FailureBranch)
    } else {
        None
    }
}

/// Nesting depth after reading one token: markers are only recognized at
/// depth zero, so everything inside a grouped sub-expression stays opaque.
pub open spec fn next_depth(depth: nat, t: TokenV) -> nat {
    match t {
        TokenV::Open(_) => depth + 1,
        TokenV::Close(_) => if depth > 0 { (depth - 1) as nat } else { 0 },
        _ => depth,
    }
}

/// The marker that begins at the head of `rest`, if any: its variant and the
/// number of tokens it spans.  A marker whose last token is the separator
/// `.` closes the current span and opens a new one; the separator-less forms
/// only exist at the very end of the input, where they determine the final
/// segment's variant without opening anything.
pub open spec fn marker_at(rest: Seq<TokenV>) -> Option<(Variant, nat)> {
    if rest.len() >= 1 && rest[0] == TokenV::Punct('?') {
        if rest.len() == 1 {
            Some((Variant::Optional, 1 as nat))
        } else if rest[1] == TokenV::Punct('.') {
            Some((Variant::Optional, 2 as nat))
        } else {
            match spec_branch_keyword(rest[1]) {
                Some(v) => {
                    if rest.len() == 2 {
                        Some((v, 2 as nat))
                    } else if rest[2] == TokenV::Punct('.') {
                        Some((v, 3 as nat))
                    } else {
                        None
                    }
                },
                None => None,
            }
        }
    } else {
        None
    }
}

/// The whole scan, as a function of the scanning state: the tokens not yet
/// read, the current nesting depth, the span being accumulated, and the
/// segments already finished.  An unrecognized `?` stays in the span; a
/// recognized marker closes the span (rejecting an empty one) and tags it; at
/// the end of the input the last span becomes the terminal segment, tagged by
/// the trailing marker if one closed it, and `Required` otherwise.
pub open spec fn scan(
    rest: Seq<TokenV>,
    depth: nat,
    cur: Seq<TokenV>,
    acc: Seq<SegV>,
) -> Result<Seq<SegV>, ChainError>
    decreases rest.len(),
{
    if rest.len() == 0 {
        if cur.len() == 0 {
            Err(ChainError::EmptySegment)
        } else {
            Ok(acc.push(SegV { variant: Variant::Required, tokens: cur }))
        }
    } else {
        match (if depth == 0 { marker_at(rest) } else { None }) {
            Some((v, k)) => {
                if cur.len() == 0 {
                    Err(ChainError::EmptySegment)
                } else if rest[k - 1] == TokenV::Punct('.') {
                    scan(
                        rest.skip(k as int),
                        0,
                        Seq::empty(),
                        acc.push(SegV { variant: v, tokens: cur }),
                    )
                } else {
                    Ok(acc.push(SegV { variant: v, tokens: cur }))
                }
            },
            None => scan(rest.skip(1), next_depth(depth, rest[0]), cur.push(rest[0]), acc),
        }
    }
}

/// What the segmenter returns on a whole input.
pub open spec fn segment_spec(toks: Seq<TokenV>) -> Result<Seq<SegV>, ChainError> {
    scan(toks, 0, Seq::empty(), Seq::empty())
}

/// The mathematical value of the segmenter's result.
pub open spec fn seg_result_view(r: Result<Vec<Segment>, ChainError>) -> Result<
    Seq<SegV>,
    ChainError,
> {
    match r {
        Ok(segs) => Ok(segs.deep_view()),
        Err(e) => Err(e),
    }
}

/// After a push, the deep view of a vector is the deep view of the old
/// vector with the new element's value at the end.
pub proof fn lemma_deep_view_push<T: DeepView>(pre: Vec<T>, post: Vec<T>, t: T)
    requires
        post@ == pre@.push(t),
    ensures
        post.deep_view() == pre.deep_view().push(t.deep_view()),
{
    assert(post.deep_view() =~= pre.deep_view().push(t.deep_view()));
}

/// Whether `t` is the punctuation character `c`.
fn is_punct(t: &Token, c: char) -> (r: bool)
    ensures
        r == (t.deep_view() == TokenV::Punct(c)),
{
    match t {
        Token::Punct(p) => *p == c,
        _ => false,
    }
}

/// Whether `t` is one of the two branch keywords, and which.
fn branch_keyword(t: &Token, ok_word: &String, err_word: &String) -> (r: Option<Variant>)
    requires
        ok_word@ == "Ok"@,
        err_word@ == "Err"@,
    ensures
        r == spec_branch_keyword(t.deep_view()),
{
    match t {
        Token::Ident(s) => {
            if *s == *ok_word {
                Some(Variant::SuccessBranch)
            } else if *s == *err_word {
                Some(Variant::FailureBranch)
            } else {
                None
            }
        },
        _ => None,
    }
}

/// The marker beginning at position `i` of the input, if any, as `marker_at`
/// recognizes it on the unread suffix; the flag says whether it is the
/// separator-less trailing form, which always ends the input.
fn marker_lookahead(input: &Vec<Token>, i: usize, ok_word: &String, err_word: &String) -> (r:
    Option<(Variant, usize, bool)>)
    requires
        i < input@.len(),
        ok_word@ == "Ok"@,
        err_word@ == "Err"@,
    ensures
        match r {
            Some(p) => {
                &&& 1 <= p.1 <= input@.len() - i
                &&& marker_at(input.deep_view().skip(i as int)) == Some((p.0, p.1 as nat))
                &&& p.2 == (input.deep_view().skip(i as int)[p.1 - 1] != TokenV::Punct('.'))
                &&& (p.2 ==> i + p.1 == input@.len())
            },
            None => marker_at(input.deep_view().skip(i as int)) is None,
        },
{
    let ghost rest = input.deep_view().skip(i as int);
    proof {
        assert(rest.len() == input@.len() - i);
        assert(rest[0] == input.deep_view()[i as int]);
    }
    if !is_punct(&input[i], '?') {
        return None;
    }
    if i == input.len() - 1 {
        return Some((Variant::Optional, 1, true));
    }
    proof {
        assert(rest[1] == input.deep_view()[i as int + 1]);
    }
    if is_punct(&input[i + 1], '.') {
        return Some((Variant::Optional, 2, false));
    }
    match branch_keyword(&input[i + 1], ok_word, err_word) {
        Some(v) => {
            if i == input.len() - 2 {
                Some((v, 2, true))
            } else {
                proof {
                    assert(rest[2] == input.deep_view()[i as int + 2]);
                }
                if is_punct(&input[i + 2], '.') {
                    Some((v, 3, false))
                } else {
                    None
                }
            }
        },
        None => None,
    }
}

/// Splits a chain expression into its segments.
///
/// The result is exactly what `scan` says of the input: one segment per span
/// between recognized markers, each tagged with the check on its own value,
/// the last one tagged by the trailing marker or `Required`; an empty span
/// anywhere rejects the whole input.
pub fn split_on_optional_variants(input: &Vec<Token>) -> (r: Result<Vec<Segment>, ChainError>)
    ensures
        seg_result_view(r) == segment_spec(input.deep_view()),
{
    let ghost toks = input.deep_view();
    let ok_word: String = "Ok".to_owned();
    let err_word: String = "Err".to_owned();
    let mut i: usize = 0;
    let mut depth: usize = 0;
    let mut cur: Vec<Token> = Vec::new();
    let mut acc: Vec<Segment> = Vec::new();
    proof {
        assert(cur.deep_view() =~= Seq::<TokenV>::empty());
        assert(acc.deep_view() =~= Seq::<SegV>::empty());
        assert(toks.skip(0) =~= toks);
    }
    while i < input.len()
        invariant
            i <= input@.len(),
            depth <= i,
            toks == input.deep_view(),
            ok_word@ == "Ok"@,
            err_word@ == "Err"@,
            segment_spec(toks) == scan(
                toks.skip(i as int),
                depth as nat,
                cur.deep_view(),
                acc.deep_view(),
            ),
        decreases input@.len() - i,
    {
        let ghost rest = toks.skip(i as int);
        let ghost pre_depth = depth as nat;
        let ghost pre_cur = cur.deep_view();
        let ghost pre_acc = acc.deep_view();
        let m = if depth == 0 {
            marker_lookahead(input, i, &ok_word, &err_word)
        } else {
            None
        };
        match m {
            Some((v, k, trailing)) => {
                if cur.is_empty() {
                    return Err(ChainError::EmptySegment);
                }
                let seg = Segment { variant: v, tokens: cur };
                let ghost pre_vec = acc;
                let ghost gseg = seg;
                cur = Vec::new();
                acc.push(seg);
                proof {
                    lemma_deep_view_push(pre_vec, acc, gseg);
                    assert(cur.deep_view() =~= Seq::<TokenV>::empty());
                }
                if trailing {
                    return Ok(acc);
                }
                i = i + k;
                proof {
                    assert(rest.skip(k as int) =~= toks.skip(i as int));
                }
            },
            None => {
                let t = &input[i];
                match t {
                    Token::Open(_) => {
                        depth = depth + 1;
                    },
                    Token::Close(_) => {
                        if depth > 0 {
                            depth = depth - 1;
                        }
                    },
                    _ => {},
                }
                let c = t.clone();
                let ghost pre_vec = cur;
                cur.push(c);
                i = i + 1;
                proof {
                    assert(rest[0] == toks[i - 1]);
                    assert(depth as nat == next_depth(pre_depth, rest[0]));
                    lemma_deep_view_push(pre_vec, cur, c);
                    assert(rest.skip(1) =~= toks.skip(i as int));
                }
            },
        }
    }
    proof {
        assert(toks.skip(i as int) =~= Seq::<TokenV>::empty());
    }
    if cur.is_empty() {
        return Err(ChainError::EmptySegment);
    }
    let seg = Segment { variant: Variant::Required, tokens: cur };
    let ghost pre_vec = acc;
    let ghost gseg = seg;
    acc.push(seg);
    proof {
        lemma_deep_view_push(pre_vec, acc, gseg);
    }
    Ok(acc)
}

} // verus!
