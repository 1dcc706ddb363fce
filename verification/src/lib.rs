//! A compiler for short-circuit chain expressions.
//!
//! A chain expression is a sequence of field and method accesses interleaved
//! with short-circuit markers: a bare `?` marker for optional containers, and
//! `?Ok` / `?Err` markers for the two branches of a dual-result container.
//! The compiler splits the chain into segments around its markers and emits a
//! single nested conditional expression that evaluates the chain lazily,
//! stopping at the first failing check with an absent result, or wrapping the
//! final value as present.

use vstd::prelude::*;

pub mod builder;
pub mod laws;
pub mod segmenter;
pub mod token;

verus! {

use crate::builder::{build_expression, build_spec};
use crate::segmenter::{segment_spec, split_on_optional_variants, ChainError};
use crate::token::{Token, TokenV};

/// What compiling a whole chain expression returns: the segments of the
/// input, fed to the expression builder; a rejected input's error passes
/// through unchanged.
pub open spec fn compile_spec(toks: Seq<TokenV>) -> Result<Seq<TokenV>, ChainError> {
    match segment_spec(toks) {
        Ok(segs) => build_spec(segs),
        Err(e) => Err(e),
    }
}

/// Compiles one chain expression into a single nested conditional
/// expression, or rejects it: an empty accessor span anywhere in the input
/// (including an input with no tokens at all) is reported as
/// `EmptySegment`, and nothing else is rejected.
pub fn opt(input: &Vec<Token>) -> (r: Result<Vec<Token>, ChainError>)
    ensures
        match r {
            Ok(out) => compile_spec(input.deep_view()) == Ok::<Seq<TokenV>, ChainError>(
                out.deep_view(),
            ),
            Err(e) => compile_spec(input.deep_view()) == Err::<Seq<TokenV>, ChainError>(e),
        },
{
    let segs = match split_on_optional_variants(input) {
        Ok(s) => s,
        Err(e) => {
            return Err(e);
        },
    };
    build_expression(&segs)
}

} // verus!
