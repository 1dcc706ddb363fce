use option_chain_tool::builder::{build_expression, if_let, some_wrapper};
use option_chain_tool::segmenter::{ChainError, Segment, Variant};
use option_chain_tool::token::{Delim, Token};

fn id(s: &str) -> Token {
    Token::Ident(s.to_string())
}

fn p(c: char) -> Token {
    Token::Punct(c)
}

fn present(body: Vec<Token>) -> Vec<Token> {
    let mut r = vec![id("Some"), Token::Open(Delim::Paren)];
    r.extend(body);
    r.push(Token::Close(Delim::Paren));
    r
}

fn cond(ctor: &str, scrut: Vec<Token>, body: Vec<Token>) -> Vec<Token> {
    let mut r = vec![
        id("if"),
        id("let"),
        id(ctor),
        Token::Open(Delim::Paren),
        id("____v"),
        Token::Close(Delim::Paren),
        p('='),
        p('&'),
    ];
    r.extend(scrut);
    r.push(Token::Open(Delim::Brace));
    r.extend(body);
    r.push(Token::Close(Delim::Brace));
    r.push(id("else"));
    r.push(Token::Open(Delim::Brace));
    r.push(id("None"));
    r.push(Token::Close(Delim::Brace));
    r
}

#[test]
fn some_wrapper_wraps() {
    assert_eq!(
        some_wrapper(vec![id("____v")]),
        vec![
            id("Some"),
            Token::Open(Delim::Paren),
            id("____v"),
            Token::Close(Delim::Paren),
        ]
    );
}

#[test]
fn if_let_optional_shape() {
    let r = if_let(
        Variant::Optional,
        vec![id("a"), p('.'), id("b")],
        vec![id("body")],
    );
    assert_eq!(
        r,
        cond("Some", vec![id("a"), p('.'), id("b")], vec![id("body")])
    );
}

#[test]
fn if_let_branch_constructors() {
    let ok = if_let(Variant::SuccessBranch, vec![id("a")], vec![id("b")]);
    assert_eq!(ok[2], id("Ok"));
    let err = if_let(Variant::FailureBranch, vec![id("a")], vec![id("b")]);
    assert_eq!(err[2], id("Err"));
}

#[test]
fn builds_single_required_segment() {
    // address.street with no markers: an unconditional present-wrap
    let segs = vec![Segment {
        variant: Variant::Required,
        tokens: vec![id("address"), p('.'), id("street")],
    }];
    let out = build_expression(&segs).expect("well-formed chain");
    assert_eq!(out, present(vec![id("address"), p('.'), id("street")]));
}

#[test]
fn builds_single_checked_segment() {
    let segs = vec![Segment {
        variant: Variant::Optional,
        tokens: vec![id("a")],
    }];
    let out = build_expression(&segs).expect("well-formed chain");
    assert_eq!(out, cond("Some", vec![id("a")], present(vec![id("____v")])));
}

#[test]
fn nesting_depth_is_one_conditional_per_non_terminal_segment() {
    // two non-terminal segments around a Required terminal: two conditionals
    let segs = vec![
        Segment {
            variant: Variant::Optional,
            tokens: vec![id("a")],
        },
        Segment {
            variant: Variant::SuccessBranch,
            tokens: vec![id("b")],
        },
        Segment {
            variant: Variant::Required,
            tokens: vec![id("c")],
        },
    ];
    let out = build_expression(&segs).expect("well-formed chain");
    let expected = cond(
        "Some",
        vec![id("a")],
        cond(
            "Ok",
            vec![id("____v"), p('.'), id("b")],
            present(vec![id("____v"), p('.'), id("c")]),
        ),
    );
    assert_eq!(out, expected);
    // a checked terminal adds its own final conditional on top of those
    let segs = vec![
        Segment {
            variant: Variant::Optional,
            tokens: vec![id("a")],
        },
        Segment {
            variant: Variant::Optional,
            tokens: vec![id("b")],
        },
    ];
    let out = build_expression(&segs).expect("well-formed chain");
    let expected = cond(
        "Some",
        vec![id("a")],
        cond(
            "Some",
            vec![id("____v"), p('.'), id("b")],
            present(vec![id("____v")]),
        ),
    );
    assert_eq!(out, expected);
}

#[test]
fn empty_segment_list_is_rejected() {
    assert_eq!(
        build_expression(&vec![]),
        Err(ChainError::EmptySegment)
    );
}

#[test]
fn empty_span_is_rejected() {
    let segs = vec![
        Segment {
            variant: Variant::Optional,
            tokens: vec![],
        },
        Segment {
            variant: Variant::Required,
            tokens: vec![id("a")],
        },
    ];
    assert_eq!(build_expression(&segs), Err(ChainError::EmptySegment));
}

#[test]
fn non_terminal_required_is_rejected() {
    let segs = vec![
        Segment {
            variant: Variant::Required,
            tokens: vec![id("a")],
        },
        Segment {
            variant: Variant::Optional,
            tokens: vec![id("b")],
        },
    ];
    assert_eq!(
        build_expression(&segs),
        Err(ChainError::InvalidTerminalVariant)
    );
}

#[test]
fn root_variant_is_rejected() {
    let segs = vec![Segment {
        variant: Variant::Root,
        tokens: vec![id("a")],
    }];
    assert_eq!(
        build_expression(&segs),
        Err(ChainError::InvalidTerminalVariant)
    );
}
