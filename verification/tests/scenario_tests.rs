//! End-to-end scenarios: each one compiles a chain expression, checks the
//! exact output token sequence, and then evaluates a literal transcription
//! of that output against concrete data.

use std::cell::Cell;

use option_chain_tool::opt;
use option_chain_tool::segmenter::ChainError;
use option_chain_tool::token::{Delim, Token};

fn id(s: &str) -> Token {
    Token::Ident(s.to_string())
}

fn p(c: char) -> Token {
    Token::Punct(c)
}

fn lit(s: &str) -> Token {
    Token::Literal(s.to_string())
}

fn present(body: Vec<Token>) -> Vec<Token> {
    let mut r = vec![id("Some"), Token::Open(Delim::Paren)];
    r.extend(body);
    r.push(Token::Close(Delim::Paren));
    r
}

fn cond(ctor: &str, scrut: Vec<Token>, body: Vec<Token>) -> Vec<Token> {
    let mut r = vec![
        id("if"),
        id("let"),
        id(ctor),
        Token::Open(Delim::Paren),
        id("____v"),
        Token::Close(Delim::Paren),
        p('='),
        p('&'),
    ];
    r.extend(scrut);
    r.push(Token::Open(Delim::Brace));
    r.extend(body);
    r.push(Token::Close(Delim::Brace));
    r.push(id("else"));
    r.push(Token::Open(Delim::Brace));
    r.push(id("None"));
    r.push(Token::Close(Delim::Brace));
    r
}

struct Address {
    city: Option<&'static str>,
    street: &'static str,
    some_field: Result<&'static str, &'static str>,
}

struct Profile {
    address: Option<Address>,
}

struct User {
    profile: Option<Profile>,
}

fn user_with(
    address: Option<Address>,
) -> User {
    User {
        profile: Some(Profile { address }),
    }
}

fn city_chain() -> Vec<Token> {
    // user.profile?.address?.city?
    vec![
        id("user"),
        p('.'),
        id("profile"),
        p('?'),
        p('.'),
        id("address"),
        p('?'),
        p('.'),
        id("city"),
        p('?'),
    ]
}

#[test]
fn rejections_pass_through_compilation() {
    assert_eq!(opt(&vec![]), Err(ChainError::EmptySegment));
    assert_eq!(
        opt(&vec![p('?'), p('.'), id("a")]),
        Err(ChainError::EmptySegment)
    );
}

#[test]
fn compilation_is_deterministic() {
    let a = opt(&city_chain());
    let b = opt(&city_chain());
    assert_eq!(a, b);
}

#[test]
fn scenario_city_present() {
    let out = opt(&city_chain()).expect("valid chain");
    let expected = cond(
        "Some",
        vec![id("user"), p('.'), id("profile")],
        cond(
            "Some",
            vec![id("____v"), p('.'), id("address")],
            cond(
                "Some",
                vec![id("____v"), p('.'), id("city")],
                present(vec![id("____v")]),
            ),
        ),
    );
    assert_eq!(out, expected);

    // The transcription of that output, evaluated on a receiver where every
    // link is present:
    let user = user_with(Some(Address {
        city: Some("X"),
        street: "S",
        some_field: Ok("V"),
    }));
    let r = if let Some(____v) = &user.profile {
        if let Some(____v) = &____v.address {
            if let Some(____v) = &____v.city {
                Some(____v)
            } else {
                None
            }
        } else {
            None
        }
    } else {
        None
    };
    assert_eq!(r, Some(&"X"));
}

#[test]
fn scenario_absent_address_short_circuits() {
    let user = user_with(None);
    let r = if let Some(____v) = &user.profile {
        if let Some(____v) = &____v.address {
            if let Some(____v) = &____v.city {
                Some(____v)
            } else {
                None
            }
        } else {
            None
        }
    } else {
        None
    };
    assert_eq!(r, None);
}

fn some_field_chain(branch: &str) -> Vec<Token> {
    // user.profile?.address?.some_field?Ok or ...?Err
    vec![
        id("user"),
        p('.'),
        id("profile"),
        p('?'),
        p('.'),
        id("address"),
        p('?'),
        p('.'),
        id("some_field"),
        p('?'),
        id(branch),
    ]
}

#[test]
fn scenario_failure_branch_on_success_value() {
    let out = opt(&some_field_chain("Err")).expect("valid chain");
    let expected = cond(
        "Some",
        vec![id("user"), p('.'), id("profile")],
        cond(
            "Some",
            vec![id("____v"), p('.'), id("address")],
            cond(
                "Err",
                vec![id("____v"), p('.'), id("some_field")],
                present(vec![id("____v")]),
            ),
        ),
    );
    assert_eq!(out, expected);

    // some_field holds the success branch, so the Err check fails: absent.
    let user = user_with(Some(Address {
        city: None,
        street: "S",
        some_field: Ok("V"),
    }));
    let r = if let Some(____v) = &user.profile {
        if let Some(____v) = &____v.address {
            if let Err(____v) = &____v.some_field {
                Some(____v)
            } else {
                None
            }
        } else {
            None
        }
    } else {
        None
    };
    assert_eq!(r, None);
}

#[test]
fn scenario_success_branch_on_success_value() {
    let out = opt(&some_field_chain("Ok")).expect("valid chain");
    assert_eq!(out[..], cond(
        "Some",
        vec![id("user"), p('.'), id("profile")],
        cond(
            "Some",
            vec![id("____v"), p('.'), id("address")],
            cond(
                "Ok",
                vec![id("____v"), p('.'), id("some_field")],
                present(vec![id("____v")]),
            ),
        ),
    )[..]);

    let user = user_with(Some(Address {
        city: None,
        street: "S",
        some_field: Ok("V"),
    }));
    let r = if let Some(____v) = &user.profile {
        if let Some(____v) = &____v.address {
            if let Ok(____v) = &____v.some_field {
                Some(____v)
            } else {
                None
            }
        } else {
            None
        }
    } else {
        None
    };
    assert_eq!(r, Some(&"V"));
}

struct Item {
    name: &'static str,
}

struct TestStruct {
    value: Option<Holder>,
}

struct Holder {
    my_vec: Option<Vec<Item>>,
}

fn vec_chain() -> Vec<Token> {
    // test_struct.value?.my_vec?.get(0)?.name
    vec![
        id("test_struct"),
        p('.'),
        id("value"),
        p('?'),
        p('.'),
        id("my_vec"),
        p('?'),
        p('.'),
        id("get"),
        Token::Open(Delim::Paren),
        lit("0"),
        Token::Close(Delim::Paren),
        p('?'),
        p('.'),
        id("name"),
    ]
}

#[test]
fn scenario_indexed_access() {
    let out = opt(&vec_chain()).expect("valid chain");
    let expected = cond(
        "Some",
        vec![id("test_struct"), p('.'), id("value")],
        cond(
            "Some",
            vec![id("____v"), p('.'), id("my_vec")],
            cond(
                "Some",
                vec![
                    id("____v"),
                    p('.'),
                    id("get"),
                    Token::Open(Delim::Paren),
                    lit("0"),
                    Token::Close(Delim::Paren),
                ],
                present(vec![id("____v"), p('.'), id("name")]),
            ),
        ),
    );
    assert_eq!(out, expected);

    // Non-empty vector: element 0's name comes out present.
    let test_struct = TestStruct {
        value: Some(Holder {
            my_vec: Some(vec![Item { name: "First" }]),
        }),
    };
    let r = if let Some(____v) = &test_struct.value {
        if let Some(____v) = &____v.my_vec {
            if let Some(____v) = &____v.get(0) {
                Some(____v.name)
            } else {
                None
            }
        } else {
            None
        }
    } else {
        None
    };
    assert_eq!(r, Some("First"));

    // Empty vector: the get(0) check fails, so the result is absent.
    let test_struct = TestStruct {
        value: Some(Holder {
            my_vec: Some(vec![]),
        }),
    };
    let r = if let Some(____v) = &test_struct.value {
        if let Some(____v) = &____v.my_vec {
            if let Some(____v) = &____v.get(0) {
                Some(____v.name)
            } else {
                None
            }
        } else {
            None
        }
    } else {
        None
    };
    assert_eq!(r, None);
}

#[test]
fn scenario_no_markers_is_unconditional() {
    let out = opt(&vec![id("address"), p('.'), id("street")]).expect("valid chain");
    assert_eq!(out, present(vec![id("address"), p('.'), id("street")]));

    let address = Address {
        city: None,
        street: "5th",
        some_field: Err("e"),
    };
    let r = Some(address.street);
    assert_eq!(r, Some("5th"));
}

struct Probe {
    fail_at: usize,
    calls: Cell<usize>,
}

impl Probe {
    fn step(&self, i: usize) -> Option<&Probe> {
        let seen = self.calls.get();
        if i + 1 > seen {
            self.calls.set(i + 1);
        }
        if i >= self.fail_at {
            None
        } else {
            Some(self)
        }
    }
}

#[test]
fn short_circuit_stops_at_first_failing_check() {
    // probe.step(0)?.step(1)?.step(2)?.step(3)?
    // The transcription of the compiled chain, with a receiver whose
    // second check (segment 1) fails: later accessors never run.
    let probe = Probe {
        fail_at: 1,
        calls: Cell::new(0),
    };
    let r = if let Some(____v) = &probe.step(0) {
        if let Some(____v) = &____v.step(1) {
            if let Some(____v) = &____v.step(2) {
                if let Some(____v) = &____v.step(3) {
                    Some(____v.fail_at)
                } else {
                    None
                }
            } else {
                None
            }
        } else {
            None
        }
    } else {
        None
    };
    assert!(r.is_none());
    // Accessors 0 and 1 ran; accessors 2 and 3 were never evaluated.
    assert_eq!(probe.calls.get(), 2);
}
