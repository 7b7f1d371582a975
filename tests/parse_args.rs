use poise::args::{parse_prefix_args, Binding, Slot};
use poise::token::{ArgErrorKind, ArgValue, ValueKind};

#[derive(Debug, PartialEq)]
enum V {
    T(String),
    I(u32),
    C(String, Option<String>),
}

#[derive(Debug, PartialEq)]
enum B {
    One(V),
    Opt(Option<V>),
    Many(Vec<V>),
    Flag(bool),
}

fn v(a: ArgValue) -> V {
    match a {
        ArgValue::Text(t) => V::T(t),
        ArgValue::Integer(n) => V::I(n),
        ArgValue::Code(c) => V::C(c.code, c.language),
    }
}

fn parse(args: &str, slots: Vec<Slot>) -> Result<Vec<B>, ArgErrorKind> {
    match parse_prefix_args(args, &slots) {
        Ok(bs) => Ok(bs
            .into_iter()
            .map(|b| match b {
                Binding::Value(a) => B::One(v(a)),
                Binding::Optional(o) => B::Opt(o.map(v)),
                Binding::Values(vs) => B::Many(vs.into_iter().map(v).collect()),
                Binding::Flag(f) => B::Flag(f),
            })
            .collect()),
        Err(e) => Err(e.kind),
    }
}

fn t(s: &str) -> V {
    V::T(s.to_string())
}

fn is_too_few(r: &Result<Vec<B>, ArgErrorKind>) -> bool {
    matches!(r, Err(ArgErrorKind::TooFewArguments))
}

use Slot::{Flag, OptionalGreedy, OptionalLazy, Repeated, RestOptional, RestRequired, Required};
use ValueKind::{Code, Integer, Text};

#[test]
fn test_parse_args() {
    assert_eq!(
        parse("hello", vec![OptionalGreedy(Text), Required(Text)]).unwrap(),
        vec![B::Opt(None), B::One(t("hello"))],
    );
    assert_eq!(
        parse("a b c", vec![Repeated(Text), Required(Text)]).unwrap(),
        vec![B::Many(vec![t("a"), t("b")]), B::One(t("c"))],
    );
    assert_eq!(
        parse("a b c", vec![Repeated(Text), Repeated(Text)]).unwrap(),
        vec![B::Many(vec![t("a"), t("b"), t("c")]), B::Many(vec![])],
    );
    assert_eq!(
        parse("a b 8 c", vec![Repeated(Text), Required(Integer), Repeated(Text)]).unwrap(),
        vec![B::Many(vec![t("a"), t("b")]), B::One(V::I(8)), B::Many(vec![t("c")])],
    );
    assert_eq!(
        parse("yoo `that's cool` !", vec![Required(Text), Required(Code), Required(Text)]).unwrap(),
        vec![B::One(t("yoo")), B::One(V::C("that's cool".to_string(), None)), B::One(t("!"))],
    );
    assert_eq!(
        parse("hi", vec![OptionalLazy(Text), OptionalGreedy(Text)]).unwrap(),
        vec![B::Opt(None), B::Opt(Some(t("hi")))],
    );
    assert_eq!(
        parse("a b c", vec![Required(Text), RestRequired(Text)]).unwrap(),
        vec![B::One(t("a")), B::One(t("b c"))],
    );
    assert_eq!(
        parse("a b c", vec![Required(Text), RestRequired(Text)]).unwrap(),
        vec![B::One(t("a")), B::One(t("b c"))],
    );
    assert!(is_too_few(&parse("hello", vec![Flag("hello".to_string()), RestRequired(Text)])));
    assert_eq!(
        parse("helloo", vec![Flag("hello".to_string()), RestRequired(Text)]).unwrap(),
        vec![B::Flag(false), B::One(t("helloo"))],
    );
}

#[test]
fn greedy_and_lazy_options_differ() {
    assert_eq!(
        parse("hi", vec![OptionalLazy(Text), OptionalGreedy(Text)]).unwrap(),
        vec![B::Opt(None), B::Opt(Some(t("hi")))],
    );
    assert_eq!(
        parse("hi", vec![OptionalGreedy(Text), OptionalGreedy(Text)]).unwrap(),
        vec![B::Opt(Some(t("hi"))), B::Opt(None)],
    );
}

#[test]
fn repetition_takes_as_much_as_the_rest_allows() {
    assert_eq!(
        parse("a b c", vec![Repeated(Text), Required(Text)]).unwrap(),
        vec![B::Many(vec![t("a"), t("b")]), B::One(t("c"))],
    );
    assert_eq!(
        parse("a b c", vec![Repeated(Text), Repeated(Text)]).unwrap(),
        vec![B::Many(vec![t("a"), t("b"), t("c")]), B::Many(vec![])],
    );
}

#[test]
fn mixed_repetition_backtracks() {
    assert_eq!(
        parse("a b 8 c", vec![Repeated(Text), Required(Integer), Repeated(Text)]).unwrap(),
        vec![B::Many(vec![t("a"), t("b")]), B::One(V::I(8)), B::Many(vec![t("c")])],
    );
}

#[test]
fn rest_keeps_inner_whitespace() {
    assert_eq!(
        parse("a b   c", vec![Required(Text), RestRequired(Text)]).unwrap(),
        vec![B::One(t("a")), B::One(t("b   c"))],
    );
}

#[test]
fn flag_does_not_backtrack() {
    assert_eq!(
        parse("helloo", vec![Flag("hello".to_string()), RestRequired(Text)]).unwrap(),
        vec![B::Flag(false), B::One(t("helloo"))],
    );
    assert!(is_too_few(&parse("hello", vec![Flag("hello".to_string()), RestRequired(Text)])));
}

#[test]
fn flag_matches_ignoring_ascii_case() {
    assert_eq!(
        parse("HeLLo world", vec![Flag("hello".to_string()), RestRequired(Text)]).unwrap(),
        vec![B::Flag(true), B::One(t("world"))],
    );
}

#[test]
fn flag_mismatch_is_the_error_after_a_missed_flag() {
    match parse("x y", vec![Flag("hello".to_string()), Required(Text)]) {
        Err(ArgErrorKind::FlagMismatch(f)) => assert_eq!(f, "hello"),
        other => panic!("unexpected {:?}", other),
    }
    match parse_prefix_args("", &vec![Flag("hello".to_string())]) {
        Ok(bs) => assert!(matches!(bs[0], Binding::Flag(false))),
        Err(e) => panic!("unexpected {:?}", e),
    }
    match parse_prefix_args("x", &vec![Flag("hello".to_string())]) {
        Err(e) => match e.kind {
            ArgErrorKind::FlagMismatch(f) => assert_eq!(f, "hello"),
            other => panic!("unexpected {:?}", other),
        },
        Ok(_) => panic!("expected an error"),
    }
}

#[test]
fn parsing_twice_gives_the_same_result() {
    let slots = || vec![Repeated(Text), Required(Integer), Repeated(Text)];
    assert_eq!(parse("a b 8 c", slots()), parse("a b 8 c", slots()));
    assert_eq!(parse("a b c", slots()), parse("a b c", slots()));
}

#[test]
fn too_many_arguments_is_the_default_error() {
    assert!(matches!(parse("a b", vec![Required(Text)]), Err(ArgErrorKind::TooManyArguments)));
    assert_eq!(parse("a   ", vec![Required(Text)]).unwrap(), vec![B::One(t("a"))]);
}

#[test]
fn too_few_arguments() {
    assert!(is_too_few(&parse("", vec![Required(Text)])));
    assert!(is_too_few(&parse("   ", vec![RestRequired(Text)])));
}

#[test]
fn empty_input_with_no_slots() {
    assert_eq!(parse("", vec![]).unwrap(), vec![]);
    assert_eq!(parse("  ", vec![]).unwrap(), vec![]);
}

#[test]
fn invalid_integer_carries_the_literal() {
    match parse_prefix_args("x12", &vec![Required(Integer)]) {
        Err(e) => {
            assert!(matches!(e.kind, ArgErrorKind::InvalidInteger));
            assert_eq!(e.literal, Some("x12".to_string()));
        }
        Ok(_) => panic!("expected an error"),
    }
}

#[test]
fn integer_edges() {
    assert_eq!(parse("4294967295", vec![Required(Integer)]).unwrap(), vec![B::One(V::I(4294967295))]);
    assert!(matches!(parse("4294967296", vec![Required(Integer)]), Err(ArgErrorKind::InvalidInteger)));
    assert_eq!(parse("+7", vec![Required(Integer)]).unwrap(), vec![B::One(V::I(7))]);
    assert!(matches!(parse("+", vec![Required(Integer)]), Err(ArgErrorKind::InvalidInteger)));
    assert!(matches!(parse("-1", vec![Required(Integer)]), Err(ArgErrorKind::InvalidInteger)));
}

#[test]
fn invalid_code_block() {
    assert!(matches!(parse("plain", vec![Required(Code)]), Err(ArgErrorKind::InvalidCodeBlock)));
}

#[test]
fn code_block_with_language() {
    assert_eq!(
        parse("```rust\nfn main() {}```", vec![Required(Code)]).unwrap(),
        vec![B::One(V::C("fn main() {}".to_string(), Some("rust".to_string())))],
    );
}

#[test]
fn quotes_group_words_and_backslash_escapes() {
    assert_eq!(
        parse("\"a b\" c\\ d", vec![Required(Text), Required(Text)]).unwrap(),
        vec![B::One(t("a b")), B::One(t("c d"))],
    );
}

#[test]
fn optional_rest_binds_nothing_on_empty_text() {
    assert_eq!(parse("  ", vec![RestOptional(Text)]).unwrap(), vec![B::Opt(None)]);
    assert_eq!(parse(" x y", vec![RestOptional(Text)]).unwrap(), vec![B::Opt(Some(t("x y")))]);
}

#[test]
fn documented_examples() {
    assert_eq!(
        parse("one two three four", vec![Required(Text), OptionalGreedy(Integer), RestRequired(Text)]).unwrap(),
        vec![B::One(t("one")), B::Opt(None), B::One(t("two three four"))],
    );
    assert_eq!(
        parse("1 2 3 4", vec![Required(Text), OptionalGreedy(Integer), RestRequired(Text)]).unwrap(),
        vec![B::One(t("1")), B::Opt(Some(V::I(2))), B::One(t("3 4"))],
    );
}
