//! Parsing, classification, error reporting and evaluation of expressions.

use cfg_expr::lexer::LexReason;
use cfg_expr::targets::{Endian, Env, Family, Os};
use cfg_expr::{Expression, ParseReason, Predicate, TargetPredicate};

fn flags(names: &[&str]) -> Vec<Predicate> {
    names.iter().map(|n| Predicate::Flag(n.to_string())).collect()
}

#[test]
fn parses_bare_flag() {
    let e = Expression::parse("foo").unwrap();
    assert_eq!(e.predicates(), flags(&["foo"]));
    assert_eq!(e.original_text(), "foo");
}

#[test]
fn parses_known_bare_predicates() {
    assert_eq!(
        Expression::parse("unix").unwrap().predicates(),
        vec![Predicate::Target(TargetPredicate::Family(Family::unix))]
    );
    assert_eq!(
        Expression::parse("windows").unwrap().predicates(),
        vec![Predicate::Target(TargetPredicate::Family(Family::windows))]
    );
    assert_eq!(Expression::parse("test").unwrap().predicates(), vec![Predicate::Test]);
    assert_eq!(
        Expression::parse("debug_assertions").unwrap().predicates(),
        vec![Predicate::DebugAssertions]
    );
    assert_eq!(Expression::parse("proc_macro").unwrap().predicates(), vec![Predicate::ProcMacro]);
}

#[test]
fn parses_key_value_predicates() {
    assert_eq!(
        Expression::parse("feature = \"serde\"").unwrap().predicates(),
        vec![Predicate::Feature("serde".to_string())]
    );
    assert_eq!(
        Expression::parse("target_feature = \"sse2\"").unwrap().predicates(),
        vec![Predicate::TargetFeature("sse2".to_string())]
    );
    assert_eq!(
        Expression::parse("frobnicate = \"yes\"").unwrap().predicates(),
        vec![Predicate::KeyValue { key: "frobnicate".to_string(), val: "yes".to_string() }]
    );
    assert_eq!(
        Expression::parse("target_endian = \"big\"").unwrap().predicates(),
        vec![Predicate::Target(TargetPredicate::Endian(Endian::big))]
    );
    assert_eq!(
        Expression::parse("target_pointer_width = \"16\"").unwrap().predicates(),
        vec![Predicate::Target(TargetPredicate::PointerWidth(16))]
    );
}

#[test]
fn predicates_in_source_order() {
    // the round trip: the predicates come back exactly as written, in
    // source order, with the combinators skipped
    let e = Expression::parse("all(not(windows), target_env = \"musl\")").unwrap();
    assert_eq!(
        e.predicates(),
        vec![
            Predicate::Target(TargetPredicate::Family(Family::windows)),
            Predicate::Target(TargetPredicate::Env(Env("musl".to_string()))),
        ]
    );
}

#[test]
fn rejects_trailing_paren_as_unbalanced() {
    let err = Expression::parse("all(target_os))").unwrap_err();
    assert_eq!(err.reason, ParseReason::UnbalancedParens);
    assert_eq!((err.start, err.end), (14, 15));
}

#[test]
fn rejects_malformed_pointer_width() {
    let err = Expression::parse("target_pointer_width = \"sixty-four\"").unwrap_err();
    assert_eq!(err.reason, ParseReason::InvalidPointerWidth);
    let err = Expression::parse("target_pointer_width = \"128\"").unwrap_err();
    assert_eq!(err.reason, ParseReason::InvalidPointerWidth);
    let err = Expression::parse("target_pointer_width = \"\"").unwrap_err();
    assert_eq!(err.reason, ParseReason::InvalidPointerWidth);
}

#[test]
fn pointer_width_is_decoded_as_an_integer() {
    // leading zeros still decode to a value in the accepted set
    let e = Expression::parse("target_pointer_width = \"032\"").unwrap();
    assert_eq!(e.predicates(), vec![Predicate::Target(TargetPredicate::PointerWidth(32))]);
}

#[test]
fn rejects_trailing_expression() {
    let err = Expression::parse("foo bar").unwrap_err();
    assert_eq!(err.reason, ParseReason::MultipleRootExpressions);
    assert_eq!((err.start, err.end), (4, 7));
}

#[test]
fn rejects_bad_endian_and_family() {
    let err = Expression::parse("target_endian = \"middle\"").unwrap_err();
    assert_eq!(err.reason, ParseReason::InvalidEndian);
    let err = Expression::parse("target_family = \"amiga\"").unwrap_err();
    assert_eq!(err.reason, ParseReason::InvalidFamily);
}

#[test]
fn rejects_empty_input_and_missing_operand() {
    assert_eq!(Expression::parse("").unwrap_err().reason, ParseReason::Empty);
    assert_eq!(Expression::parse("  ").unwrap_err().reason, ParseReason::Empty);
    assert_eq!(Expression::parse("all(foo,").unwrap_err().reason, ParseReason::Empty);
}

#[test]
fn rejects_unclosed_function_as_unbalanced() {
    assert_eq!(Expression::parse("not(foo").unwrap_err().reason, ParseReason::UnbalancedParens);
    assert_eq!(Expression::parse("all(foo").unwrap_err().reason, ParseReason::UnbalancedParens);
}

#[test]
fn rejects_dangling_equals() {
    assert_eq!(Expression::parse("foo =").unwrap_err().reason, ParseReason::UnexpectedToken);
    assert_eq!(Expression::parse("foo = bar").unwrap_err().reason, ParseReason::UnexpectedToken);
}

#[test]
fn reports_lexer_failures() {
    let err = Expression::parse("\"unterminated").unwrap_err();
    assert_eq!(err.reason, ParseReason::Lex(LexReason::UnterminatedString));
    assert_eq!((err.start, err.end), (0, 13));
    let err = Expression::parse("foo-bar").unwrap_err();
    assert_eq!(err.reason, ParseReason::Lex(LexReason::InvalidIdentChar));
    assert_eq!((err.start, err.end), (3, 4));
    let err = Expression::parse("~").unwrap_err();
    assert_eq!(err.reason, ParseReason::Lex(LexReason::UnexpectedCharacter));
}

#[test]
fn empty_all_is_true_and_empty_any_is_false() {
    let all = Expression::parse("all()").unwrap();
    let any = Expression::parse("any()").unwrap();
    assert!(all.eval(|_| false));
    assert!(!any.eval(|_| true));
    assert_eq!(all.eval(|_| Some(false)), Some(true));
    assert_eq!(any.eval(|_| Some(true)), Some(false));
}

#[test]
fn double_negation_behaves_as_the_predicate() {
    let nn = Expression::parse("not(not(foo))").unwrap();
    let p = Expression::parse("foo").unwrap();
    for v in [false, true] {
        assert_eq!(nn.eval(|_| v), p.eval(|_| v));
    }
}

#[test]
fn de_morgan_correspondence() {
    let lhs = Expression::parse("all(not(a), not(b))").unwrap();
    let rhs = Expression::parse("not(any(a, b))").unwrap();
    for va in [false, true] {
        for vb in [false, true] {
            let f = |p: &Predicate| match p {
                Predicate::Flag(n) if n == "a" => va,
                Predicate::Flag(n) if n == "b" => vb,
                _ => panic!("unexpected predicate"),
            };
            assert_eq!(lhs.eval(f), rhs.eval(f));
        }
    }
}

#[test]
fn eval_visits_predicates_in_source_order_once_each() {
    let e = Expression::parse("any(a, all(b, not(c)), d)").unwrap();
    let seen = std::cell::RefCell::new(Vec::new());
    let r = e.eval(|p: &Predicate| {
        if let Predicate::Flag(n) = p {
            seen.borrow_mut().push(n.clone());
        }
        false
    });
    assert!(!r);
    assert_eq!(*seen.borrow(), vec!["a", "b", "c", "d"]);
    // referential transparency: a second run gives the same result
    assert_eq!(r, e.eval(|_| false));
}

#[test]
fn three_valued_or_absorbs_unknown() {
    let e = Expression::parse("any(target_feature = \"x\", target_env = \"musl\")").unwrap();
    // the feature is unknown, the environment holds: true wins
    let r = e.eval(|p: &Predicate| match p {
        Predicate::TargetFeature(_) => None,
        Predicate::Target(TargetPredicate::Env(_)) => Some(true),
        _ => panic!("unexpected predicate"),
    });
    assert_eq!(r, Some(true));
    // both operands unknown: the whole expression is unknown
    let r = e.eval(|_| None::<bool>);
    assert_eq!(r, None);
}

#[test]
fn three_valued_and_with_unknown() {
    let e = Expression::parse("all(target_feature = \"x\", target_env = \"musl\")").unwrap();
    // false wins over unknown
    let r = e.eval(|p: &Predicate| match p {
        Predicate::TargetFeature(_) => None,
        _ => Some(false),
    });
    assert_eq!(r, Some(false));
    // true leaves the unknown standing
    let r = e.eval(|p: &Predicate| match p {
        Predicate::TargetFeature(_) => None,
        _ => Some(true),
    });
    assert_eq!(r, None);
}

#[test]
fn nested_expression_evaluates() {
    let e = Expression::parse(
        "all(not(windows), target_env = \"musl\", any(target_arch = \"x86\", target_arch = \"x86_64\"))",
    )
    .unwrap();
    let r = e.eval(|p: &Predicate| match p {
        Predicate::Target(TargetPredicate::Family(f)) => *f == Family::unix,
        Predicate::Target(TargetPredicate::Env(Env(e))) => e == "musl",
        Predicate::Target(TargetPredicate::Arch(a)) => a.0 == "x86_64",
        _ => false,
    });
    assert!(r);
}

#[test]
fn whitespace_is_insignificant() {
    let a = Expression::parse("  all( foo ,\tbar )\n").unwrap();
    assert_eq!(a.predicates(), flags(&["foo", "bar"]));
    let b = Expression::parse("all(foo,bar)").unwrap();
    assert_eq!(b.predicates(), flags(&["foo", "bar"]));
}

#[test]
fn os_predicate_round_trip() {
    let e = Expression::parse("target_os = \"linux\"").unwrap();
    assert_eq!(
        e.predicates(),
        vec![Predicate::Target(TargetPredicate::Os(Os("linux".to_string())))]
    );
}

#[test]
fn not_requires_exactly_one_operand() {
    assert_eq!(Expression::parse("not()").unwrap_err().reason, ParseReason::UnexpectedToken);
    assert_eq!(Expression::parse("not(a, b)").unwrap_err().reason, ParseReason::UnexpectedToken);
    assert_eq!(Expression::parse("not a").unwrap_err().reason, ParseReason::UnexpectedToken);
}

#[test]
fn empty_combinators_nest() {
    let e = Expression::parse("any(all(), any())").unwrap();
    assert!(e.eval(|_| false));
    let e = Expression::parse("all(any(), all())").unwrap();
    assert!(!e.eval(|_| true));
}

#[test]
fn known_keys_without_value_are_plain_flags() {
    let e = Expression::parse("all(target_os)").unwrap();
    assert_eq!(e.predicates(), flags(&["target_os"]));
}

#[test]
fn reasons_have_descriptions() {
    let err = Expression::parse("all(target_os))").unwrap_err();
    assert_eq!(err.reason.describe(), "unbalanced parentheses");
    let err = Expression::parse("\"oops").unwrap_err();
    assert_eq!(err.reason.describe(), "unterminated string literal");
}

#[test]
fn empty_env_value_is_accepted() {
    let e = Expression::parse("target_env = \"\"").unwrap();
    assert_eq!(
        e.predicates(),
        vec![Predicate::Target(TargetPredicate::Env(Env(String::new())))]
    );
}

#[test]
fn error_spans_are_byte_offsets() {
    // "é" takes two bytes, so the span of the character after it shifts
    let err = Expression::parse("a = \"é\" b").unwrap_err();
    assert_eq!(err.reason, ParseReason::MultipleRootExpressions);
    assert_eq!((err.start, err.end), (9, 10));
    // a two-byte character inside an identifier is reported with its
    // full byte width
    let err = Expression::parse("fooé").unwrap_err();
    assert_eq!(err.reason, ParseReason::Lex(LexReason::InvalidIdentChar));
    assert_eq!((err.start, err.end), (3, 5));
}
