use panoramix_rs::evm_core::types::Exp;
use panoramix_rs::matcher::{match_exp, match_patterns, Pattern, MatchResult, var, op, num, wild};

#[test]
fn test_simple_match() {
    let expr = Exp::num(42);
    let pattern = Pattern::Int(42);
    assert!(match_exp(&expr, &pattern).is_some());
}

#[test]
fn test_capture() {
    let expr = Exp::num(42);
    let pattern = Pattern::Capture("x".to_string());
    let result = match_exp(&expr, &pattern).unwrap();
    assert!(matches!(result.get_exp("x"), Some(Exp::Int(42))));
}

#[test]
fn a_different_constant_does_not_match() {
    assert!(match_exp(&Exp::num(41), &num(42)).is_none());
    assert!(match_exp(&Exp::var("y"), &wild()).is_some());
}

#[test]
fn bind_then_get_gives_back_the_value() {
    let mut m = MatchResult::new();
    m.bind("a", Exp::num(1));
    m.bind("a", Exp::num(2));
    assert!(matches!(m.get("a"), Some(Exp::Int(2))));
    assert!(m.get("b").is_none());
}

#[test]
fn capture_and_operator_patterns() {
    let _ = op("add");
    let p = var("v");
    let r = match_patterns(&[Exp::var("q")], &[p]).unwrap();
    assert!(matches!(r.get("v"), Some(Exp::Var(_))));
}
