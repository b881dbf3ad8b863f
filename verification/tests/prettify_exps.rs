use panoramix_rs::evm_core::types::Exp;
use panoramix_rs::prettify::{pretty_exp, pretty_type};

#[test]
fn test_var() {
    assert_eq!(pretty_exp(&Exp::var("x")), "x");
    assert_eq!(pretty_exp(&Exp::var("myVar")), "myVar");
}

#[test]
fn test_int() {
    assert_eq!(pretty_exp(&Exp::num(42)), "42");
    assert_eq!(pretty_exp(&Exp::num(0)), "0");
}

#[test]
fn test_add() {
    let exp = Exp::add(Exp::var("a"), Exp::num(1));
    assert_eq!(pretty_exp(&exp), "(a + 1)");
}

#[test]
fn test_mul() {
    let exp = Exp::mul(Exp::var("x"), Exp::num(2));
    assert_eq!(pretty_exp(&exp), "(x * 2)");
}

#[test]
fn test_not() {
    let exp = Exp::Op1("not".into(), Box::new(Exp::var("x")));
    assert_eq!(pretty_exp(&exp), "!x");
}

#[test]
fn pretty_type_keeps_the_name() {
    assert_eq!(pretty_type("uint256"), "uint256");
}
