use panoramix_rs::evm_core::types::Exp;

#[test]
fn test_cd() {
    let e = Exp::cd(4);
    assert_eq!(e.opcode(), "cd");
}

#[test]
fn test_concrete() {
    assert!(Exp::num(42).is_concrete());
    assert!(!Exp::var("x").is_concrete());
}

#[test]
fn display_nests_operands_in_parentheses() {
    let e = Exp::add(Exp::var("a"), Exp::num(1));
    assert_eq!(e.to_string(), "(add a 1)");
    let n = Exp::Op1("not".to_string(), Box::new(Exp::Null));
    assert_eq!(n.to_string(), "(not none)");
    let w = Exp::While(Box::new(Exp::num(1)), vec![Exp::var("x"), Exp::var("y")]);
    assert_eq!(w.to_string(), "(while 1 [x y ])");
    let l = Exp::OpN("seq".to_string(), vec![Exp::num(1), Exp::num(2)]);
    assert_eq!(l.to_string(), "(seq 1 2)");
    assert_eq!(Exp::Str("hi".to_string()).to_string(), "\"hi\"");
    assert_eq!(Exp::Jd(7).to_string(), "jd(7)");
}

#[test]
fn constructors_build_binary_operations() {
    let e = Exp::sub(Exp::num(5), Exp::num(3));
    assert_eq!(e.opcode(), "sub");
    assert_eq!(e.args().len(), 2);
    assert_eq!(Exp::iszero(Exp::num(0)).opcode(), "iszero");
    assert_eq!(Exp::storage(Exp::num(0)).opcode(), "storage");
}
