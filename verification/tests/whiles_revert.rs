use panoramix_rs::evm_core::types::Exp;
use panoramix_rs::whiles::{is_revert, make_whiles};

#[test]
fn test_is_revert() {
    assert!(is_revert(&[Exp::Op2(
        "return".to_string(),
        Box::new(Exp::Int(0)),
        Box::new(Exp::Null)
    )]));
}

#[test]
fn test_is_not_revert() {
    assert!(!is_revert(&[Exp::Op2(
        "return".to_string(),
        Box::new(Exp::Int(1)),
        Box::new(Exp::Null)
    )]));
    assert!(!is_revert(&[]));
}

#[test]
fn revert_and_invalid_lines_revert() {
    assert!(is_revert(&[Exp::Op("revert".to_string())]));
    assert!(is_revert(&[Exp::Op1("invalid".to_string(), Box::new(Exp::Int(3)))]));
    assert!(!is_revert(&[Exp::Op("revert".to_string()), Exp::Op("revert".to_string())]));
}

#[test]
fn make_whiles_drops_jump_destinations() {
    let trace = vec![
        Exp::Op1("jumpdest".to_string(), Box::new(Exp::Int(3))),
        Exp::var("x"),
    ];
    let r = make_whiles(trace, 10);
    assert_eq!(r, vec![Exp::var("x")]);
}

#[test]
fn make_whiles_turns_a_label_and_its_jump_into_a_loop() {
    let jd = Exp::Jd(5);
    let trace = vec![
        Exp::Label(Box::new(jd.clone()), vec![]),
        Exp::var("body"),
        Exp::If(
            Box::new(Exp::var("c")),
            vec![Exp::Goto(Box::new(jd.clone()), vec![])],
            vec![Exp::var("after")],
        ),
    ];
    let r = make_whiles(trace, 10);
    assert_eq!(
        r,
        vec![
            Exp::var("body"),
            Exp::While(
                Box::new(Exp::var("c")),
                vec![Exp::var("body"), Exp::Goto(Box::new(jd), vec![])],
            ),
            Exp::var("after"),
        ]
    );
}
