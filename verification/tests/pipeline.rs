use panoramix_rs::evm_core::types::Exp;
use panoramix_rs::folder::{fold, as_paths, fold_exp};
use panoramix_rs::vm::{decompile, VM};
use panoramix_rs::loader::Bytecode;
use panoramix_rs::{decompile_bytecode, pretty_contract, Decompiler};

#[test]
fn vm_trace_of_a_stop() {
    let t = decompile("00").unwrap();
    assert_eq!(t.len(), 3);
    assert_eq!(
        t[2],
        Exp::Op2("stop".to_string(), Box::new(Exp::Null), Box::new(Exp::Null))
    );
}

#[test]
fn vm_records_a_symbolic_conditional_jump() {
    // CALLVALUE PUSH1 0 JUMPI
    let t = decompile("34600057").unwrap();
    assert_eq!(
        t[2..].to_vec(),
        vec![
            Exp::Null,
            Exp::Null,
            Exp::Op1("jumpi".to_string(), Box::new(Exp::Op("callvalue".to_string()))),
        ]
    );
}

#[test]
fn run_from_starts_with_the_prelude() {
    let bc = Bytecode::load("00").unwrap();
    let mut vm = VM::new(bc);
    let t = vm.run_from(0, vec![], None);
    assert_eq!(t[1], Exp::Op1("jump".to_string(), Box::new(Exp::var("func_start"))));
    assert!(vm.find_functions().is_empty());
}

#[test]
fn fold_of_a_straight_trace_keeps_it() {
    let trace = vec![Exp::var("a"), Exp::var("b")];
    assert_eq!(fold(trace.clone()), trace);
    assert_eq!(fold(vec![]), Vec::<Exp>::new());
}

#[test]
fn as_paths_splits_at_an_if() {
    let trace = vec![
        Exp::var("a"),
        Exp::If(Box::new(Exp::var("c")), vec![Exp::var("t")], vec![Exp::var("f")]),
    ];
    let p = as_paths(&trace).unwrap();
    assert_eq!(
        p,
        vec![
            vec![Exp::var("a"), Exp::var("c"), Exp::var("t")],
            vec![Exp::var("a"), Exp::iszero(Exp::var("c")), Exp::var("f")],
        ]
    );
}

#[test]
fn as_paths_turns_and_into_a_list() {
    let trace = vec![Exp::and(Exp::var("x"), Exp::var("y"))];
    let p = as_paths(&trace).unwrap();
    assert_eq!(p, vec![vec![Exp::OpN("fand".to_string(), vec![Exp::var("x"), Exp::var("y")])]]);
    assert_eq!(fold(trace.clone()), trace);
}

#[test]
fn fold_merges_an_if_back() {
    let trace = vec![Exp::If(
        Box::new(Exp::var("c")),
        vec![Exp::var("t"), Exp::Op("stop".to_string())],
        vec![Exp::var("f"), Exp::Op("stop".to_string())],
    )];
    let folded = fold(trace);
    assert!(!folded.is_empty());
}

#[test]
fn fold_exp_is_the_expression() {
    let e = Exp::add(Exp::num(1), Exp::num(2));
    assert_eq!(fold_exp(&e), e);
}

#[test]
fn decompile_bytecode_of_a_stop() {
    let c = decompile_bytecode("0x00").unwrap();
    assert_eq!(c.functions.len(), 1);
    let out = pretty_contract(&c);
    assert!(out.starts_with("## Functions\n\ndef unknown_00000000()"));
    assert!(!out.ends_with('\n'));
}

#[test]
fn decompile_bytecode_refuses_bad_hex() {
    assert!(decompile_bytecode("0xgg").is_err());
}

#[test]
fn decompile_address_is_refused() {
    let d = Decompiler::default();
    assert_eq!(
        d.decompile_address("0x0").err().unwrap(),
        "Address decompilation requires Web3 RPC URL. Please provide bytecode directly."
    );
}
