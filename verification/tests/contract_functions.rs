use panoramix_rs::contract::Contract;
use panoramix_rs::evm_core::types::Exp;
use panoramix_rs::function::Function;

#[test]
fn test_contract_creation() {
    let contract = Contract::new();
    assert!(contract.functions.is_empty());
    assert!(contract.stor_defs().is_empty());
    assert!(contract.consts().is_empty());
}

#[test]
fn test_function_creation() {
    let trace = vec![Exp::num(42)];
    let func = Function::new(0x1234, trace);
    assert_eq!(func.hash, 0x1234);
}

#[test]
fn test_priority() {
    let trace = vec![Exp::num(42)];
    let func = Function::new(0x1234, trace);
    assert!(func.priority() >= 0);
}

#[test]
fn new_function_is_named_after_its_hash() {
    let func = Function::new(0xab, vec![Exp::num(1)]);
    assert_eq!(func.name, "unknown_000000ab()");
    assert_eq!(func.abi_name, "unknown_000000ab()");
    assert!(func.payable);
    assert!(func.read_only);
}

#[test]
fn calldata_reads_become_parameters() {
    let trace = vec![Exp::Op1("log".to_string(), Box::new(Exp::cd(4)))];
    let func = Function::new(1, trace);
    assert_eq!(func.name, "unknown_00000001(uint256 _param1)");
    assert_eq!(func.abi_name, "unknown_00000001(uint256)");
}

#[test]
fn print_shows_header_and_lines() {
    let func = Function::new(2, vec![Exp::var("x")]);
    assert_eq!(func.print(), "def unknown_00000002() payable\n  x");
    assert_eq!(func.ast_length(), (2, 34));
}

#[test]
fn selfdestruct_comes_first() {
    let func = Function::new(3, vec![Exp::Op1("selfdestruct".to_string(), Box::new(Exp::num(0)))]);
    assert_eq!(func.priority(), -1);
}

#[test]
fn postprocess_names_parameters_and_builds_the_tree() {
    let mut c = Contract::new();
    let trace = vec![Exp::Op1("log".to_string(), Box::new(Exp::cd(4)))];
    c.add_function(Function::new(9, trace));
    c.postprocess();
    let f = c.get_function(9).unwrap();
    assert_eq!(
        f.trace,
        vec![Exp::Op1("log".to_string(), Box::new(Exp::var("param__param1")))]
    );
    assert_eq!(f.ast, Some(f.trace[0].clone()));
    assert_eq!(c.functions_list().len(), 1);
}
