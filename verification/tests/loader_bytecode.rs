use panoramix_rs::loader::{Bytecode, OpcodeDict};

#[test]
fn test_load_simple() {
    let bc = Bytecode::load("0x00").unwrap();
    assert_eq!(bc.ops.len(), 1);
    assert_eq!(bc.ops[&0].opcode, "stop");
}

#[test]
fn test_push() {
    let bc = Bytecode::load("0x602a00").unwrap();
    let push_op = bc.ops.get(&0).unwrap();
    assert_eq!(push_op.opcode, "push1");
    assert_eq!(push_op.param, Some(42));
}

#[test]
fn bad_digit_is_refused() {
    assert!(Bytecode::load("0xzz").is_err());
}

#[test]
fn jump_destinations_are_listed() {
    let bc = Bytecode::load("5b005b").unwrap();
    assert_eq!(bc.jump_dests, vec![0, 2]);
}

#[test]
fn reverse_lookup_finds_the_byte_of_a_name() {
    let d = OpcodeDict::new();
    assert_eq!(d.lookup(0x01), "add");
    assert_eq!(d.reverse_lookup("add"), Some(0x01));
    assert_eq!(d.reverse_lookup("nosuchop"), None);
}
