use panoramix_rs::evm_core::types::Exp;
use panoramix_rs::sparser::{StorageVar, get_loc, find_stores, parse_storage, get_name, find_storage_names};
use panoramix_rs::function::Function;

#[test]
fn test_storage_var_creation() {
    let var = StorageVar::new("owner", "address", 0);
    assert_eq!(var.name, "owner");
    assert_eq!(var.var_type, "address");
    assert_eq!(var.slot, 0);
}

#[test]
fn test_get_loc_from_loc() {
    let exp = Exp::Op1("loc".into(), Box::new(Exp::Int(42)));
    assert_eq!(get_loc(&exp), Some(42));
}

#[test]
fn test_find_stores() {
    let exp = Exp::Op1(
        "storage".into(),
        Box::new(Exp::Op1("loc".into(), Box::new(Exp::Int(5)))),
    );
    let stores = find_stores(&exp);
    assert!(!stores.is_empty());
}

#[test]
fn parse_storage_lists_each_slot_once_by_slot() {
    let slot = |n: u128| {
        Exp::Op4(
            "storage".into(),
            Box::new(Exp::Int(256)),
            Box::new(Exp::Int(0)),
            Box::new(Exp::Op1("loc".into(), Box::new(Exp::Int(n)))),
            Box::new(Exp::Null),
        )
    };
    let s5 = slot(5);
    let s1 = slot(1);
    let traces = vec![vec![s5.clone(), s1.clone()], vec![s5]];
    let vars = parse_storage(&traces);
    assert_eq!(vars.len(), 2);
    assert_eq!(vars[0].slot, 1);
    assert_eq!(vars[1].slot, 5);
    assert_eq!(vars[0].name, "stor1");
}

#[test]
fn a_storage_read_without_its_location_has_none() {
    let plain = Exp::Op1("storage".into(), Box::new(Exp::Op1("loc".into(), Box::new(Exp::Int(5)))));
    assert_eq!(get_loc(&plain), None);
    assert!(parse_storage(&[vec![plain]]).is_empty());
}

#[test]
fn no_name_for_a_plain_number() {
    assert!(get_name(&Exp::Int(3)).is_none());
}

#[test]
fn a_getter_names_its_storage_in_lower_camel_case() {
    let mut f = Function::new(1, vec![Exp::num(1)]);
    f.name = "getTotalSupply()".to_string();
    let loc = Exp::Op1("storage".to_string(), Box::new(Exp::num(0)));
    f.getter = Some(loc.clone());
    let mut g = Function::new(2, vec![Exp::num(1)]);
    g.name = "OWNER()".to_string();
    let loc2 = Exp::Op1("storage".to_string(), Box::new(Exp::num(1)));
    g.getter = Some(loc2.clone());
    let names = find_storage_names(&[f, g]);
    assert_eq!(names, vec![(loc, "totalSupply".to_string()), (loc2, "OWNER".to_string())]);
}
