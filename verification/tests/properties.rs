use panoramix_rs::contract::Contract;
use panoramix_rs::evm_core::algebra::{simplify, to_exp2};
use panoramix_rs::evm_core::masks::{mask_to_type, type_to_mask};
use panoramix_rs::evm_core::types::Exp;
use panoramix_rs::folder::{fold, as_paths};
use panoramix_rs::function::Function;
use panoramix_rs::loader::OpcodeDict;
use panoramix_rs::matcher::{match_exp, MatchResult, Pattern};
use panoramix_rs::pretty_contract;
use panoramix_rs::stack::Stack;
use panoramix_rs::sparser::rewrite_functions;
use panoramix_rs::vm::decompile;
use panoramix_rs::whiles::make_whiles;

#[test]
fn pop_gives_back_what_push_put() {
    let mut s = Stack::with_items(vec![Exp::num(1), Exp::var("a")]);
    s.push(Exp::num(7));
    assert_eq!(s.pop(), Exp::num(7));
    assert_eq!(s.items().to_vec(), vec![Exp::num(1), Exp::var("a")]);
}

#[test]
fn pop_after_dup_gives_the_copied_element() {
    let mut s = Stack::with_items(vec![Exp::num(1), Exp::num(2), Exp::num(3)]);
    s.dup(3);
    assert_eq!(s.len(), 4);
    assert_eq!(s.pop(), Exp::num(1));
    assert_eq!(s.items().to_vec(), vec![Exp::num(1), Exp::num(2), Exp::num(3)]);
}

#[test]
fn swapping_twice_restores_the_stack() {
    let items = vec![Exp::num(1), Exp::num(2), Exp::num(3)];
    let mut s = Stack::with_items(items.clone());
    s.swap(2);
    assert_eq!(s.items().to_vec(), vec![Exp::num(3), Exp::num(2), Exp::num(1)]);
    s.swap(2);
    assert_eq!(s.items().to_vec(), items);
    s.swap(3);
    assert_eq!(s.items().to_vec(), items);
}

#[test]
fn wildcard_and_capture_match_anything() {
    let e = Exp::add(Exp::var("x"), Exp::num(3));
    let any = match_exp(&e, &Pattern::PatAny).unwrap();
    assert!(any.get("x").is_none());
    let cap = match_exp(&e, &Pattern::Capture("whole".to_string())).unwrap();
    assert_eq!(cap.get("whole"), Some(&e));
}

#[test]
fn an_expression_matches_the_pattern_that_spells_it() {
    let e = Exp::Op2(
        "add".to_string(),
        Box::new(Exp::num(1)),
        Box::new(Exp::OpN("seq".to_string(), vec![Exp::Op("callvalue".to_string()), Exp::Null])),
    );
    let p = Pattern::Op2(
        "add".to_string(),
        Box::new(Pattern::Int(1)),
        Box::new(Pattern::OpN(
            "seq".to_string(),
            vec![Pattern::Op("callvalue".to_string()), Pattern::Null],
        )),
    );
    let m = match_exp(&e, &p).unwrap();
    assert!(m.get("callvalue").is_none());
}

#[test]
fn a_later_binding_replaces_an_earlier_one() {
    let mut m = MatchResult::new();
    m.bind("a", Exp::num(1));
    m.bind("b", Exp::num(2));
    m.bind("a", Exp::num(3));
    assert_eq!(m.get("a"), Some(&Exp::num(3)));
    assert_eq!(m.get("b"), Some(&Exp::num(2)));
    assert!(m.get("c").is_none());
}

#[test]
fn type_names_and_widths_round_trip() {
    for n in [1u64, 8, 16, 32, 64, 128, 160, 256] {
        let t = mask_to_type(n, false).unwrap();
        assert_eq!(type_to_mask(&t), Some(n));
    }
    assert_eq!(mask_to_type(type_to_mask("int16").unwrap(), false), Some("uint16".to_string()));
    // Forced names of wider masks are not type names.
    assert_eq!(mask_to_type(512, true), Some("big512".to_string()));
    assert_eq!(type_to_mask("big512"), None);
}

#[test]
fn folding_keeps_or_and_and() {
    let trace = vec![
        Exp::or(Exp::var("a"), Exp::and(Exp::var("b"), Exp::var("c"))),
        Exp::var("d"),
    ];
    assert_eq!(fold(trace.clone()), trace);
}

#[test]
fn whiles_leave_no_jump_destination() {
    let trace = vec![
        Exp::var("a"),
        Exp::Op1("jumpdest".to_string(), Box::new(Exp::Int(1))),
        Exp::var("b"),
        Exp::Op1("jumpdest".to_string(), Box::new(Exp::Int(2))),
    ];
    let r = make_whiles(trace, 0);
    assert_eq!(r, vec![Exp::var("a"), Exp::var("b")]);
}

#[test]
fn functions_come_by_priority_each_once() {
    let mut c = Contract::new();
    c.add_function(Function::new(2, vec![Exp::var("a_long_line_of_text")]));
    c.add_function(Function::new(5, vec![Exp::Op1("selfdestruct".to_string(), Box::new(Exp::num(0)))]));
    c.add_function(Function::new(3, vec![Exp::var("x")]));
    let list = c.functions_list();
    let hashes: Vec<u32> = list.iter().map(|f| f.hash).collect();
    assert_eq!(hashes, vec![5, 3, 2]);
    let prios: Vec<i32> = list.iter().map(|f| f.priority()).collect();
    assert!(prios.windows(2).all(|w| w[0] <= w[1]));
}

#[test]
fn a_function_added_is_found_again() {
    let mut c = Contract::new();
    c.add_function(Function::new(7, vec![Exp::var("x")]));
    c.add_function(Function::new(8, vec![Exp::var("y")]));
    assert_eq!(c.get_function(7).unwrap().trace, vec![Exp::var("x")]);
    assert_eq!(c.get_function(8).unwrap().trace, vec![Exp::var("y")]);
    assert!(c.get_function(9).is_none());
}

#[test]
fn every_opcode_name_leads_back_to_its_byte() {
    let d = OpcodeDict::new();
    for b in 0u16..256 {
        let name = d.lookup(b as u8).to_string();
        if name != "UNKNOWN" {
            assert_eq!(d.reverse_lookup(&name), Some(b as u8));
        }
    }
    assert_eq!(d.reverse_lookup("UNKNOWN"), None);
}

#[test]
fn a_printout_ends_without_white_space() {
    let mut c = Contract::new();
    c.add_function(Function::new(1, vec![Exp::var("x")]));
    let s = pretty_contract(&c);
    assert!(!s.ends_with(char::is_whitespace));
    assert!(s.ends_with("x"));
    let empty = pretty_contract(&Contract::new());
    assert_eq!(empty, "## Functions");
}

#[test]
fn an_execution_records_empty_lines_until_its_last() {
    // PUSH1 1 PUSH1 2 ADD STOP
    let t = decompile("600160020100").unwrap();
    assert_eq!(t.len(), 6);
    assert!(t[2..5].iter().all(|l| *l == Exp::Null));
    assert_eq!(
        t[5],
        Exp::Op2("stop".to_string(), Box::new(Exp::Null), Box::new(Exp::num(3)))
    );
}

#[test]
fn simplification_computes_constants_and_settles() {
    let e = Exp::add(
        Exp::mul(Exp::num(2), Exp::num(3)),
        Exp::sub(Exp::num(5), Exp::num(1)),
    );
    assert_eq!(simplify(&e), Exp::num(10));
    let wrapped = Exp::sub(Exp::num(0), Exp::num(1));
    assert_eq!(simplify(&wrapped), Exp::num(u128::MAX));
    let sym = Exp::add(Exp::mul(Exp::var("x"), Exp::num(1)), Exp::num(0));
    let once = simplify(&sym);
    assert_eq!(once, Exp::var("x"));
    assert_eq!(simplify(&once), once);
}

#[test]
fn loaded_text_holds_two_characters_per_byte() {
    let bc = panoramix_rs::loader::Bytecode::load("0x6001600201").unwrap();
    assert_eq!(bc.binary, vec![0x60, 0x01, 0x60, 0x02, 0x01]);
    assert_eq!(bc.binary.len() * 2, "6001600201".len());
}

#[test]
fn an_execution_stops_at_the_step_limit() {
    let t = decompile(&"01".repeat(1500)).unwrap();
    assert_eq!(t.len(), 2 + 1000);
    assert!(t[2..].iter().all(|l| *l == Exp::Null));
}

#[test]
fn a_stack_shows_its_items_bottom_first() {
    let s = Stack::with_items(vec![Exp::num(1), Exp::add(Exp::var("a"), Exp::num(2))]);
    assert_eq!(s.to_string(), "[1, (add a 2)]");
    assert_eq!(Stack::new().to_string(), "[]");
}

#[test]
fn a_default_stack_is_empty() {
    let s = Stack::default();
    assert!(s.is_empty());
    assert_eq!(s.len(), 0);
}

fn constant_function(hash: u32, name: &str) -> Function {
    let ret = Exp::Op2("return".to_string(), Box::new(Exp::num(5)), Box::new(Exp::Null));
    let mut f = Function::new(hash, vec![ret]);
    f.name = name.to_string();
    f
}

#[test]
fn constants_in_capitals_come_last() {
    let mut c = Contract::new();
    c.add_function(constant_function(1, "VERSION()"));
    c.add_function(constant_function(2, "name()"));
    c.add_function(constant_function(3, "decimals()"));
    c.add_function(constant_function(4, "MAX()"));
    c.postprocess();
    let names: Vec<String> = c.consts().iter().map(|f| f.name.clone()).collect();
    assert_eq!(names, vec!["decimals()", "name()", "MAX()", "VERSION()"]);
}

#[test]
fn sub_and_lt_take_the_top_as_first_operand() {
    let mut s = Stack::with_items(vec![Exp::Int(1), Exp::Int(4)]);
    s.apply_op("shl");
    assert_eq!(s.items().to_vec(), vec![Exp::Int(16)]);
    let mut t = Stack::with_items(vec![Exp::Int(3), Exp::Int(5)]);
    let mut u = t.clone();
    t.apply_op("sub");
    assert_eq!(t.items().to_vec(), vec![Exp::Int(2)]);
    u.apply_op("lt");
    assert_eq!(u.items().to_vec(), vec![Exp::lt(Exp::Int(5), Exp::Int(3))]);
    let mut d = Stack::with_items(vec![Exp::Int(3), Exp::Int(12)]);
    d.apply_op("div");
    assert_eq!(d.items().to_vec(), vec![Exp::Int(4)]);
    let mut m = Stack::with_items(vec![Exp::Int(5), Exp::Int(12)]);
    m.apply_op("mod");
    assert_eq!(m.items().to_vec(), vec![Exp::Int(2)]);
}

#[test]
fn the_vm_subtracts_the_second_item_from_the_top() {
    // PUSH1 3 PUSH1 5 SUB STOP
    let t = decompile("600360050300").unwrap();
    assert_eq!(
        t[5],
        Exp::Op2("stop".to_string(), Box::new(Exp::Null), Box::new(Exp::num(2)))
    );
}

#[test]
fn the_vm_duplicates_and_swaps_by_index() {
    // PUSH1 1 PUSH1 2 DUP2 STOP
    let t = decompile("60016002810000").unwrap();
    assert_eq!(
        t[5],
        Exp::Op2("stop".to_string(), Box::new(Exp::num(2)), Box::new(Exp::num(1)))
    );
    // PUSH1 1 PUSH1 3 PUSH1 2 SWAP2 STOP: the stack becomes [2, 3, 1]
    let t = decompile("600160036002910000").unwrap();
    assert_eq!(
        t[6],
        Exp::Op2("stop".to_string(), Box::new(Exp::num(3)), Box::new(Exp::num(1)))
    );
}

#[test]
fn a_composite_pattern_needs_every_operand_to_match() {
    let e = Exp::add(Exp::num(1), Exp::num(2));
    let p = Pattern::Op2("add".into(), Box::new(Pattern::Int(1)), Box::new(Pattern::Int(3)));
    assert!(match_exp(&e, &p).is_none());
    let q = Pattern::Op2("add".into(), Box::new(Pattern::Int(9)), Box::new(Pattern::PatAny));
    assert!(match_exp(&e, &q).is_none());
    let ok = Pattern::Op2("add".into(), Box::new(Pattern::Capture("x".into())), Box::new(Pattern::Int(2)));
    assert_eq!(match_exp(&e, &ok).unwrap().get("x"), Some(&Exp::num(1)));
}

#[test]
fn selfbalance_and_basefee_have_their_bytes() {
    let d = OpcodeDict::new();
    assert_eq!(d.lookup(0x47), "selfbalance");
    assert_eq!(d.lookup(0x48), "basefee");
    for i in 1u8..=32 {
        assert_eq!(d.lookup(0x5f + i), format!("push{}", i));
    }
    for i in 1u8..=16 {
        assert_eq!(d.lookup(0x7f + i), format!("dup{}", i));
        assert_eq!(d.lookup(0x8f + i), format!("swap{}", i));
    }
    for i in 0u8..=4 {
        assert_eq!(d.lookup(0xa0 + i), format!("log{}", i));
    }
}

#[test]
fn to_exp2_gives_the_exponent_of_every_power_of_two() {
    assert_eq!(to_exp2(&Exp::Int(8)), Some(3));
    assert_eq!(to_exp2(&Exp::Int(1)), Some(0));
    assert_eq!(to_exp2(&Exp::Int(1u128 << 40)), Some(40));
    assert_eq!(to_exp2(&Exp::Int(1u128 << 127)), Some(127));
    assert_eq!(to_exp2(&Exp::Int(12)), None);
    assert_eq!(to_exp2(&Exp::Int(0)), None);
    assert_eq!(to_exp2(&Exp::var("x")), None);
}

#[test]
fn rewriting_names_the_storage_locations() {
    let loc = |n: u128| Exp::Op1("loc".into(), Box::new(Exp::Int(n)));
    let read = |l: Exp| {
        Exp::Op4("storage".into(), Box::new(Exp::Int(256)), Box::new(Exp::Int(0)), Box::new(l), Box::new(Exp::Null))
    };
    let mut fs = vec![Function::new(1, vec![read(loc(3)), Exp::var("x")])];
    let vars = rewrite_functions(&mut fs);
    assert_eq!(vars.len(), 1);
    assert_eq!(vars[0].name, "stor3");
    let named = Exp::Op2("name".into(), Box::new(Exp::Str("stor3".into())), Box::new(loc(3)));
    assert_eq!(fs[0].trace, vec![read(named), Exp::var("x")]);
    assert_eq!(panoramix_rs::sparser::get_name(&fs[0].trace[0]), Some("stor3".to_string()));
}

#[test]
fn paths_expand_nested_ifs_and_stop_at_the_first_if() {
    let (a, c, x, y) = (Exp::var("a"), Exp::var("c"), Exp::var("x"), Exp::var("y"));
    let p = as_paths(&[a.clone(), Exp::If(Box::new(c.clone()), vec![x.clone()], vec![y.clone()])]).unwrap();
    assert_eq!(p, vec![vec![a.clone(), c.clone(), x.clone()], vec![a.clone(), Exp::iszero(c.clone()), y.clone()]]);
    let d = Exp::var("d");
    let nested = vec![
        Exp::If(
            Box::new(c.clone()),
            vec![Exp::If(Box::new(d.clone()), vec![x.clone()], vec![])],
            vec![y.clone()],
        ),
        a.clone(),
    ];
    let p = as_paths(&nested).unwrap();
    assert_eq!(
        p,
        vec![
            vec![c.clone(), d.clone(), x.clone()],
            vec![c.clone(), Exp::iszero(d.clone())],
            vec![Exp::iszero(c.clone()), y.clone()],
        ]
    );
    assert!(p.iter().all(|path| path.iter().all(|l| !matches!(l, Exp::If(..)))));
}

#[test]
fn storage_names_from_case_mappings() {
    use_name_from_cases();
}

fn use_name_from_cases() {
    let n = panoramix_rs::sparser::name_from_cases("TotalSupply()", false, "TOTALSUPPLY()", "t");
    assert_eq!(n, "totalSupply");
    let n = panoramix_rs::sparser::name_from_cases("OWNER", false, "OWNER", "o");
    assert_eq!(n, "OWNER");
    let n = panoramix_rs::sparser::name_from_cases("balance(address)", true, "BALANCE(ADDRESS)", "b");
    assert_eq!(n, "balance");
}

#[test]
fn constants_order_from_their_upper_case() {
    let f = |a: &str, b: &str| {
        panoramix_rs::contract::const_before_cases(
            &a.to_string(),
            &b.to_string(),
            &a.to_uppercase(),
            &b.to_uppercase(),
        )
    };
    assert!(f("name", "MAX"));
    assert!(!f("MAX", "name"));
    assert!(f("decimals", "name"));
    assert!(f("MAX", "VERSION"));
    assert!(!f("name", "name"));
}

#[test]
fn an_ellipsis_stands_for_any_run_of_expressions() {
    use_ellipsis();
}

fn use_ellipsis() {
    let es = vec![Exp::num(1), Exp::num(2), Exp::num(3), Exp::num(4)];
    let ps = vec![Pattern::Int(1), Pattern::Ellipsis, Pattern::Capture("last".into())];
    let m = panoramix_rs::matcher::match_patterns(&es, &ps).unwrap();
    assert_eq!(m.get("last"), Some(&Exp::num(4)));
    let short = vec![Exp::num(1)];
    assert!(panoramix_rs::matcher::match_patterns(&short, &ps).is_none());
    let exact = vec![Pattern::Int(1), Pattern::Int(2)];
    assert!(panoramix_rs::matcher::match_patterns(&es, &exact).is_none());
    assert!(panoramix_rs::matcher::match_patterns(&es[..2], &exact).is_some());
}
