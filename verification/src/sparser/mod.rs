//! Storage layout parser
//!
//! Identifies storage variable types and positions from function traces.

use vstd::prelude::*;
use crate::evm_core::types::{
    Exp, ExpV, ev, evs, lemma_evs, lemma_evs_prefix, lemma_push_prefix, copy_exp, push_exp,
};
use crate::text::{
    str_eq, dec_string, hex_string, dec_chars, hex_chars, has_prefix, string_eq, to_uppercase,
    to_lowercase, char_is_lowercase, upper_spec, lower_spec, is_lower_spec, before_char,
    prefix_before,
};
use crate::function::Function;
use crate::function::opt_view;

verus! {

/// Storage variable definition
#[derive(Debug)]
pub struct StorageVar {
    /// Variable name
    pub name: String,
    /// Type name (e.g., "uint256", "address", "mapping")
    pub var_type: String,
    /// Storage slot
    pub slot: u64,
}

impl Clone for StorageVar {
    fn clone(&self) -> (r: Self)
        ensures
            r == *self,
    {
        StorageVar { name: self.name.clone(), var_type: self.var_type.clone(), slot: self.slot }
    }
}

impl StorageVar {
    pub fn new(name: &str, var_type: &str, slot: u64) -> (r: Self)
        ensures
            r.name@ == name@,
            r.var_type@ == var_type@,
            r.slot == slot,
    {
        Self { name: String::from_str(name), var_type: String::from_str(var_type), slot }
    }
}

/// The storage accesses in an expression: `store` operations and `storage`
/// reads, outermost first, left to right.
pub open spec fn stores_of(e: ExpV) -> Seq<ExpV>
    decreases e,
{
    if (e is Op4 && e.opcode() == "store"@) || e.opcode() == "storage"@ {
        seq![e]
    } else {
        match e {
            ExpV::Op1(_, a) => stores_of(*a),
            ExpV::Op2(_, a, b) => stores_of(*a) + stores_of(*b),
            ExpV::Op3(_, a, b, c) => stores_of(*a) + stores_of(*b) + stores_of(*c),
            ExpV::Op4(_, a, b, c, d) => stores_of(*a) + stores_of(*b) + stores_of(*c) + stores_of(*d),
            ExpV::OpN(_, args) => stores_of_seq(args),
            _ => Seq::empty(),
        }
    }
}

/// The storage accesses in a sequence of expressions, in order.
pub open spec fn stores_of_seq(s: Seq<ExpV>) -> Seq<ExpV>
    decreases s,
{
    if s.len() == 0 {
        Seq::empty()
    } else {
        stores_of_seq(s.subrange(0, s.len() - 1)) + stores_of(s[s.len() - 1])
    }
}

/// The slot that a storage expression addresses: through `storage`/`stor`
/// wrappers down to `(loc n)`.
pub open spec fn loc_from_storage(e: ExpV) -> Option<u64>
    decreases e,
{
    match e {
        ExpV::Op4(op, _, _, a, _) => if op == "storage"@ || op == "stor"@ {
            loc_from_storage(*a)
        } else {
            None
        },
        ExpV::Op3(op, _, _, a) => if op == "stor"@ {
            loc_from_storage(*a)
        } else {
            None
        },
        ExpV::Op2(op, _, a) => if op == "stor"@ {
            loc_from_storage(*a)
        } else {
            None
        },
        ExpV::Op1(op, a) => if op == "stor"@ {
            loc_from_storage(*a)
        } else if op == "loc"@ {
            match *a {
                ExpV::Int(n) => Some(n as u64),
                _ => None,
            }
        } else {
            None
        },
        _ => None,
    }
}

/// The first name that a `(name :name _)` term gives, searching depth first.
pub open spec fn name_of(e: ExpV) -> Option<Seq<char>>
    decreases e,
{
    let own = match e {
        ExpV::Op2(op, a, _) => if op == "name"@ {
            match *a {
                ExpV::Str(s) => Some(s),
                ExpV::Var(s) => Some(s),
                _ => None,
            }
        } else {
            None
        },
        _ => None,
    };
    if own is Some {
        own
    } else {
        match e {
            ExpV::Op1(_, a) => name_of(*a),
            ExpV::Op2(_, a, b) => first_of(name_of(*a), name_of(*b)),
            ExpV::Op3(_, a, b, c) => first_of(first_of(name_of(*a), name_of(*b)), name_of(*c)),
            ExpV::Op4(_, a, b, c, d) => first_of(
                first_of(first_of(name_of(*a), name_of(*b)), name_of(*c)),
                name_of(*d),
            ),
            ExpV::OpN(_, args) => name_of_seq(args),
            _ => None,
        }
    }
}

/// The first name found in a sequence of expressions.
pub open spec fn name_of_seq(s: Seq<ExpV>) -> Option<Seq<char>>
    decreases s,
{
    if s.len() == 0 {
        None
    } else {
        first_of(name_of_seq(s.subrange(0, s.len() - 1)), name_of(s[s.len() - 1]))
    }
}

/// The first of two optional values that is present.
pub open spec fn first_of<T>(a: Option<T>, b: Option<T>) -> Option<T> {
    if a is Some {
        a
    } else {
        b
    }
}

/// The type of a storage variable as its access shows it.
pub open spec fn storage_type(e: ExpV) -> Seq<char>
    decreases e, 1int,
{
    if (e.opcode() == "stor"@ || e.opcode() == "storage"@) && e.args().len() > 0 {
        storage_type_of_first(e)
    } else {
        match e {
            ExpV::Op2(op, _, _) => if op == "map"@ {
                "mapping"@
            } else if op == "array"@ || op == "length"@ {
                "array"@
            } else {
                "uint256"@
            },
            ExpV::Op1(op, _) => if op == "loc"@ {
                "uint256"@
            } else if op == "sha3"@ {
                "bytes32"@
            } else {
                "uint256"@
            },
            _ => "uint256"@,
        }
    }
}

/// The type of the first operand.
pub open spec fn storage_type_of_first(e: ExpV) -> Seq<char>
    decreases e, 0int,
{
    match e {
        ExpV::Op1(_, a) => storage_type(*a),
        ExpV::Op2(_, a, _) => storage_type(*a),
        ExpV::Op3(_, a, _, _) => storage_type(*a),
        ExpV::Op4(_, a, _, _, _) => storage_type(*a),
        ExpV::OpN(_, args) => if args.len() > 0 {
            storage_type(args[0])
        } else {
            "uint256"@
        },
        _ => "uint256"@,
    }
}

/// The name given to the variable at `loc` when the access names none.
pub open spec fn default_storage_name(loc: u64) -> Seq<char> {
    if loc >= 1000 {
        "stor"@ + hex_chars(loc as nat, true)
    } else {
        "stor"@ + dec_chars(loc as nat)
    }
}

/// The name of a storage variable.
pub open spec fn storage_name(e: ExpV, loc: u64) -> Seq<char> {
    match name_of(e) {
        Some(n) => n,
        None => default_storage_name(loc),
    }
}

fn find_stores_inner(exp: &Exp, results: &mut Vec<Exp>)
    ensures
        evs(final(results)@) == evs(old(results)@) + stores_of(exp@),
    decreases exp,
{
    proof {
        lemma_evs(old(results)@);
    }
    if let Exp::Op4(op, _, _, _, _) = exp {
        if str_eq(op.as_str(), "store") {
            results.push(copy_exp(exp));
            proof {
                lemma_evs(results@);
            }
            assert(evs(results@) =~= evs(old(results)@) + stores_of(exp@));
            return;
        }
    }
    if str_eq(exp.opcode(), "storage") {
        results.push(copy_exp(exp));
        proof {
            lemma_evs(results@);
        }
        assert(evs(results@) =~= evs(old(results)@) + stores_of(exp@));
        return;
    }
    match exp {
        Exp::Op1(_, a) => {
            find_stores_inner(a, results);
        },
        Exp::Op2(_, a, b) => {
            find_stores_inner(a, results);
            find_stores_inner(b, results);
            assert(evs(results@) =~= evs(old(results)@) + stores_of(exp@));
        },
        Exp::Op3(_, a, b, c) => {
            find_stores_inner(a, results);
            find_stores_inner(b, results);
            find_stores_inner(c, results);
            assert(evs(results@) =~= evs(old(results)@) + stores_of(exp@));
        },
        Exp::Op4(_, a, b, c, d) => {
            find_stores_inner(a, results);
            find_stores_inner(b, results);
            find_stores_inner(c, results);
            find_stores_inner(d, results);
            assert(evs(results@) =~= evs(old(results)@) + stores_of(exp@));
        },
        Exp::OpN(_, args) => {
            find_stores_in_seq(args, results);
        },
        _ => {
            assert(evs(results@) =~= evs(old(results)@) + stores_of(exp@));
        },
    }
}

fn find_stores_in_seq(v: &Vec<Exp>, results: &mut Vec<Exp>)
    ensures
        evs(final(results)@) == evs(old(results)@) + stores_of_seq(evs(v@)),
    decreases v,
{
    proof {
        lemma_evs(v@);
    }
    let mut i: usize = 0;
    while i < v.len()
        invariant
            i <= v@.len(),
            evs(v@).len() == v@.len(),
            forall|k: int| 0 <= k < v@.len() ==> #[trigger] evs(v@)[k] == ev(v@[k]),
            evs(results@) == evs(old(results)@) + stores_of_seq(evs(v@).subrange(0, i as int)),
        decreases v.len() - i,
    {
        assert(decreases_to!(v => v@[i as int]));
        find_stores_inner(&v[i], results);
        proof {
            let w = evs(v@).subrange(0, i + 1);
            assert(w.subrange(0, i as int) =~= evs(v@).subrange(0, i as int));
            assert(w[i as int] == ev(v@[i as int]));
        }
        assert(evs(results@) =~= evs(old(results)@) + stores_of_seq(evs(v@).subrange(0, i + 1)));
        i += 1;
    }
    assert(evs(v@).subrange(0, v@.len() as int) =~= evs(v@));
}

/// Find all storage accesses in an expression
pub fn find_stores(exp: &Exp) -> (r: Vec<Exp>)
    ensures
        evs(r@) == stores_of(exp@),
{
    let mut results: Vec<Exp> = Vec::new();
    proof {
        lemma_evs(results@);
    }
    find_stores_inner(exp, &mut results);
    assert(evs(results@) =~= stores_of(exp@));
    results
}

fn get_loc_from_storage(exp: &Exp) -> (r: Option<u64>)
    ensures
        r == loc_from_storage(exp@),
    decreases exp,
{
    if let Exp::Op4(op, _, _, a, _) = exp {
        if str_eq(op.as_str(), "storage") || str_eq(op.as_str(), "stor") {
            return get_loc_from_storage(a);
        }
    }
    if let Exp::Op3(op, _, _, a) = exp {
        if str_eq(op.as_str(), "stor") {
            return get_loc_from_storage(a);
        }
    }
    if let Exp::Op2(op, _, a) = exp {
        if str_eq(op.as_str(), "stor") {
            return get_loc_from_storage(a);
        }
    }
    if let Exp::Op1(op, a) = exp {
        if str_eq(op.as_str(), "stor") {
            return get_loc_from_storage(a);
        }
    }
    if let Exp::Op1(op, a) = exp {
        if str_eq(op.as_str(), "loc") {
            if let Exp::Int(n) = &**a {
                return Some(*n as u64);
            }
        }
    }
    None
}

fn get_loc_inner(exp: &Exp) -> (r: Option<u64>)
    ensures
        r is None,
    decreases exp@,
{
    if let Exp::Op3(op, _, _, _) = exp {
        if str_eq(op.as_str(), "type") {
            if let Exp::Op3(field_op, _, _, stor) = exp {
                if str_eq(field_op.as_str(), "field") {
                    proof {
                        reveal_strlit("type");
                        reveal_strlit("field");
                        assert("type"@[0] != "field"@[0]);
                    }
                    return get_loc_from_storage(stor);
                }
            }
        }
    }
    let args = exp.args();
    let mut i: usize = 0;
    while i < args.len()
        invariant
            i <= args@.len(),
            args@.len() == exp@.args().len(),
            forall|k: int| 0 <= k < args@.len() ==> ev(*#[trigger] args@[k]) == exp@.args()[k],
        decreases args.len() - i,
    {
        proof {
            assert(decreases_to!(exp@ => exp@.args()[i as int]));
        }
        if let Some(loc) = get_loc_inner(args[i]) {
            return Some(loc);
        }
        i += 1;
    }
    None
}

/// Get storage location from an expression
pub fn get_loc(exp: &Exp) -> (r: Option<u64>)
    ensures
        r == loc_from_storage(exp@),
{
    match get_loc_inner(exp) {
        Some(loc) => Some(loc),
        None => get_loc_from_storage(exp),
    }
}

proof fn lemma_name_of_seq_prefix(s: Seq<ExpV>, k: int)
    requires
        0 <= k <= s.len(),
        name_of_seq(s.subrange(0, k)) is Some,
    ensures
        name_of_seq(s) == name_of_seq(s.subrange(0, k)),
    decreases s.len() - k,
{
    if k < s.len() {
        assert(s.subrange(0, k + 1).subrange(0, k) =~= s.subrange(0, k));
        lemma_name_of_seq_prefix(s, k + 1);
    } else {
        assert(s.subrange(0, k) =~= s);
    }
}

proof fn lemma_name_of_args(e: ExpV)
    ensures
        e is Op1 || e is Op2 || e is Op3 || e is Op4 || e is OpN ==> (name_of(e) == first_of(
            match e {
                ExpV::Op2(op, a, _) => if op == "name"@ {
                    match *a {
                        ExpV::Str(s) => Some(s),
                        ExpV::Var(s) => Some(s),
                        _ => None,
                    }
                } else {
                    None
                },
                _ => None,
            },
            name_of_seq(e.args()),
        )),
        !(e is Op1 || e is Op2 || e is Op3 || e is Op4 || e is OpN) ==> name_of(e) is None
            && e.args().len() == 0,
{
    reveal_with_fuel(name_of_seq, 5);
    match e {
        ExpV::Op1(_, a) => {
            assert(e.args().subrange(0, 0) =~= Seq::<ExpV>::empty());
        },
        ExpV::Op2(_, a, b) => {
            assert(e.args().subrange(0, 1) =~= seq![*a]);
            assert(seq![*a].subrange(0, 0) =~= Seq::<ExpV>::empty());
        },
        ExpV::Op3(_, a, b, c) => {
            assert(e.args().subrange(0, 2) =~= seq![*a, *b]);
            assert(seq![*a, *b].subrange(0, 1) =~= seq![*a]);
            assert(seq![*a].subrange(0, 0) =~= Seq::<ExpV>::empty());
        },
        ExpV::Op4(_, a, b, c, d) => {
            assert(e.args().subrange(0, 3) =~= seq![*a, *b, *c]);
            assert(seq![*a, *b, *c].subrange(0, 2) =~= seq![*a, *b]);
            assert(seq![*a, *b].subrange(0, 1) =~= seq![*a]);
            assert(seq![*a].subrange(0, 0) =~= Seq::<ExpV>::empty());
        },
        _ => {},
    }
}

/// Get name from a storage expression
pub fn get_name(exp: &Exp) -> (r: Option<String>)
    ensures
        match r {
            Some(n) => name_of(exp@) == Some(n@),
            None => name_of(exp@) is None,
        },
    decreases exp@,
{
    proof {
        lemma_name_of_args(exp@);
        reveal_with_fuel(ev, 2);
    }
    if let Exp::Op2(op, a, _b) = exp {
        if str_eq(op.as_str(), "name") {
            if let Exp::Str(name) = &**a {
                return Some(name.clone());
            }
            if let Exp::Var(name) = &**a {
                return Some(name.clone());
            }
        }
    }
    let args = exp.args();
    assert(name_of(exp@) == name_of_seq(exp@.args()));
    let mut i: usize = 0;
    assert(exp@.args().subrange(0, 0) =~= Seq::<ExpV>::empty());
    while i < args.len()
        invariant
            i <= args@.len(),
            args@.len() == exp@.args().len(),
            forall|k: int| 0 <= k < args@.len() ==> ev(*#[trigger] args@[k]) == exp@.args()[k],
            name_of_seq(exp@.args().subrange(0, i as int)) is None,
            name_of(exp@) == name_of_seq(exp@.args()),
        decreases args.len() - i,
    {
        proof {
            assert(decreases_to!(exp@ => exp@.args()[i as int]));
            let w = exp@.args().subrange(0, i + 1);
            assert(w.subrange(0, i as int) =~= exp@.args().subrange(0, i as int));
        }
        if let Some(name) = get_name(args[i]) {
            proof {
                lemma_name_of_seq_prefix(exp@.args(), i + 1);
            }
            return Some(name);
        }
        i += 1;
    }
    assert(exp@.args().subrange(0, args@.len() as int) =~= exp@.args());
    None
}

proof fn lemma_type_known(e: ExpV)
    ensures
        storage_type(e) == "mapping"@ || storage_type(e) == "array"@ || storage_type(e) == "uint256"@
            || storage_type(e) == "bytes32"@,
    decreases e, 1int,
{
    if (e.opcode() == "stor"@ || e.opcode() == "storage"@) && e.args().len() > 0 {
        lemma_type_of_first_known(e);
    }
}

proof fn lemma_type_of_first_known(e: ExpV)
    ensures
        storage_type_of_first(e) == "mapping"@ || storage_type_of_first(e) == "array"@
            || storage_type_of_first(e) == "uint256"@ || storage_type_of_first(e) == "bytes32"@,
    decreases e, 0int,
{
    match e {
        ExpV::Op1(_, a) => lemma_type_known(*a),
        ExpV::Op2(_, a, _) => lemma_type_known(*a),
        ExpV::Op3(_, a, _, _) => lemma_type_known(*a),
        ExpV::Op4(_, a, _, _, _) => lemma_type_known(*a),
        ExpV::OpN(_, args) => if args.len() > 0 {
            lemma_type_known(args[0]);
        },
        _ => {},
    }
}

/// Infer the type of a storage variable from its expression
fn infer_storage_type(exp: &Exp) -> (r: String)
    ensures
        r@ == storage_type(exp@),
    decreases exp@,
{
    let op = exp.opcode();
    if str_eq(op, "stor") || str_eq(op, "storage") {
        let args = exp.args();
        let mut i: usize = 0;
        while i < args.len()
            invariant
                i == 0,
                exp@.opcode() == "stor"@ || exp@.opcode() == "storage"@,
                args@.len() == exp@.args().len(),
                forall|k: int| 0 <= k < args@.len() ==> ev(*#[trigger] args@[k]) == exp@.args()[k],
            decreases args.len() - i,
        {
            proof {
                assert(decreases_to!(exp@ => exp@.args()[i as int]));
                lemma_type_known(exp@.args()[0]);
                reveal_strlit("unknown");
                reveal_strlit("mapping");
                reveal_strlit("array");
                reveal_strlit("uint256");
                reveal_strlit("bytes32");
            }
            let child_type = infer_storage_type(args[i]);
            assert("unknown"@[1] != "uint256"@[1]);
            assert("unknown"@[0] != "mapping"@[0]);
            assert("unknown"@[0] != "bytes32"@[0]);
            assert("unknown"@.len() != "array"@.len());
            assert(child_type@ != "unknown"@);
            if !str_eq(child_type.as_str(), "unknown") {
                assert(storage_type_of_first(exp@) == storage_type(exp@.args()[0]));
                return child_type;
            }
            i += 1;
        }
    }
    if let Exp::Op2(op, _, _) = exp {
        if str_eq(op.as_str(), "map") {
            return String::from_str("mapping");
        }
        if str_eq(op.as_str(), "array") || str_eq(op.as_str(), "length") {
            return String::from_str("array");
        }
    }
    if let Exp::Op1(op, _) = exp {
        if str_eq(op.as_str(), "loc") {
            return String::from_str("uint256");
        }
        if str_eq(op.as_str(), "sha3") {
            return String::from_str("bytes32");
        }
    }
    String::from_str("uint256")
}

/// Get a reasonable name for a storage variable
fn get_storage_name(exp: &Exp, loc: u64) -> (r: String)
    ensures
        r@ == storage_name(exp@, loc),
{
    if let Some(name) = get_name(exp) {
        return name;
    }
    let mut s = String::from_str("stor");
    if loc >= 1000 {
        let h = hex_string(loc as u128, true);
        s.append(h.as_str());
    } else {
        let d = dec_string(loc as u128);
        s.append(d.as_str());
    }
    s
}

/// A storage layout: each slot's variable name and type.
pub type Layout = Map<u64, (Seq<char>, Seq<char>)>;

/// The layout after one more storage access: the first access of a slot
/// names and types its variable.
pub open spec fn layout_step(m: Layout, s: ExpV) -> Layout {
    match loc_from_storage(s) {
        Some(l) => if m.contains_key(l) {
            m
        } else {
            m.insert(l, (storage_name(s, l), storage_type(s)))
        },
        None => m,
    }
}

/// The layout after a sequence of storage accesses.
pub open spec fn layout_from(m: Layout, stores: Seq<ExpV>) -> Layout
    decreases stores.len(),
{
    if stores.len() == 0 {
        m
    } else {
        layout_step(layout_from(m, stores.drop_last()), stores.last())
    }
}

/// The storage accesses of a list of traces, in order.
pub open spec fn traces_stores(tv: Seq<Seq<ExpV>>) -> Seq<ExpV>
    decreases tv.len(),
{
    if tv.len() == 0 {
        Seq::empty()
    } else {
        traces_stores(tv.drop_last()) + stores_of_seq(tv.last())
    }
}

/// The values of a list of traces.
pub open spec fn traces_view(traces: Seq<Vec<Exp>>) -> Seq<Seq<ExpV>> {
    Seq::new(traces.len(), |i: int| evs(traces[i]@))
}

/// A list of storage variables, sorted by slot, lists exactly the layout `m`.
pub open spec fn lists_layout(vs: Seq<StorageVar>, m: Layout) -> bool {
    &&& forall|i: int, j: int| 0 <= i < j < vs.len() ==> vs[i].slot < vs[j].slot
    &&& forall|i: int|
        0 <= i < vs.len() ==> m.contains_key(#[trigger] vs[i].slot) && m[vs[i].slot] == (
        vs[i].name@,
        vs[i].var_type@,
    )
    &&& forall|l: u64| #[trigger] m.contains_key(l) ==> exists|i: int| 0 <= i < vs.len() && vs[i].slot == l
}

/// The layout of a sequence of storage accesses holds exactly the slots
/// that some access locates, each named and typed after its first access.
pub proof fn lemma_layout_first_access(stores: Seq<ExpV>, l: u64)
    ensures
        layout_from(Map::empty(), stores).contains_key(l) <==> exists|k: int|
            0 <= k < stores.len() && loc_from_storage(#[trigger] stores[k]) == Some(l),
        forall|k: int|
            0 <= k < stores.len() && loc_from_storage(#[trigger] stores[k]) == Some(l) && (forall|j: int|
                0 <= j < k ==> loc_from_storage(#[trigger] stores[j]) != Some(l)) ==> layout_from(
                Map::empty(),
                stores,
            )[l] == (storage_name(stores[k], l), storage_type(stores[k])),
    decreases stores.len(),
{
    if stores.len() > 0 {
        let init = stores.drop_last();
        lemma_layout_first_access(init, l);
        let last = stores.last();
        assert forall|k: int| 0 <= k < init.len() implies #[trigger] init[k] == stores[k] by {}
        if exists|k: int| 0 <= k < stores.len() && loc_from_storage(#[trigger] stores[k]) == Some(l) {
            let k = choose|k: int| 0 <= k < stores.len() && loc_from_storage(#[trigger] stores[k]) == Some(l);
            if k < init.len() {
                assert(loc_from_storage(init[k]) == Some(l));
            }
        }
        if layout_from(Map::empty(), init).contains_key(l) {
            let k = choose|k: int| 0 <= k < init.len() && loc_from_storage(#[trigger] init[k]) == Some(l);
            assert(loc_from_storage(stores[k]) == Some(l));
        }
        assert forall|k: int|
            0 <= k < stores.len() && loc_from_storage(#[trigger] stores[k]) == Some(l) && (forall|j: int|
                0 <= j < k ==> loc_from_storage(#[trigger] stores[j]) != Some(l)) implies layout_from(
            Map::empty(),
            stores,
        )[l] == (storage_name(stores[k], l), storage_type(stores[k])) by {
            if k < init.len() {
                assert(loc_from_storage(init[k]) == Some(l));
                assert forall|j: int| 0 <= j < k implies loc_from_storage(#[trigger] init[j]) != Some(l) by {
                    assert(init[j] == stores[j]);
                }
            } else {
                if layout_from(Map::empty(), init).contains_key(l) {
                    let k2 = choose|k2: int|
                        0 <= k2 < init.len() && loc_from_storage(#[trigger] init[k2]) == Some(l);
                    assert(loc_from_storage(stores[k2]) == Some(l));
                    assert(false);
                }
            }
        }
    }
}

proof fn lemma_layout_append(m: Layout, a: Seq<ExpV>, b: Seq<ExpV>)
    ensures
        layout_from(m, a + b) == layout_from(layout_from(m, a), b),
    decreases b.len(),
{
    if b.len() == 0 {
        assert(a + b =~= a);
    } else {
        lemma_layout_append(m, a, b.drop_last());
        assert((a + b).drop_last() =~= a + b.drop_last());
        assert((a + b).last() == b.last());
    }
}

fn add_store(out: &mut Vec<StorageVar>, store: &Exp, Ghost(m): Ghost<Layout>)
    requires
        lists_layout(old(out)@, m),
    ensures
        lists_layout(final(out)@, layout_step(m, store@)),
{
    if let Some(loc) = get_loc(store) {
        let mut p: usize = 0;
        while p < out.len() && out[p].slot < loc
            invariant
                p <= out@.len(),
                forall|k: int| 0 <= k < p ==> (#[trigger] out@[k]).slot < loc,
            decreases out.len() - p,
        {
            p += 1;
        }
        if p < out.len() && out[p].slot == loc {
            return;
        }
        proof {
            if m.contains_key(loc) {
                let i = choose|i: int| 0 <= i < out@.len() && out@[i].slot == loc;
                if i < p {
                    assert(out@[i].slot < loc);
                } else if i > p {
                    assert(out@[p as int].slot < out@[i].slot);
                }
            }
        }
        let var_type = infer_storage_type(store);
        let name = get_storage_name(store, loc);
        let ghost old_out = out@;
        out.insert(p, StorageVar { name, var_type, slot: loc });
        proof {
            let m2 = layout_step(m, store@);
            assert forall|l: u64| #[trigger] m2.contains_key(l) implies exists|i: int|
                0 <= i < out@.len() && out@[i].slot == l by {
                if l == loc {
                    assert(out@[p as int].slot == l);
                } else {
                    let i = choose|i: int| 0 <= i < old_out.len() && old_out[i].slot == l;
                    if i < p {
                        assert(out@[i].slot == l);
                    } else {
                        assert(out@[i + 1].slot == l);
                    }
                }
            }
            assert forall|i: int| 0 <= i < out@.len() implies m2.contains_key(
                #[trigger] out@[i].slot,
            ) && m2[out@[i].slot] == (out@[i].name@, out@[i].var_type@) by {
                if i < p {
                    assert(out@[i] == old_out[i]);
                } else if i > p {
                    assert(out@[i] == old_out[i - 1]);
                }
            }
            assert forall|i: int, j: int| 0 <= i < j < out@.len() implies out@[i].slot
                < out@[j].slot by {
                if j < p {
                    assert(out@[i] == old_out[i] && out@[j] == old_out[j]);
                } else if j == p {
                    assert(out@[i] == old_out[i]);
                } else if i > p {
                    assert(out@[i] == old_out[i - 1] && out@[j] == old_out[j - 1]);
                } else if i == p {
                    assert(out@[j] == old_out[j - 1]);
                    assert(old_out[p as int].slot >= loc);
                    if j - 1 > p {
                        assert(old_out[p as int].slot < old_out[j - 1].slot);
                    }
                } else {
                    assert(out@[i] == old_out[i] && out@[j] == old_out[j - 1]);
                }
            }
        }
    }
}

fn add_stores_of_trace(out: &mut Vec<StorageVar>, trace: &Vec<Exp>, Ghost(m): Ghost<Layout>)
    requires
        lists_layout(old(out)@, m),
    ensures
        lists_layout(final(out)@, layout_from(m, stores_of_seq(evs(trace@)))),
{
    proof {
        lemma_evs(trace@);
    }
    let mut k: usize = 0;
    while k < trace.len()
        invariant
            k <= trace@.len(),
            evs(trace@).len() == trace@.len(),
            forall|i: int| 0 <= i < trace@.len() ==> #[trigger] evs(trace@)[i] == ev(trace@[i]),
            lists_layout(out@, layout_from(m, stores_of_seq(evs(trace@).subrange(0, k as int)))),
        decreases trace.len() - k,
    {
        let stores = find_stores(&trace[k]);
        let ghost before = stores_of_seq(evs(trace@).subrange(0, k as int));
        let ghost m0 = layout_from(m, before);
        proof {
            lemma_evs(stores@);
        }
        let mut j: usize = 0;
        while j < stores.len()
            invariant
                j <= stores@.len(),
                evs(stores@).len() == stores@.len(),
                forall|i: int| 0 <= i < stores@.len() ==> #[trigger] evs(stores@)[i] == ev(stores@[i]),
                lists_layout(out@, layout_from(m0, evs(stores@).subrange(0, j as int))),
            decreases stores.len() - j,
        {
            proof {
                let w = evs(stores@).subrange(0, j + 1);
                assert(w.drop_last() =~= evs(stores@).subrange(0, j as int));
                assert(w.last() == ev(stores@[j as int]));
            }
            add_store(out, &stores[j], Ghost(layout_from(m0, evs(stores@).subrange(0, j as int))));
            j += 1;
        }
        proof {
            assert(evs(stores@).subrange(0, stores@.len() as int) =~= evs(stores@));
            let w = evs(trace@).subrange(0, k + 1);
            assert(w.subrange(0, k as int) =~= evs(trace@).subrange(0, k as int));
            assert(w[k as int] == ev(trace@[k as int]));
            assert(stores_of_seq(w) == before + stores_of(ev(trace@[k as int])));
            lemma_layout_append(m, before, stores_of(ev(trace@[k as int])));
        }
        k += 1;
    }
    assert(evs(trace@).subrange(0, trace@.len() as int) =~= evs(trace@));
}

/// Parse storage accesses to determine layout
pub fn parse_storage(traces: &[Vec<Exp>]) -> (r: Vec<StorageVar>)
    ensures
        lists_layout(r@, layout_from(Map::empty(), traces_stores(traces_view(traces@)))),
{
    let mut storage_vars: Vec<StorageVar> = Vec::new();
    let ghost tv = traces_view(traces@);
    let mut t: usize = 0;
    while t < traces.len()
        invariant
            t <= traces@.len(),
            tv == traces_view(traces@),
            lists_layout(storage_vars@, layout_from(Map::empty(), traces_stores(tv.subrange(0, t as int)))),
        decreases traces.len() - t,
    {
        let ghost before = traces_stores(tv.subrange(0, t as int));
        add_stores_of_trace(&mut storage_vars, &traces[t], Ghost(layout_from(Map::empty(), before)));
        proof {
            let w = tv.subrange(0, t + 1);
            assert(w.drop_last() =~= tv.subrange(0, t as int));
            assert(w.last() == evs(traces@[t as int]@));
            lemma_layout_append(Map::empty(), before, stores_of_seq(evs(traces@[t as int]@)));
        }
        t += 1;
    }
    assert(tv.subrange(0, traces@.len() as int) =~= tv);
    storage_vars
}

// ---------------------------------------------------------------------------
// Names from getters

/// A getter's name without a leading `get`.
pub open spec fn strip_get(name: Seq<char>) -> Seq<char> {
    if "get"@.is_prefix_of(name) && name.len() > 3 {
        name.subrange(3, name.len() as int)
    } else {
        name
    }
}

/// Whether the first letter of a name is made lower case: it is not lower
/// case already and the name is not all upper case.
pub open spec fn lowers_first(s: Seq<char>) -> bool {
    !(s.len() > 0 && is_lower_spec(s[0])) && upper_spec(s) != s
}

/// Whether turning the first letter of a name lower case would cut a
/// character: the name is empty or starts with a character beyond ASCII.
pub open spec fn cuts_first(s: Seq<char>) -> bool {
    lowers_first(s) && !(s.len() > 0 && (s[0] as u32) < 0x80)
}

/// The storage name that a getter's name gives.
pub open spec fn getter_storage_name(name: Seq<char>) -> Seq<char> {
    let s = strip_get(name);
    let s2 = if lowers_first(s) {
        lower_spec(s.subrange(0, 1)) + s.subrange(1, s.len() as int)
    } else {
        s
    };
    before_char(s2, '(')
}

/// Whether deriving a storage name from this function's getter would cut a character.
pub open spec fn name_cuts(f: Function) -> bool {
    f.getter is Some && cuts_first(strip_get(f.name@))
}

/// The storage names that the getters of the functions give, each getter of
/// a storage value mapped to its name; a later function overrides an earlier.
pub open spec fn storage_names_spec(fs: Seq<Function>) -> Map<ExpV, Seq<char>>
    decreases fs.len(),
{
    if fs.len() == 0 {
        Map::empty()
    } else {
        let m = storage_names_spec(fs.drop_last());
        let f = fs.last();
        match f.getter {
            Some(g) => if g@.opcode() == "storage"@ {
                m.insert(g@, getter_storage_name(f.name@))
            } else {
                m
            },
            None => m,
        }
    }
}

/// An association list that holds exactly the map `m`, each key once.
pub open spec fn lists_map(v: Seq<(Exp, String)>, m: Map<ExpV, Seq<char>>) -> bool {
    &&& forall|i: int, j: int| 0 <= i < j < v.len() ==> (#[trigger] v[i]).0@ != (#[trigger] v[j]).0@
    &&& forall|i: int|
        0 <= i < v.len() ==> m.contains_key((#[trigger] v[i]).0@) && m[v[i].0@] == v[i].1@
    &&& forall|k: ExpV| #[trigger] m.contains_key(k) ==> exists|i: int| 0 <= i < v.len() && v[i].0@ == k
}

/// The storage name that a getter's name gives.
fn storage_name_of(name: &String) -> (r: String)
    requires
        !cuts_first(strip_get(name@)),
    ensures
        r@ == getter_storage_name(name@),
{
    proof {
        reveal_strlit("get");
    }
    let n = name.as_str().unicode_len();
    let stripped = if has_prefix(name.as_str(), "get") && n > 3 {
        String::from_str(name.as_str().substring_char(3, n))
    } else {
        name.clone()
    };
    let ghost s = stripped@;
    assert(s == strip_get(name@));
    let m = stripped.as_str().unicode_len();
    let first_lower = if m > 0 {
        char_is_lowercase(stripped.as_str().get_char(0))
    } else {
        false
    };
    let up = to_uppercase(stripped.as_str());
    let first = if m > 0 {
        to_lowercase(stripped.as_str().substring_char(0, 1))
    } else {
        String::new()
    };
    name_from_cases(stripped.as_str(), first_lower, up.as_str(), first.as_str())
}

/// The storage name of a name stripped of `get`, given what the case
/// mappings say of it: whether its first character is lower case, the name
/// in upper case, and its first character in lower case. The first letter
/// is lowered unless it is lower case already or the name is all upper
/// case; the name ends before its first `(`.
pub open spec fn storage_name_given(
    s: Seq<char>,
    first_is_lower: bool,
    upper: Seq<char>,
    first_lowered: Seq<char>,
) -> Seq<char> {
    let s2 = if !(s.len() > 0 && first_is_lower) && upper != s {
        first_lowered + s.subrange(1, s.len() as int)
    } else {
        s
    };
    before_char(s2, '(')
}

/// The storage name of a name stripped of `get`, from the results of the
/// case mappings (see [`storage_name_given`]).
pub fn name_from_cases(s: &str, first_is_lower: bool, upper: &str, first_lowered: &str) -> (r: String)
    requires
        !(s@.len() > 0 && first_is_lower) && upper@ != s@ ==> s@.len() > 0,
    ensures
        r@ == storage_name_given(s@, first_is_lower, upper@, first_lowered@),
{
    let m = s.unicode_len();
    let lowered = if !(m > 0 && first_is_lower) && !str_eq(upper, s) {
        let mut t = String::from_str(first_lowered);
        t.append(s.substring_char(1, m));
        t
    } else {
        String::from_str(s)
    };
    prefix_before(lowered.as_str(), '(')
}

/// Records `name` for the getter `g`, replacing an earlier name of it.
fn assoc_insert(v: &mut Vec<(Exp, String)>, g: &Exp, name: String, Ghost(m): Ghost<Map<ExpV, Seq<char>>>)
    requires
        lists_map(old(v)@, m),
    ensures
        lists_map(final(v)@, m.insert(g@, name@)),
{
    let mut j: usize = 0;
    while j < v.len() && !exp_eq_ref(&v[j].0, g)
        invariant
            j <= v@.len(),
            forall|k: int| 0 <= k < j ==> (#[trigger] v@[k]).0@ != g@,
        decreases v.len() - j,
    {
        j += 1;
    }
    let ghost old_v = v@;
    let m2 = Ghost(m.insert(g@, name@));
    if j < v.len() {
        v.set(j, (copy_exp(g), name));
        proof {
            assert forall|i: int| 0 <= i < v@.len() implies m2@.contains_key((#[trigger] v@[i]).0@)
                && m2@[v@[i].0@] == v@[i].1@ by {
                if i != j {
                    assert(v@[i] == old_v[i]);
                    assert(old_v[i].0@ != old_v[j as int].0@);
                }
            }
            assert forall|k: ExpV| #[trigger] m2@.contains_key(k) implies exists|i: int|
                0 <= i < v@.len() && v@[i].0@ == k by {
                if k == g@ {
                    assert(v@[j as int].0@ == k);
                } else {
                    let i = choose|i: int| 0 <= i < old_v.len() && old_v[i].0@ == k;
                    assert(v@[i].0@ == k);
                }
            }
            assert forall|a: int, b: int| 0 <= a < b < v@.len() implies (#[trigger] v@[a]).0@
                != (#[trigger] v@[b]).0@ by {
                if a != j && b != j {
                    assert(v@[a] == old_v[a] && v@[b] == old_v[b]);
                } else if a == j {
                    assert(v@[b] == old_v[b]);
                    assert(old_v[a].0@ != old_v[b].0@);
                } else {
                    assert(v@[a] == old_v[a]);
                    assert(old_v[a].0@ != old_v[b].0@);
                }
            }
        }
    } else {
        v.push((copy_exp(g), name));
        proof {
            assert forall|i: int| 0 <= i < v@.len() implies m2@.contains_key((#[trigger] v@[i]).0@)
                && m2@[v@[i].0@] == v@[i].1@ by {
                if i < old_v.len() {
                    assert(v@[i] == old_v[i]);
                }
            }
            assert forall|k: ExpV| #[trigger] m2@.contains_key(k) implies exists|i: int|
                0 <= i < v@.len() && v@[i].0@ == k by {
                if k == g@ {
                    assert(v@[old_v.len() as int].0@ == k);
                } else {
                    let i = choose|i: int| 0 <= i < old_v.len() && old_v[i].0@ == k;
                    assert(v@[i].0@ == k);
                }
            }
            assert forall|a: int, b: int| 0 <= a < b < v@.len() implies (#[trigger] v@[a]).0@
                != (#[trigger] v@[b]).0@ by {
                if b < old_v.len() {
                    assert(v@[a] == old_v[a] && v@[b] == old_v[b]);
                } else {
                    assert(v@[a] == old_v[a]);
                }
            }
        }
    }
}

fn exp_eq_ref(a: &Exp, b: &Exp) -> (r: bool)
    ensures
        r == (a@ == b@),
{
    crate::evm_core::types::exp_eq(a, b)
}

/// The storage names that the getters of the functions give (see
/// [`storage_names_spec`]), each getter once.
pub fn find_storage_names(functions: &[Function]) -> (r: Vec<(Exp, String)>)
    requires
        forall|i: int| 0 <= i < functions@.len() ==> !name_cuts(#[trigger] functions@[i]),
    ensures
        lists_map(r@, storage_names_spec(functions@)),
{
    proof {
        reveal_strlit("storage");
    }
    let mut res: Vec<(Exp, String)> = Vec::new();
    let mut i: usize = 0;
    assert(storage_names_spec(functions@.subrange(0, 0)) =~= Map::<ExpV, Seq<char>>::empty());
    while i < functions.len()
        invariant
            i <= functions@.len(),
            forall|k: int| 0 <= k < functions@.len() ==> !name_cuts(#[trigger] functions@[k]),
            lists_map(res@, storage_names_spec(functions@.subrange(0, i as int))),
        decreases functions.len() - i,
    {
        let func = &functions[i];
        let ghost m = storage_names_spec(functions@.subrange(0, i as int));
        proof {
            assert(functions@.subrange(0, i + 1).drop_last() =~= functions@.subrange(0, i as int));
            assert(!name_cuts(functions@[i as int]));
        }
        if let Some(getter) = &func.getter {
            let storage_name = storage_name_of(&func.name);
            if str_eq(getter.opcode(), "storage") {
                assoc_insert(&mut res, getter, storage_name, Ghost(m));
            }
        }
        i += 1;
    }
    assert(functions@.subrange(0, functions@.len() as int) =~= functions@);
    res
}

/// The storage names of [`find_storage_names`], or `None` when a getter's
/// name would have its first character cut.
pub fn try_find_storage_names(functions: &[Function]) -> (r: Option<Vec<(Exp, String)>>)
    ensures
        r is None <==> exists|i: int| 0 <= i < functions@.len() && name_cuts(#[trigger] functions@[i]),
        r matches Some(v) ==> lists_map(v@, storage_names_spec(functions@)),
{
    let mut i: usize = 0;
    while i < functions.len()
        invariant
            i <= functions@.len(),
            forall|k: int| 0 <= k < i ==> !name_cuts(#[trigger] functions@[k]),
        decreases functions.len() - i,
    {
        let func = &functions[i];
        if func.getter.is_some() && would_cut(&func.name) {
            assert(name_cuts(functions@[i as int]));
            return None;
        }
        i += 1;
    }
    Some(find_storage_names(functions))
}

/// Whether deriving a storage name from this name would cut a character.
fn would_cut(name: &String) -> (r: bool)
    ensures
        r == cuts_first(strip_get(name@)),
{
    proof {
        reveal_strlit("get");
    }
    let n = name.as_str().unicode_len();
    let stripped = if has_prefix(name.as_str(), "get") && n > 3 {
        String::from_str(name.as_str().substring_char(3, n))
    } else {
        name.clone()
    };
    let m = stripped.as_str().unicode_len();
    let first_lower = if m > 0 {
        char_is_lowercase(stripped.as_str().get_char(0))
    } else {
        false
    };
    if first_lower {
        return false;
    }
    let up = to_uppercase(stripped.as_str());
    if string_eq(&up, &stripped) {
        return false;
    }
    !(m > 0 && (stripped.as_str().get_char(0) as u32) < 0x80)
}

/// The storage layout of the functions' traces, with each trace rewritten so
/// that the storage locations of the layout carry their variables' names.
pub fn rewrite_functions(functions: &mut [Function]) -> (r: Vec<StorageVar>)
    ensures
        final(functions)@.len() == old(functions)@.len(),
        lists_layout(r@, layout_from(Map::empty(), traces_stores(traces_view_of(old(functions)@)))),
        forall|i: int|
            0 <= i < old(functions)@.len() ==> renamed_from(
                #[trigger] final(functions)@[i],
                old(functions)@[i],
                layout_from(Map::empty(), traces_stores(traces_view_of(old(functions)@))),
            ),
{
    let ghost fs0 = functions@;
    let mut traces: Vec<Vec<Exp>> = Vec::new();
    let mut i: usize = 0;
    while i < functions.len()
        invariant
            i <= functions@.len(),
            functions@ == fs0,
            traces@.len() == i,
            forall|k: int| 0 <= k < i ==> evs((#[trigger] traces@[k])@) == evs(functions@[k].trace@),
        decreases functions.len() - i,
    {
        traces.push(crate::evm_core::types::copy_exps(&functions[i].trace));
        i += 1;
    }
    let r = parse_storage(traces.as_slice());
    assert(traces_view(traces@) =~= traces_view_of(fs0));
    let ghost m = layout_from(Map::empty(), traces_stores(traces_view_of(fs0)));
    let mut j: usize = 0;
    while j < functions.len()
        invariant
            j <= functions@.len(),
            functions@.len() == fs0.len(),
            lists_layout(r@, m),
            forall|k: int| 0 <= k < j ==> renamed_from(#[trigger] functions@[k], fs0[k], m),
            forall|k: int| j <= k < functions@.len() ==> #[trigger] functions@[k] == fs0[k],
        decreases functions.len() - j,
    {
        let t = name_locs_trace(&functions[j].trace, r.as_slice(), Ghost(m));
        functions[j].trace = t;
        j += 1;
    }
    r
}

/// The traces of a list of functions.
pub open spec fn traces_view_of(fs: Seq<Function>) -> Seq<Seq<ExpV>> {
    Seq::new(fs.len(), |i: int| evs(fs[i].trace@))
}

/// `g` is `f` with the storage locations of its trace named after the layout.
pub open spec fn renamed_from(g: Function, f: Function, m: Layout) -> bool {
    &&& evs(g.trace@) == name_locs_seq(evs(f.trace@), m)
    &&& g.hash == f.hash
    &&& g.name == f.name
    &&& g.color_name == f.color_name
    &&& g.abi_name == f.abi_name
    &&& g.is_const == f.is_const
    &&& g.read_only == f.read_only
    &&& g.payable == f.payable
    &&& g.orig_trace == f.orig_trace
    &&& g.inferred_params == f.inferred_params
    &&& g.ast == f.ast
    &&& g.getter == f.getter
    &&& g.returns == f.returns
    &&& g.is_regular == f.is_regular
}

/// An expression with each storage location `("loc", l)` of a slot in the
/// layout named after its variable: it becomes `("name", name, ("loc", l))`.
pub open spec fn name_locs_spec(e: ExpV, m: Layout) -> ExpV
    decreases e,
{
    match e {
        ExpV::Op1(op, a) => if op == "loc"@ && *a is Int && m.contains_key((a->Int_0) as u64) {
            ExpV::op2("name"@, ExpV::Str(m[(a->Int_0) as u64].0), e)
        } else {
            ExpV::Op1(op, Box::new(name_locs_spec(*a, m)))
        },
        ExpV::Op2(op, a, b) => ExpV::Op2(op, Box::new(name_locs_spec(*a, m)), Box::new(name_locs_spec(*b, m))),
        ExpV::Op3(op, a, b, c) => ExpV::Op3(
            op,
            Box::new(name_locs_spec(*a, m)),
            Box::new(name_locs_spec(*b, m)),
            Box::new(name_locs_spec(*c, m)),
        ),
        ExpV::Op4(op, a, b, c, d) => ExpV::Op4(
            op,
            Box::new(name_locs_spec(*a, m)),
            Box::new(name_locs_spec(*b, m)),
            Box::new(name_locs_spec(*c, m)),
            Box::new(name_locs_spec(*d, m)),
        ),
        ExpV::OpN(op, args) => ExpV::OpN(op, name_locs_seq(args, m)),
        ExpV::If(c, t, f) => ExpV::If(Box::new(name_locs_spec(*c, m)), name_locs_seq(t, m), name_locs_seq(f, m)),
        ExpV::While(c, b) => ExpV::While(Box::new(name_locs_spec(*c, m)), name_locs_seq(b, m)),
        _ => e,
    }
}

/// [`name_locs_spec`] on each expression of a sequence.
pub open spec fn name_locs_seq(s: Seq<ExpV>, m: Layout) -> Seq<ExpV>
    decreases s,
{
    if s.len() == 0 {
        Seq::empty()
    } else {
        name_locs_seq(s.subrange(0, s.len() - 1), m).push(name_locs_spec(s[s.len() - 1], m))
    }
}

/// The name of the variable at slot `l`, if the layout has one.
fn slot_name(vars: &[StorageVar], l: u64, Ghost(m): Ghost<Layout>) -> (r: Option<String>)
    requires
        lists_layout(vars@, m),
    ensures
        match r {
            Some(n) => m.contains_key(l) && n@ == m[l].0,
            None => !m.contains_key(l),
        },
{
    let mut i: usize = 0;
    while i < vars.len()
        invariant
            i <= vars@.len(),
            lists_layout(vars@, m),
            forall|k: int| 0 <= k < i ==> (#[trigger] vars@[k]).slot != l,
        decreases vars.len() - i,
    {
        if vars[i].slot == l {
            return Some(vars[i].name.clone());
        }
        i += 1;
    }
    None
}

fn name_locs_trace(trace: &Vec<Exp>, vars: &[StorageVar], Ghost(m): Ghost<Layout>) -> (r: Vec<Exp>)
    requires
        lists_layout(vars@, m),
    ensures
        evs(r@) == name_locs_seq(evs(trace@), m),
    decreases trace,
{
    let mut r: Vec<Exp> = Vec::new();
    let mut i: usize = 0;
    assert(evs(r@) =~= name_locs_seq(evs(trace@.subrange(0, 0)), m)) by {
        lemma_evs(r@);
        lemma_evs(trace@.subrange(0, 0));
    }
    while i < trace.len()
        invariant
            i <= trace.len(),
            lists_layout(vars@, m),
            evs(r@) == name_locs_seq(evs(trace@.subrange(0, i as int)), m),
        decreases trace.len() - i,
    {
        assert(decreases_to!(trace => trace@[i as int]));
        proof {
            lemma_evs_prefix(trace@, i as int);
            lemma_push_prefix(evs(trace@.subrange(0, i as int)), ev(trace@[i as int]));
        }
        let e = name_locs_exp(&trace[i], vars, Ghost(m));
        push_exp(&mut r, e);
        i += 1;
    }
    assert(trace@.subrange(0, trace.len() as int) =~= trace@);
    r
}

fn name_locs_exp(exp: &Exp, vars: &[StorageVar], Ghost(m): Ghost<Layout>) -> (r: Exp)
    requires
        lists_layout(vars@, m),
    ensures
        r@ == name_locs_spec(exp@, m),
    decreases exp,
{
    proof {
        reveal_with_fuel(ev, 2);
    }
    if let Exp::Op1(op, a) = exp {
        if str_eq(op.as_str(), "loc") {
            if let Exp::Int(n) = &**a {
                if let Some(name) = slot_name(vars, *n as u64, Ghost(m)) {
                    return Exp::Op2(String::from_str("name"), Box::new(Exp::Str(name)), Box::new(copy_exp(exp)));
                }
            }
        }
    }
    match exp {
        Exp::Op1(op, a) => Exp::Op1(op.clone(), Box::new(name_locs_exp(a, vars, Ghost(m)))),
        Exp::Op2(op, a, b) => Exp::Op2(
            op.clone(),
            Box::new(name_locs_exp(a, vars, Ghost(m))),
            Box::new(name_locs_exp(b, vars, Ghost(m))),
        ),
        Exp::Op3(op, a, b, c) => Exp::Op3(
            op.clone(),
            Box::new(name_locs_exp(a, vars, Ghost(m))),
            Box::new(name_locs_exp(b, vars, Ghost(m))),
            Box::new(name_locs_exp(c, vars, Ghost(m))),
        ),
        Exp::Op4(op, a, b, c, d) => Exp::Op4(
            op.clone(),
            Box::new(name_locs_exp(a, vars, Ghost(m))),
            Box::new(name_locs_exp(b, vars, Ghost(m))),
            Box::new(name_locs_exp(c, vars, Ghost(m))),
            Box::new(name_locs_exp(d, vars, Ghost(m))),
        ),
        Exp::OpN(op, args) => Exp::OpN(op.clone(), name_locs_trace(args, vars, Ghost(m))),
        Exp::If(c, t, f) => Exp::If(
            Box::new(name_locs_exp(c, vars, Ghost(m))),
            name_locs_trace(t, vars, Ghost(m)),
            name_locs_trace(f, vars, Ghost(m)),
        ),
        Exp::While(c, b) => Exp::While(
            Box::new(name_locs_exp(c, vars, Ghost(m))),
            name_locs_trace(b, vars, Ghost(m)),
        ),
        _ => copy_exp(exp),
    }
}

} // verus!
