//! Functions of a contract: detection of their traits and printing.

use vstd::prelude::*;
use std::collections::HashMap;
use crate::evm_core::types::{
    Exp, ExpV, ev, evs, lemma_evs, lemma_evs_prefix, lemma_push_prefix, copy_exp, copy_exps, push_exp, extend_exps,
    Trace,
};
use crate::evm_core::masks::{mask_to_type, mask_to_type_spec};
use crate::prettify::{pretty, pretty_exp};
use crate::text::{
    str_eq, has_prefix, hex8_string, hex_chars, zero_pad, dec_string, dec_chars, join_strings,
    join_spec, count_lines, line_count, contains_str, occurs_at, prefix_before, before_char,
};
use crate::matcher::{MatchResult, Pattern};
use vstd::string::StringSliceAdditionalSpecFns;

pub mod keys;

use keys::{sorted_keys, asc_keys, position_of, is_ascending};

verus! {

broadcast use vstd::std_specs::hash::group_hash_axioms;

// ---------------------------------------------------------------------------
// Parameters

/// The calldata sizes that an expression reveals, added to `m`: a calldata
/// read `(cd idx)` is a full word, a `mask_shl` of one has the mask's size;
/// the word at index 0 (the selector) is left out.
pub open spec fn cd_refs(e: ExpV, m: Map<u64, i64>) -> Map<u64, i64>
    decreases e,
{
    match e {
        ExpV::Op2(op, a, _) => if op == "cd"@ {
            match *a {
                ExpV::Int(idx) => if idx as u64 == 0 {
                    m
                } else {
                    m.insert(idx as u64, 256)
                },
                _ => m,
            }
        } else {
            m
        },
        ExpV::Op4(op, size, _, _, inner) => if op == "mask_shl"@ {
            match *inner {
                ExpV::Op2(iop, ie, _) => if iop == "cd"@ {
                    match *ie {
                        ExpV::Int(idx) => if idx as u64 == 0 {
                            m
                        } else {
                            match *size {
                                ExpV::Int(sz) => m.insert(idx as u64, sz as i64),
                                _ => m,
                            }
                        },
                        _ => m,
                    }
                } else {
                    m
                },
                _ => m,
            }
        } else {
            m
        },
        ExpV::Op1(_, a) => cd_refs(*a, m),
        ExpV::Op3(_, a, b, c) => cd_refs(*c, cd_refs(*b, cd_refs(*a, m))),
        ExpV::OpN(_, args) => cd_refs_seq(args, m),
        _ => m,
    }
}

/// The calldata sizes that a sequence of expressions reveals, in order.
pub open spec fn cd_refs_seq(s: Seq<ExpV>, m: Map<u64, i64>) -> Map<u64, i64>
    decreases s,
{
    if s.len() == 0 {
        m
    } else {
        cd_refs(s[s.len() - 1], cd_refs_seq(s.subrange(0, s.len() - 1), m))
    }
}

/// The type name of a parameter of the given size.
pub open spec fn param_kind(size: i64) -> Seq<char> {
    if size == -2 {
        "tuple"@
    } else if size == -1 {
        "array"@
    } else if size == 1 {
        "bool"@
    } else {
        match mask_to_type_spec(size as u64, true) {
            Some(t) => t,
            None => "uint256"@,
        }
    }
}

/// A parameter read through a mask of a type's width gets that type, and
/// that type has the width it was read with: 160 bits give `address`, 8
/// give `uint8`, and so on.
pub proof fn lemma_param_kind_of_mask(size: i64)
    requires
        size != -2,
        size != -1,
        size != 1,
        mask_to_type_spec(size as u64, true) is Some,
    ensures
        param_kind(size) == mask_to_type_spec(size as u64, true)->0,
        0 < size <= 256 ==> crate::evm_core::masks::type_to_mask_spec(param_kind(size)) == Some(
            size as u64,
        ),
{
    if 0 < size <= 256 {
        crate::evm_core::masks::lemma_mask_type_round_trip(size as u64, true);
    }
}

/// The name of the `n`-th parameter.
pub open spec fn param_name(n: nat) -> Seq<char> {
    "_param"@ + dec_chars(n)
}

/// The parameters of a function: for each calldata index, its type and a
/// name numbered by the index's rank among all indices.
pub open spec fn params_spec(sizes: Map<u64, i64>, idx: u64) -> (Seq<char>, Seq<char>) {
    (param_kind(sizes[idx]), param_name((position_of(asc_keys(sizes.dom()), idx) + 1) as nat))
}

// ---------------------------------------------------------------------------
// Names

/// The parameter list `kind name, kind name, ...`, by ascending index.
pub open spec fn params_list(p: Map<u64, (String, String)>, ks: Seq<u64>) -> Seq<Seq<char>> {
    ks.map_values(|k: u64| p[k].0@ + " "@ + p[k].1@)
}

/// The ABI parameter list `kind,kind,...`, by ascending index.
pub open spec fn abi_list(p: Map<u64, (String, String)>, ks: Seq<u64>) -> Seq<Seq<char>> {
    ks.map_values(|k: u64| p[k].0@)
}

/// `name(list)`.
pub open spec fn call_form(name: Seq<char>, list: Seq<Seq<char>>, sep: Seq<char>) -> Seq<char> {
    before_char(name, '(') + "("@ + join_spec(list, sep) + ")"@
}

// ---------------------------------------------------------------------------
// Analysis

/// An expression's own line if it is a `return`.
pub open spec fn here_return(e: ExpV) -> Seq<ExpV> {
    if e.opcode() == "return"@ {
        seq![e]
    } else {
        Seq::empty()
    }
}

/// The `return` expressions inside an expression, outermost first.
pub open spec fn returns_in(e: ExpV) -> Seq<ExpV>
    decreases e,
{
    here_return(e) + match e {
        ExpV::Op1(_, a) => returns_in(*a),
        ExpV::Op2(_, a, b) => returns_in(*a) + returns_in(*b),
        ExpV::Op3(_, a, b, c) => returns_in(*a) + returns_in(*b) + returns_in(*c),
        ExpV::Op4(_, a, b, c, d) => returns_in(*a) + returns_in(*b) + returns_in(*c) + returns_in(*d),
        ExpV::OpN(_, args) => returns_in_seq(args),
        _ => Seq::empty(),
    }
}

/// The `return` expressions inside each expression of a sequence, in order.
pub open spec fn returns_in_seq(s: Seq<ExpV>) -> Seq<ExpV>
    decreases s,
{
    if s.len() == 0 {
        Seq::empty()
    } else {
        returns_in_seq(s.subrange(0, s.len() - 1)) + returns_in(s[s.len() - 1])
    }
}

/// Opcodes that read storage (`cd == false`) or calldata (`cd == true`).
pub open spec fn reads(op: Seq<char>, cd: bool) -> bool {
    if cd {
        op == "cd"@ || op == "calldata"@ || op == "calldataload"@
    } else {
        op == "storage"@ || op == "store"@
    }
}

/// Whether an expression reads storage (or calldata) anywhere inside it.
pub open spec fn mentions(e: ExpV, cd: bool) -> bool
    decreases e,
{
    reads(e.opcode(), cd) || match e {
        ExpV::Op1(_, a) => mentions(*a, cd),
        ExpV::Op2(_, a, b) => mentions(*a, cd) || mentions(*b, cd),
        ExpV::Op3(_, a, b, c) => mentions(*a, cd) || mentions(*b, cd) || mentions(*c, cd),
        ExpV::Op4(_, a, b, c, d) => mentions(*a, cd) || mentions(*b, cd) || mentions(*c, cd)
            || mentions(*d, cd),
        ExpV::OpN(_, args) => mentions_seq(args, cd),
        _ => false,
    }
}

pub open spec fn mentions_seq(s: Seq<ExpV>, cd: bool) -> bool
    decreases s,
{
    if s.len() == 0 {
        false
    } else {
        mentions_seq(s.subrange(0, s.len() - 1), cd) || mentions(s[s.len() - 1], cd)
    }
}

/// A line that returns nothing, or stops as invalid.
pub open spec fn reverts(e: ExpV) -> bool {
    (match e {
        ExpV::Op2(op, a, _) => op == "return"@ && *a == ExpV::Int(0),
        _ => false,
    }) || e.opcode() == "invalid"@
}

/// The branch that a function goes on with when its first line refuses
/// payment (`(if c t f)` with a reverting `t` or `f`).
pub open spec fn payment_guard(t: Seq<ExpV>) -> Option<ExpV> {
    if t.len() == 0 {
        None
    } else {
        match t[0] {
            ExpV::Op3(op, _, a, b) => if op == "if"@ {
                if reverts(*a) {
                    Some(*b)
                } else if reverts(*b) {
                    Some(*a)
                } else {
                    None
                }
            } else {
                None
            },
            _ => None,
        }
    }
}

/// The trace once a payment guard is removed.
pub open spec fn guarded_trace(t: Seq<ExpV>) -> Seq<ExpV> {
    match payment_guard(t) {
        Some(b) => seq![b],
        None => t,
    }
}

pub open spec fn is_write_op(op: Seq<char>) -> bool {
    op == "store"@ || op == "selfdestruct"@ || op == "call"@ || op == "delegatecall"@ || op
        == "codecall"@ || op == "create"@
}

/// Whether no line of a trace writes.
pub open spec fn read_only_spec(t: Seq<ExpV>) -> bool {
    forall|i: int| 0 <= i < t.len() ==> !is_write_op(#[trigger] t[i].opcode())
}

/// Whether a read-only function with these returns computes a constant:
/// one return, and a first line that reads neither storage nor calldata.
pub open spec fn const_found(t: Seq<ExpV>, rets: Seq<ExpV>) -> bool {
    read_only_spec(t) && rets.len() == 1 && !mentions(t[0], false) && !mentions(t[0], true)
}

/// A return of a storage value.
pub open spec fn is_storage_return(r: ExpV) -> bool {
    match r {
        ExpV::Op2(op, inner, _) => op == "return"@ && (match *inner {
            ExpV::Op1(o, _) => o == "storage"@,
            _ => false,
        }),
        _ => false,
    }
}

/// The first return of a storage value.
pub open spec fn first_storage_return(rets: Seq<ExpV>) -> Option<ExpV>
    decreases rets.len(),
{
    if rets.len() == 0 {
        None
    } else if is_storage_return(rets[0]) {
        Some(rets[0])
    } else {
        first_storage_return(rets.drop_first())
    }
}

/// What a getter's single return gives back, when it is a storage value or
/// non-empty `data`.
pub open spec fn getter_value(r: ExpV) -> Option<ExpV> {
    match r {
        ExpV::Op2(op, inner, _) => if op == "return"@ {
            match *inner {
                ExpV::Op1(o, _) => if o == "storage"@ {
                    Some(*inner)
                } else {
                    None
                },
                ExpV::OpN(o, terms) => if o == "data"@ && terms.len() > 0 {
                    Some(*inner)
                } else {
                    None
                },
                _ => None,
            }
        } else {
            None
        },
        _ => None,
    }
}

/// The value of an optional expression.
pub open spec fn opt_view(o: Option<Exp>) -> Option<ExpV> {
    match o {
        Some(e) => Some(e@),
        None => None,
    }
}

/// The getter of a function, from whether it is constant, read-only, and its returns.
pub open spec fn getter_spec(is_const: Option<ExpV>, ro: bool, rets: Seq<ExpV>) -> Option<ExpV> {
    let first = if ro && rets.len() > 0 {
        first_storage_return(rets)
    } else {
        None
    };
    if is_const is None && ro && rets.len() == 1 && getter_value(rets[0]) is Some {
        getter_value(rets[0])
    } else {
        first
    }
}

// ---------------------------------------------------------------------------
// Printing

/// The lines of an expression when printed: the expression itself, then
/// the lines inside its branches or operands.
pub open spec fn flatten(e: ExpV) -> Seq<ExpV>
    decreases e,
{
    seq![e] + match e {
        ExpV::If(_, t, f) => flatten_seq(t) + flatten_seq(f),
        ExpV::While(_, b) => flatten_seq(b),
        ExpV::Op1(_, a) => flatten(*a),
        ExpV::Op2(_, a, b) => flatten(*a) + flatten(*b),
        ExpV::Op3(_, a, b, c) => flatten(*a) + flatten(*b) + flatten(*c),
        ExpV::Op4(_, a, b, c, d) => flatten(*a) + flatten(*b) + flatten(*c) + flatten(*d),
        ExpV::OpN(_, args) => flatten_seq(args),
        _ => Seq::empty(),
    }
}

pub open spec fn flatten_seq(s: Seq<ExpV>) -> Seq<ExpV>
    decreases s,
{
    if s.len() == 0 {
        Seq::empty()
    } else {
        flatten_seq(s.subrange(0, s.len() - 1)) + flatten(s[s.len() - 1])
    }
}

/// Each expression printed on a line of its own, indented.
pub open spec fn indented(s: Seq<ExpV>) -> Seq<Seq<char>> {
    s.map_values(|e: ExpV| "  "@ + pretty(e))
}

/// The value that a constant function's `return` gives back.
pub open spec fn const_value(v: ExpV) -> ExpV {
    match v {
        ExpV::Op2(op, inner, _) => if op == "return"@ {
            *inner
        } else {
            v
        },
        _ => v,
    }
}

/// The first line of a function's printout.
pub open spec fn header_line(name: Seq<char>, payable: bool) -> Seq<char> {
    if exists|i: int| occurs_at(name, "_fallback"@, i) {
        if payable {
            "def "@ + name + " # default function"@
        } else {
            "def "@ + name + " # not payable, default function"@
        }
    } else if payable {
        "def "@ + name + " payable"@
    } else {
        "def "@ + name + " # not payable"@
    }
}

/// The lines of a function's printout.
pub open spec fn print_lines(
    name: Seq<char>,
    is_const: Option<ExpV>,
    payable: bool,
    ast: Option<ExpV>,
    trace: Seq<ExpV>,
) -> Seq<Seq<char>> {
    match is_const {
        Some(v) => seq!["const "@ + before_char(name, '(') + " = "@ + pretty(const_value(v))],
        None => {
            let body = match ast {
                Some(a) => indented(flatten(a)),
                None => indented(flatten_seq(trace)),
            };
            if body.len() == 0 {
                seq![header_line(name, payable), "  stop"@]
            } else {
                seq![header_line(name, payable)] + body
            }
        },
    }
}

/// A detected function in the contract
#[derive(Debug)]
pub struct Function {
    /// Function selector hash
    pub hash: u32,
    /// Function name
    pub name: String,
    /// ABI name with color codes
    pub color_name: String,
    /// ABI signature name
    pub abi_name: String,
    /// The constant that the function returns, if it is constant
    pub is_const: Option<Exp>,
    /// Whether function is read-only (doesn't modify storage)
    pub read_only: bool,
    /// Whether function accepts Ether
    pub payable: bool,
    /// Symbolic trace of the function
    pub trace: Trace,
    /// The trace as it was before processing
    pub orig_trace: Trace,
    /// Inferred parameter types and names (idx -> (type, name))
    pub inferred_params: HashMap<u64, (String, String)>,
    /// AST representation (if computed)
    pub ast: Option<Exp>,
    /// Getter expression (for getter functions)
    pub getter: Option<Exp>,
    /// List of return expressions
    pub returns: Vec<Exp>,
    /// Whether this is a regular function (not getter, not const)
    pub is_regular: bool,
}

impl Function {
    /// The lines that [`Function::print`] joins.
    pub open spec fn print_spec_lines(&self) -> Seq<Seq<char>> {
        print_lines(
            self.name@,
            opt_view(self.is_const),
            self.payable,
            opt_view(self.ast),
            evs(self.trace@),
        )
    }

    /// The printout of the function.
    pub open spec fn print_spec(&self) -> Seq<char> {
        join_spec(self.print_spec_lines(), "\n"@)
    }

    /// Whether two functions agree on every field but the three names.
    pub open spec fn same_but_names(self, other: Function) -> bool {
        &&& self.hash == other.hash
        &&& self.is_const == other.is_const
        &&& self.read_only == other.read_only
        &&& self.payable == other.payable
        &&& self.trace == other.trace
        &&& self.orig_trace == other.orig_trace
        &&& self.inferred_params == other.inferred_params
        &&& self.ast == other.ast
        &&& self.getter == other.getter
        &&& self.returns == other.returns
        &&& self.is_regular == other.is_regular
    }

    /// Whether the parameters match the calldata sizes of the trace.
    pub open spec fn params_match(p: Map<u64, (String, String)>, sizes: Map<u64, i64>) -> bool {
        &&& p.dom() == sizes.dom()
        &&& forall|k: u64|
            #[trigger] p.contains_key(k) ==> p[k].0@ == params_spec(sizes, k).0 && p[k].1@
                == params_spec(sizes, k).1
    }
}

/// The name that a new function starts with: `unknown_` and its hash in hex.
pub open spec fn unknown_name(hash: u32) -> Seq<char> {
    "unknown_"@ + zero_pad(hex_chars(hash as nat, false), 8)
}

/// Adds the calldata sizes that an expression reveals.
fn find_cd_refs(exp: &Exp, sizes: &mut HashMap<u64, i64>)
    ensures
        final(sizes)@ == cd_refs(exp@, old(sizes)@),
    decreases exp,
{
    proof {
        reveal_with_fuel(ev, 3);
    }
    match exp {
        Exp::Op2(op, a, _) => {
            assert(exp@ == ExpV::op2(op@, a@, exp@.args()[1]));
            if str_eq(op.as_str(), "cd") {
                if let Exp::Int(n) = &**a {
                    assert(a@ == ExpV::Int(*n));
                    let idx = *n as u64;
                    if idx == 0 {
                        return ;
                    }
                    sizes.insert(idx, 256);
                    assert(sizes@ == old(sizes)@.insert(idx, 256));
                }
            }
        },
        Exp::Op4(op, size_exp, _, _, inner) => {
            if str_eq(op.as_str(), "mask_shl") {
                if let Exp::Op2(inner_op, idx_exp, _) = &**inner {
                    if str_eq(inner_op.as_str(), "cd") {
                        if let Exp::Int(n) = &**idx_exp {
                            let idx = *n as u64;
                            if idx == 0 {
                                return ;
                            }
                            if let Exp::Int(size) = &**size_exp {
                                sizes.insert(idx, *size as i64);
                            }
                        }
                    }
                }
            }
        },
        Exp::Op1(_, a) => {
            find_cd_refs(a, sizes);
        },
        Exp::Op3(_, a, b, c) => {
            find_cd_refs(a, sizes);
            find_cd_refs(b, sizes);
            find_cd_refs(c, sizes);
        },
        Exp::OpN(_, args) => {
            find_cd_refs_each(args, sizes);
        },
        _ => {},
    }
}

/// Adds the calldata sizes that each expression of a sequence reveals.
fn find_cd_refs_each(v: &Vec<Exp>, sizes: &mut HashMap<u64, i64>)
    ensures
        final(sizes)@ == cd_refs_seq(evs(v@), old(sizes)@),
    decreases v,
{
    let ghost m0 = sizes@;
    let mut i: usize = 0;
    while i < v.len()
        invariant
            i <= v.len(),
            sizes@ == cd_refs_seq(evs(v@.subrange(0, i as int)), m0),
        decreases v.len() - i,
    {
        assert(decreases_to!(v => v@[i as int]));
        proof {
            lemma_evs_prefix(v@, i as int);
            lemma_push_prefix(evs(v@.subrange(0, i as int)), ev(v@[i as int]));
        }
        find_cd_refs(&v[i], sizes);
        i += 1;
    }
    assert(v@.subrange(0, v.len() as int) =~= v@);
}

/// Whether an expression reads storage or calldata, added to the flags.
fn check_trace(exp: &Exp, has_storage: &mut bool, has_cd: &mut bool)
    ensures
        *final(has_storage) == (*old(has_storage) || mentions(exp@, false)),
        *final(has_cd) == (*old(has_cd) || mentions(exp@, true)),
    decreases exp,
{
    let op = exp.opcode();
    if str_eq(op, "storage") {
        *has_storage = true;
    }
    if str_eq(op, "cd") || str_eq(op, "calldata") || str_eq(op, "calldataload") {
        *has_cd = true;
    }
    if str_eq(op, "store") {
        *has_storage = true;
    }
    match exp {
        Exp::Op1(_, a) => {
            check_trace(a, has_storage, has_cd);
        },
        Exp::Op2(_, a, b) => {
            check_trace(a, has_storage, has_cd);
            check_trace(b, has_storage, has_cd);
        },
        Exp::Op3(_, a, b, c) => {
            check_trace(a, has_storage, has_cd);
            check_trace(b, has_storage, has_cd);
            check_trace(c, has_storage, has_cd);
        },
        Exp::Op4(_, a, b, c, d) => {
            check_trace(a, has_storage, has_cd);
            check_trace(b, has_storage, has_cd);
            check_trace(c, has_storage, has_cd);
            check_trace(d, has_storage, has_cd);
        },
        Exp::OpN(_, args) => {
            check_each(args, has_storage, has_cd);
        },
        _ => {},
    }
}

/// Whether some expression of a sequence reads storage or calldata, added to the flags.
fn check_each(v: &Vec<Exp>, has_storage: &mut bool, has_cd: &mut bool)
    ensures
        *final(has_storage) == (*old(has_storage) || mentions_seq(evs(v@), false)),
        *final(has_cd) == (*old(has_cd) || mentions_seq(evs(v@), true)),
    decreases v,
{
    let ghost s0 = *has_storage;
    let ghost c0 = *has_cd;
    let mut i: usize = 0;
    while i < v.len()
        invariant
            i <= v.len(),
            *has_storage == (s0 || mentions_seq(evs(v@.subrange(0, i as int)), false)),
            *has_cd == (c0 || mentions_seq(evs(v@.subrange(0, i as int)), true)),
        decreases v.len() - i,
    {
        assert(decreases_to!(v => v@[i as int]));
        proof {
            lemma_evs_prefix(v@, i as int);
            lemma_push_prefix(evs(v@.subrange(0, i as int)), ev(v@[i as int]));
        }
        check_trace(&v[i], has_storage, has_cd);
        i += 1;
    }
    assert(v@.subrange(0, v.len() as int) =~= v@);
}

/// Adds the `return` expressions inside an expression.
fn find_returns_inner(exp: &Exp, results: &mut Vec<Exp>)
    ensures
        evs(final(results)@) == evs(old(results)@) + returns_in(exp@),
    decreases exp,
{
    let ghost r0 = evs(results@);
    if str_eq(exp.opcode(), "return") {
        push_exp(results, copy_exp(exp));
    }
    assert(evs(results@) == r0 + here_return(exp@));
    match exp {
        Exp::Op1(_, a) => {
            find_returns_inner(a, results);
        },
        Exp::Op2(_, a, b) => {
            find_returns_inner(a, results);
            find_returns_inner(b, results);
        },
        Exp::Op3(_, a, b, c) => {
            find_returns_inner(a, results);
            find_returns_inner(b, results);
            find_returns_inner(c, results);
        },
        Exp::Op4(_, a, b, c, d) => {
            find_returns_inner(a, results);
            find_returns_inner(b, results);
            find_returns_inner(c, results);
            find_returns_inner(d, results);
        },
        Exp::OpN(_, args) => {
            find_returns_each(args, results);
        },
        _ => {},
    }
    assert(evs(results@) =~= r0 + returns_in(exp@));
}

/// Adds the `return` expressions inside each expression of a sequence.
fn find_returns_each(v: &Vec<Exp>, results: &mut Vec<Exp>)
    ensures
        evs(final(results)@) == evs(old(results)@) + returns_in_seq(evs(v@)),
    decreases v,
{
    let ghost r1 = evs(results@);
    let mut i: usize = 0;
    assert(r1 + returns_in_seq(evs(v@.subrange(0, 0))) =~= r1) by {
        lemma_evs(v@.subrange(0, 0));
    }
    while i < v.len()
        invariant
            i <= v.len(),
            evs(results@) == r1 + returns_in_seq(evs(v@.subrange(0, i as int))),
        decreases v.len() - i,
    {
        assert(decreases_to!(v => v@[i as int]));
        proof {
            lemma_evs_prefix(v@, i as int);
            lemma_push_prefix(evs(v@.subrange(0, i as int)), ev(v@[i as int]));
        }
        find_returns_inner(&v[i], results);
        i += 1;
    }
    assert(v@.subrange(0, v.len() as int) =~= v@);
}

/// Adds the printed lines of an expression.
fn flatten_inner(exp: &Exp, result: &mut Vec<Exp>)
    ensures
        evs(final(result)@) == evs(old(result)@) + flatten(exp@),
    decreases exp,
{
    let ghost r0 = evs(result@);
    push_exp(result, copy_exp(exp));
    match exp {
        Exp::If(_, then_br, else_br) => {
            flatten_each(then_br, result);
            flatten_each(else_br, result);
        },
        Exp::While(_, body) => {
            flatten_each(body, result);
        },
        Exp::Op1(_, a) => {
            flatten_inner(a, result);
        },
        Exp::Op2(_, a, b) => {
            flatten_inner(a, result);
            flatten_inner(b, result);
        },
        Exp::Op3(_, a, b, c) => {
            flatten_inner(a, result);
            flatten_inner(b, result);
            flatten_inner(c, result);
        },
        Exp::Op4(_, a, b, c, d) => {
            flatten_inner(a, result);
            flatten_inner(b, result);
            flatten_inner(c, result);
            flatten_inner(d, result);
        },
        Exp::OpN(_, args) => {
            flatten_each(args, result);
        },
        _ => {},
    }
    assert(evs(result@) =~= r0 + flatten(exp@));
}

/// Adds the printed lines of each expression of a sequence.
fn flatten_each(v: &Vec<Exp>, result: &mut Vec<Exp>)
    ensures
        evs(final(result)@) == evs(old(result)@) + flatten_seq(evs(v@)),
    decreases v,
{
    let ghost r1 = evs(result@);
    let mut i: usize = 0;
    assert(r1 + flatten_seq(evs(v@.subrange(0, 0))) =~= r1) by {
        lemma_evs(v@.subrange(0, 0));
    }
    while i < v.len()
        invariant
            i <= v.len(),
            evs(result@) == r1 + flatten_seq(evs(v@.subrange(0, i as int))),
        decreases v.len() - i,
    {
        assert(decreases_to!(v => v@[i as int]));
        proof {
            lemma_evs_prefix(v@, i as int);
            lemma_push_prefix(evs(v@.subrange(0, i as int)), ev(v@[i as int]));
        }
        flatten_inner(&v[i], result);
        i += 1;
    }
    assert(v@.subrange(0, v.len() as int) =~= v@);
}

/// Indents and prints each expression.
fn indent_all(v: &Vec<Exp>, out: &mut Vec<String>)
    ensures
        final(out)@.map_values(|x: String| x@) == old(out)@.map_values(|x: String| x@) + indented(
            evs(v@),
        ),
{
    proof {
        lemma_evs(v@);
    }
    let ghost o0 = out@.map_values(|x: String| x@);
    let mut i: usize = 0;
    while i < v.len()
        invariant
            i <= v.len(),
            evs(v@).len() == v@.len(),
            forall|k: int| 0 <= k < v@.len() ==> #[trigger] evs(v@)[k] == ev(v@[k]),
            out@.map_values(|x: String| x@) == o0 + indented(evs(v@).subrange(0, i as int)),
        decreases v.len() - i,
    {
        let mut line = String::from_str("  ");
        proof {
            reveal_strlit("  ");
        }
        let p = pretty_exp(&v[i]);
        line.append(p.as_str());
        let ghost before = out@;
        out.push(line);
        assert(out@.map_values(|x: String| x@) =~= before.map_values(|x: String| x@).push(line@));
        assert(indented(evs(v@).subrange(0, i + 1)) =~= indented(evs(v@).subrange(0, i as int)).push(
            "  "@ + pretty(evs(v@)[i as int]),
        ));
        assert(out@.map_values(|x: String| x@) =~= o0 + indented(evs(v@).subrange(0, i + 1)));
        i += 1;
    }
    assert(evs(v@).subrange(0, v.len() as int) =~= evs(v@));
}

/// `a` followed by `b`.
fn concat(a: &str, b: &str) -> (r: String)
    ensures
        r@ == a@ + b@,
{
    let mut s = String::from_str(a);
    s.append(b);
    s
}

/// Whether no line of a trace writes.
fn writes_nothing(t: &Vec<Exp>) -> (r: bool)
    ensures
        r == read_only_spec(evs(t@)),
{
    proof {
        lemma_evs(t@);
    }
    let mut ro = true;
    let mut i: usize = 0;
    while i < t.len()
        invariant
            i <= t@.len(),
            evs(t@).len() == t@.len(),
            forall|k: int| 0 <= k < t@.len() ==> #[trigger] evs(t@)[k] == ev(t@[k]),
            ro ==> forall|k: int| 0 <= k < i ==> !is_write_op(#[trigger] evs(t@)[k].opcode()),
            !ro ==> exists|k: int| 0 <= k < i && is_write_op(#[trigger] evs(t@)[k].opcode()),
        decreases t.len() - i,
    {
        let op = t[i].opcode();
        if str_eq(op, "store") || str_eq(op, "selfdestruct") || str_eq(op, "call") || str_eq(
            op,
            "delegatecall",
        ) || str_eq(op, "codecall") || str_eq(op, "create") {
            assert(is_write_op(evs(t@)[i as int].opcode()));
            ro = false;
        }
        i += 1;
    }
    ro
}

/// Whether an expression reads neither storage nor calldata.
fn reads_nothing(e: &Exp) -> (r: bool)
    ensures
        r == (!mentions(e@, false) && !mentions(e@, true)),
{
    let mut has_storage = false;
    let mut has_cd = false;
    check_trace(e, &mut has_storage, &mut has_cd);
    !has_storage && !has_cd
}

/// What a getter's return gives back.
fn getter_of(ret: &Exp) -> (r: Option<Exp>)
    ensures
        opt_view(r) == getter_value(ret@),
{
    proof {
        reveal_with_fuel(ev, 2);
    }
    if let Exp::Op2(op, inner, _) = ret {
        if str_eq(op.as_str(), "return") {
            match &**inner {
                Exp::Op1(s_op, _) => {
                    if str_eq(s_op.as_str(), "storage") {
                        return Some(copy_exp(inner));
                    }
                },
                Exp::OpN(s_op, terms) => {
                    if str_eq(s_op.as_str(), "data") && terms.len() > 0 {
                        proof {
                            lemma_evs(terms@);
                        }
                        return Some(copy_exp(inner));
                    }
                },
                _ => {},
            }
        }
    }
    proof {
        if let ExpV::Op2(op, inner, _) = ret@ {
            if let ExpV::OpN(o, terms) = *inner {
                if let Exp::Op2(_, i2, _) = ret {
                    if let Exp::OpN(_, ts) = &**i2 {
                        lemma_evs(ts@);
                    }
                }
            }
        }
    }
    None
}

impl Function {
    /// Creates a function from its selector and trace, and analyses it.
    /// What [`Function::new`] builds from a hash and a trace.
    pub open spec fn new_from(&self, hash: u32, t: Seq<ExpV>) -> bool {
        &&& self.hash == hash
        &&& evs(self.orig_trace@) == t
        &&& Self::params_match(self.inferred_params@, cd_refs_seq(t, Map::empty()))
        &&& self.name@ == call_form(
            unknown_name(hash),
            params_list(self.inferred_params@, asc_keys(self.inferred_params@.dom())),
            ", "@,
        )
        &&& self.color_name@ == self.name@
        &&& self.abi_name@ == call_form(
            unknown_name(hash),
            abi_list(self.inferred_params@, asc_keys(self.inferred_params@.dom())),
            ","@,
        )
        &&& self.ast is None
        &&& t.len() == 0 ==> {
            &&& evs(self.trace@).len() == 0
            &&& self.is_const is None
            &&& self.read_only
            &&& self.payable
            &&& self.getter is None
            &&& self.returns@.len() == 0
            &&& self.is_regular
        }
        &&& t.len() > 0 ==> self.analysed_from(t, None)
    }

    pub fn new(hash: u32, trace: Trace) -> (r: Self)
        ensures
            r.new_from(hash, evs(trace@)),
    {
        proof {
            reveal_strlit("unknown_");
            reveal_strlit("unknown");
        }
        let hex = hex8_string(hash);
        let name = concat("unknown_", hex.as_str());
        let color_name = concat("unknown_", hex.as_str());
        let abi_name = concat("unknown_", hex.as_str());
        let mut func = Function {
            hash,
            name,
            color_name,
            abi_name,
            is_const: None,
            read_only: true,
            payable: true,
            trace: copy_exps(&trace),
            orig_trace: trace,
            inferred_params: HashMap::new(),
            ast: None,
            getter: None,
            returns: Vec::new(),
            is_regular: true,
        };
        func.inferred_params = func.make_params();
        if has_prefix(func.name.as_str(), "unknown") {
            func.make_names();
        }
        func.trace = func.cleanup_masks();
        func.analyse();
        func
    }

    /// What [`Function::analyse`] leaves behind, from a non-empty trace and
    /// the constant known before.
    pub open spec fn analysed_from(&self, t: Seq<ExpV>, is_const0: Option<ExpV>) -> bool {
        let rets = returns_in_seq(t);
        let t2 = guarded_trace(t);
        let ro = read_only_spec(t2);
        let c = if const_found(t2, rets) {
            Some(rets[0])
        } else {
            is_const0
        };
        &&& evs(self.returns@) == rets
        &&& evs(self.trace@) == t2
        &&& self.payable == (payment_guard(t) is None)
        &&& self.read_only == ro
        &&& opt_view(self.is_const) == c
        &&& opt_view(self.getter) == getter_spec(c, ro, rets)
        &&& self.is_regular == (c is None && getter_spec(c, ro, rets) is None)
    }

    /// The sort key of a function: `0` for an empty trace, `-1` if a line
    /// self-destructs, else the byte length of its printout.
    pub open spec fn priority_spec(&self) -> i32 {
        if self.trace@.len() == 0 {
            0i32
        } else if exists|i: int|
            0 <= i < self.trace@.len() && (#[trigger] self.trace@[i])@.opcode() == "selfdestruct"@ {
            -1i32
        } else {
            (vstd::utf8::encode_utf8(self.print_spec()).len() as usize) as i32
        }
    }

    /// The sort key of the function: `-1` if it can self-destruct, else the
    /// length of its printout.
    pub fn priority(&self) -> (r: i32)
        ensures
            r == self.priority_spec(),
    {
        if self.trace.len() == 0 {
            return 0;
        }
        let mut i: usize = 0;
        while i < self.trace.len()
            invariant
                i <= self.trace@.len(),
                forall|k: int| 0 <= k < i ==> (#[trigger] self.trace@[k])@.opcode() != "selfdestruct"@,
            decreases self.trace.len() - i,
        {
            if str_eq(self.trace[i].opcode(), "selfdestruct") {
                return -1;
            }
            i += 1;
        }
        self.ast_length().1 as i32
    }

    /// The number of lines and of bytes of the printout.
    pub fn ast_length(&self) -> (r: (usize, usize))
        ensures
            r == if self.trace@.len() == 0 {
                (0usize, 0usize)
            } else {
                (
                    line_count(self.print_spec()) as usize,
                    vstd::utf8::encode_utf8(self.print_spec()).len() as usize,
                )
            },
    {
        if self.trace.len() == 0 {
            return (0, 0);
        }
        let s = self.print();
        (count_lines(s.as_str()), s.as_str().len())
    }

    /// The trace with masks cleaned up: no rule is applied yet, so the
    /// trace is copied as it is.
    fn cleanup_masks(&self) -> (r: Trace)
        ensures
            evs(r@) == evs(self.trace@),
    {
        copy_exps(&self.trace)
    }

    /// Rebuilds the three names from the parameters, by ascending index.
    fn make_names(&mut self)
        ensures
            final(self).same_but_names(*old(self)),
            final(self).name@ == call_form(
                old(self).name@,
                params_list(old(self).inferred_params@, asc_keys(old(self).inferred_params@.dom())),
                ", "@,
            ),
            final(self).color_name@ == final(self).name@,
            final(self).abi_name@ == call_form(
                old(self).name@,
                abi_list(old(self).inferred_params@, asc_keys(old(self).inferred_params@.dom())),
                ","@,
            ),
    {
        proof {
            reveal_strlit("(");
            reveal_strlit(")");
            reveal_strlit(" ");
        }
        let new_name = prefix_before(self.name.as_str(), '(');
        let ks = sorted_keys(&self.inferred_params);
        let ghost p = self.inferred_params@;
        let mut parts: Vec<String> = Vec::new();
        let mut kinds: Vec<String> = Vec::new();
        let mut j: usize = 0;
        while j < ks.len()
            invariant
                j <= ks@.len(),
                p == self.inferred_params@,
                ks@.to_set() == p.dom(),
                parts@.len() == j,
                kinds@.len() == j,
                forall|q: int|
                    0 <= q < j ==> (#[trigger] parts@[q])@ == p[ks@[q]].0@ + " "@ + p[ks@[q]].1@,
                forall|q: int| 0 <= q < j ==> (#[trigger] kinds@[q])@ == p[ks@[q]].0@,
            decreases ks@.len() - j,
        {
            let k = ks[j];
            assert(ks@.to_set().contains(k)) by {
                assert(ks@[j as int] == k);
            }
            let entry = self.inferred_params.get(&k);
            match entry {
                Some(e) => {
                    let mut part = concat(e.0.as_str(), " ");
                    part.append(e.1.as_str());
                    parts.push(part);
                    kinds.push(e.0.clone());
                },
                None => {
                    assert(false);
                },
            }
            j += 1;
        }
        assert(parts@.map_values(|x: String| x@) =~= params_list(p, ks@));
        assert(kinds@.map_values(|x: String| x@) =~= abi_list(p, ks@));
        let params_str = join_strings(&parts, ", ");
        let abi_params = join_strings(&kinds, ",");
        let mut name = concat(new_name.as_str(), "(");
        name.append(params_str.as_str());
        name.append(")");
        let mut color_name = concat(new_name.as_str(), "(");
        color_name.append(params_str.as_str());
        color_name.append(")");
        let mut abi_name = concat(new_name.as_str(), "(");
        abi_name.append(abi_params.as_str());
        abi_name.append(")");
        self.name = name;
        self.color_name = color_name;
        self.abi_name = abi_name;
    }

    /// Infers the parameters from the calldata that the trace reads: each
    /// index gets a type from its size and a name numbered by its rank.
    fn make_params(&self) -> (r: HashMap<u64, (String, String)>)
        ensures
            Self::params_match(r@, cd_refs_seq(evs(self.trace@), Map::empty())),
    {
        let mut sizes: HashMap<u64, i64> = HashMap::new();
        let mut i: usize = 0;
        while i < self.trace.len()
            invariant
                i <= self.trace@.len(),
                sizes@ == cd_refs_seq(evs(self.trace@.subrange(0, i as int)), Map::empty()),
            decreases self.trace.len() - i,
        {
            proof {
                lemma_evs_prefix(self.trace@, i as int);
                lemma_push_prefix(evs(self.trace@.subrange(0, i as int)), ev(self.trace@[i as int]));
            }
            find_cd_refs(&self.trace[i], &mut sizes);
            i += 1;
        }
        assert(self.trace@.subrange(0, self.trace.len() as int) =~= self.trace@);
        let ghost m = sizes@;
        let ks = sorted_keys(&sizes);
        let mut params: HashMap<u64, (String, String)> = HashMap::new();
        let mut c: usize = 0;
        while c < ks.len()
            invariant
                c <= ks@.len(),
                m == sizes@,
                ks@ == asc_keys(m.dom()),
                is_ascending(ks@),
                ks@.to_set() == m.dom(),
                params@.dom() == ks@.subrange(0, c as int).to_set(),
                forall|k: u64|
                    #[trigger] params@.contains_key(k) ==> params@[k].0@ == params_spec(m, k).0
                        && params@[k].1@ == params_spec(m, k).1,
            decreases ks@.len() - c,
        {
            let idx = ks[c];
            assert(ks@.to_set().contains(idx)) by {
                assert(ks@[c as int] == idx);
            }
            let size: i64 = match sizes.get(&idx) {
                Some(v) => *v,
                None => {
                    assert(false);
                    0
                },
            };
            let kind = if size == -2 {
                String::from_str("tuple")
            } else if size == -1 {
                String::from_str("array")
            } else if size == 1 {
                String::from_str("bool")
            } else {
                match mask_to_type(size as u64, true) {
                    Some(t) => t,
                    None => String::from_str("uint256"),
                }
            };
            let name = concat("_param", dec_string((c + 1) as u128).as_str());
            proof {
                reveal_strlit("_param");
                assert(ks@[c as int] == idx);
                assert(position_of(ks@, idx) == c) by {
                    let w = position_of(ks@, idx);
                    assert(0 <= w < ks@.len() && ks@[w] == idx);
                    if w < c {
                        assert(ks@[w] < ks@[c as int]);
                    } else if w > c {
                        assert(ks@[c as int] < ks@[w]);
                    }
                }
            }
            params.insert(idx, (kind, name));
            proof {
                assert(params@.dom() =~= ks@.subrange(0, c + 1).to_set()) by {
                    assert forall|x: u64| params@.dom().contains(x) <==> ks@.subrange(0, c + 1).to_set().contains(x) by {
                        if x == idx {
                            assert(ks@.subrange(0, c + 1)[c as int] == x);
                        }
                        if ks@.subrange(0, c + 1).to_set().contains(x) {
                            let w = choose|w: int| 0 <= w < c + 1 && #[trigger] ks@.subrange(0, c + 1)[w] == x;
                            if w < c {
                                assert(ks@.subrange(0, c as int)[w] == x);
                            }
                        }
                        if ks@.subrange(0, c as int).to_set().contains(x) {
                            let w = choose|w: int| 0 <= w < c && #[trigger] ks@.subrange(0, c as int)[w] == x;
                            assert(ks@.subrange(0, c + 1)[w] == x);
                        }
                    }
                }
            }
            c += 1;
        }
        assert(ks@.subrange(0, ks@.len() as int) =~= ks@);
        params
    }

    /// Keeps a return of a storage value as the getter of a read-only function.
    fn simplify_string_getter_from_storage(&mut self)
        ensures
            final(self).hash == old(self).hash,
            final(self).name == old(self).name,
            final(self).color_name == old(self).color_name,
            final(self).abi_name == old(self).abi_name,
            final(self).is_const == old(self).is_const,
            final(self).read_only == old(self).read_only,
            final(self).payable == old(self).payable,
            final(self).trace == old(self).trace,
            final(self).orig_trace == old(self).orig_trace,
            final(self).inferred_params == old(self).inferred_params,
            final(self).ast == old(self).ast,
            final(self).returns == old(self).returns,
            final(self).is_regular == old(self).is_regular,
            opt_view(final(self).getter) == if old(self).read_only && old(self).returns@.len() > 0
                && first_storage_return(evs(old(self).returns@)) is Some {
                first_storage_return(evs(old(self).returns@))
            } else {
                opt_view(old(self).getter)
            },
    {
        if !self.read_only {
            return ;
        }
        if self.returns.len() == 0 {
            return ;
        }
        let ghost rets = evs(self.returns@);
        proof {
            lemma_evs(self.returns@);
        }
        assert(rets.subrange(0, rets.len() as int) =~= rets);
        let mut i: usize = 0;
        while i < self.returns.len()
            invariant
                *self == *old(self),
                self.read_only,
                i <= self.returns@.len(),
                rets == evs(self.returns@),
                rets.len() == self.returns@.len(),
                forall|k: int| 0 <= k < rets.len() ==> #[trigger] rets[k] == ev(self.returns@[k]),
                first_storage_return(rets) == first_storage_return(rets.subrange(i as int, rets.len() as int)),
            decreases self.returns.len() - i,
        {
            proof {
                reveal_with_fuel(ev, 2);
            }
            let r = &self.returns[i];
            let mut found = false;
            if let Exp::Op2(op, inner, _) = r {
                if str_eq(op.as_str(), "return") {
                    if let Exp::Op1(op1, _) = &**inner {
                        if str_eq(op1.as_str(), "storage") {
                            found = true;
                        }
                    }
                }
            }
            assert(found == is_storage_return(rets[i as int]));
            assert(rets.subrange(i as int, rets.len() as int)[0] == rets[i as int]);
            if found {
                self.getter = Some(copy_exp(r));
                return ;
            }
            assert(rets.subrange(i as int, rets.len() as int).drop_first() =~= rets.subrange(
                i + 1,
                rets.len() as int,
            ));
            i += 1;
        }
        assert(rets.subrange(i as int, rets.len() as int).len() == 0);
    }

    /// Analyses the function: its returns, whether it takes payment, whether
    /// it writes, and whether it is a constant or a getter.
    #[verifier::rlimit(50)]
    pub fn analyse(&mut self)
        ensures
            evs(old(self).trace@).len() == 0 ==> *final(self) == *old(self),
            evs(old(self).trace@).len() > 0 ==> final(self).analysed_from(
                evs(old(self).trace@),
                opt_view(old(self).is_const),
            ),
            final(self).hash == old(self).hash,
            final(self).name == old(self).name,
            final(self).color_name == old(self).color_name,
            final(self).abi_name == old(self).abi_name,
            final(self).orig_trace == old(self).orig_trace,
            final(self).inferred_params == old(self).inferred_params,
            final(self).ast == old(self).ast,
    {
        proof {
            lemma_evs(self.trace@);
            reveal_with_fuel(ev, 2);
        }
        if self.trace.len() == 0 {
            return ;
        }
        let ghost t = evs(self.trace@);
        let ghost c0 = opt_view(self.is_const);
        self.returns = self.find_returns();
        let keep = self.payment_branch();
        assert(opt_view(keep) == payment_guard(t));
        match keep {
            Some(line) => {
                let mut v: Vec<Exp> = Vec::new();
                push_exp(&mut v, line);
                assert(evs(v@) =~= seq![evs(v@)[0]]);
                self.trace = v;
                self.payable = false;
            },
            None => {
                self.payable = true;
            },
        }
        let ghost t2 = evs(self.trace@);
        assert(t2 == guarded_trace(t));
        proof {
            lemma_evs(self.trace@);
        }
        self.read_only = writes_nothing(&self.trace);
        assert(self.read_only == read_only_spec(t2));
        let ghost rets = evs(self.returns@);
        proof {
            lemma_evs(self.returns@);
        }
        if self.read_only && self.returns.len() == 1 {
            if reads_nothing(&self.trace[0]) {
                self.is_const = Some(copy_exp(&self.returns[0]));
            }
        }
        let ghost c = opt_view(self.is_const);
        assert(c == if const_found(t2, rets) {
            Some(rets[0])
        } else {
            c0
        });
        self.getter = None;
        self.simplify_string_getter_from_storage();
        if self.is_const.is_none() && self.read_only && self.returns.len() == 1 {
            let found = getter_of(&self.returns[0]);
            assert(opt_view(found) == getter_value(rets[0]));
            if found.is_some() {
                self.getter = found;
            }
        }
        self.is_regular = self.is_const.is_none() && self.getter.is_none();
    }

    /// The branch that the function goes on with when its first line
    /// refuses payment.
    fn payment_branch(&self) -> (r: Option<Exp>)
        requires
            self.trace@.len() > 0,
        ensures
            opt_view(r) == payment_guard(evs(self.trace@)),
    {
        proof {
            lemma_evs(self.trace@);
            reveal_with_fuel(ev, 2);
        }
        let first = &self.trace[0];
        if let Exp::Op3(op, _cond, if_true, if_false) = first {
            if str_eq(op.as_str(), "if") {
                let t_line = vec![copy_exp(if_true)];
                let f_line = vec![copy_exp(if_false)];
                if Self::is_revert(t_line.as_slice()) || Self::is_invalid(t_line.as_slice()) {
                    return Some(copy_exp(if_false));
                } else if Self::is_revert(f_line.as_slice()) || Self::is_invalid(f_line.as_slice()) {
                    return Some(copy_exp(if_true));
                }
            }
        }
        None
    }

    /// Whether a branch is a single `return` of nothing.
    fn is_revert(exp: &[Exp]) -> (r: bool)
        ensures
            r == (exp@.len() == 1 && match exp@[0]@ {
                ExpV::Op2(op, a, _) => op == "return"@ && *a == ExpV::Int(0),
                _ => false,
            }),
    {
        proof {
            reveal_with_fuel(ev, 2);
        }
        if exp.len() != 1 {
            return false;
        }
        let e = &exp[0];
        if let Exp::Op2(op, a, _) = e {
            if str_eq(op.as_str(), "return") {
                if let Exp::Int(n) = &**a {
                    if *n == 0 {
                        return true;
                    }
                }
            }
        }
        false
    }

    /// Whether a branch starts with `invalid`.
    fn is_invalid(exp: &[Exp]) -> (r: bool)
        ensures
            r == (exp@.len() > 0 && exp@[0]@.opcode() == "invalid"@),
    {
        if exp.len() == 0 {
            return false;
        }
        str_eq(exp[0].opcode(), "invalid")
    }

    /// The `return` expressions of the trace.
    fn find_returns(&self) -> (r: Vec<Exp>)
        ensures
            evs(r@) == returns_in_seq(evs(self.trace@)),
    {
        let mut results: Vec<Exp> = Vec::new();
        let mut i: usize = 0;
        assert(evs(results@) =~= Seq::<ExpV>::empty()) by {
            lemma_evs(results@);
        }
        while i < self.trace.len()
            invariant
                i <= self.trace@.len(),
                evs(results@) == returns_in_seq(evs(self.trace@.subrange(0, i as int))),
            decreases self.trace.len() - i,
        {
            proof {
                lemma_evs_prefix(self.trace@, i as int);
                lemma_push_prefix(evs(self.trace@.subrange(0, i as int)), ev(self.trace@[i as int]));
            }
            find_returns_inner(&self.trace[i], &mut results);
            i += 1;
        }
        assert(self.trace@.subrange(0, self.trace.len() as int) =~= self.trace@);
        results
    }

    /// The printout of the function.
    pub fn print(&self) -> (r: String)
        ensures
            r@ == self.print_spec(),
    {
        let lines = self._print();
        join_strings(&lines, "\n")
    }

    /// The lines of the printout.
    #[verifier::rlimit(50)]
    fn _print(&self) -> (r: Vec<String>)
        ensures
            r@.map_values(|x: String| x@) == self.print_spec_lines(),
    {
        proof {
            reveal_with_fuel(ev, 2);
        }
        if let Some(val) = &self.is_const {
            let mut val_exp = val;
            if let Exp::Op2(op, inner, _) = val {
                if str_eq(op.as_str(), "return") {
                    val_exp = &**inner;
                }
            }
            assert(val_exp@ == const_value(val@));
            let prefix = prefix_before(self.name.as_str(), '(');
            let mut line = concat("const ", prefix.as_str());
            line.append(" = ");
            let p = pretty_exp(val_exp);
            line.append(p.as_str());
            let r = vec![line];
            proof {
                reveal_strlit("const ");
                reveal_strlit(" = ");
            }
            assert(r@.map_values(|x: String| x@) =~= self.print_spec_lines());
            return r;
        }
        let header = self.header_string();
        let mut result: Vec<String> = Vec::new();
        result.push(header);
        let flat = self.body_lines();
        let ghost h = result@.map_values(|x: String| x@);
        assert(h =~= seq![header_line(self.name@, self.payable)]);
        indent_all(&flat, &mut result);
        let ghost body = indented(evs(flat@));
        assert(body == match opt_view(self.ast) {
            Some(a) => indented(flatten(a)),
            None => indented(flatten_seq(evs(self.trace@))),
        });
        assert(result@.map_values(|x: String| x@).len() == result@.len());
        assert((h + body).len() == 1 + body.len());
        if result.len() == 1 {
            let ghost before = result@;
            result.push(String::from_str("  stop"));
            proof {
                reveal_strlit("  stop");
                assert(body.len() == 0);
                assert(result@.map_values(|x: String| x@) =~= before.map_values(|x: String| x@).push(
                    "  stop"@,
                ));
                assert(result@.map_values(|x: String| x@) =~= seq![
                    header_line(self.name@, self.payable),
                    "  stop"@,
                ]);
            }
        } else {
            assert(body.len() > 0);
        }
        assert(result@.map_values(|x: String| x@) =~= self.print_spec_lines());
        result
    }

    /// The first line of the printout.
    fn header_string(&self) -> (r: String)
        ensures
            r@ == header_line(self.name@, self.payable),
    {
        let mut header = concat("def ", self.name.as_str());
        if self.payable {
            header.append(" payable");
        }
        if !self.payable {
            header.append(" # not payable");
        }
        if contains_str(self.name.as_str(), "_fallback") {
            if self.payable {
                header = concat("def ", self.name.as_str());
                header.append(" # default function");
            } else {
                header = concat("def ", self.name.as_str());
                header.append(" # not payable, default function");
            }
        }
        header
    }

    /// The expressions that the body of the printout shows.
    fn body_lines(&self) -> (r: Vec<Exp>)
        ensures
            evs(r@) == match opt_view(self.ast) {
                Some(a) => flatten(a),
                None => flatten_seq(evs(self.trace@)),
            },
    {
        match &self.ast {
            Some(ast) => Self::flatten_trace(ast),
            None => {
                let mut f: Vec<Exp> = Vec::new();
                assert(evs(f@) =~= Seq::<ExpV>::empty()) by {
                    lemma_evs(f@);
                }
                flatten_each(&self.trace, &mut f);
                assert(Seq::<ExpV>::empty() + flatten_seq(evs(self.trace@)) =~= flatten_seq(
                    evs(self.trace@),
                ));
                f
            },
        }
    }

    /// The printed lines of an expression.
    fn flatten_trace(exp: &Exp) -> (r: Vec<Exp>)
        ensures
            evs(r@) == flatten(exp@),
    {
        let mut result: Vec<Exp> = Vec::new();
        assert(evs(result@) =~= Seq::<ExpV>::empty()) by {
            lemma_evs(result@);
        }
        flatten_inner(exp, &mut result);
        assert(Seq::<ExpV>::empty() + flatten(exp@) =~= flatten(exp@));
        result
    }
}

/// Match result type alias for convenience
pub type FuncMatchResult = MatchResult;

/// Pattern for matching function expressions
pub type FuncPattern = Pattern;

} // verus!
