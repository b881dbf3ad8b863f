//! Symbolic EVM execution
//!
//! The VM executes disassembled bytecode symbolically, building a trace of
//! the operations it meets.

use vstd::prelude::*;
use std::collections::{HashMap, HashSet};
use crate::evm_core::types::{Exp, ExpV, ev, evs, lemma_evs, copy_exp, push_exp, Trace};
use crate::evm_core::arithmetic::{is_zero, simplify_bool, simplify_bool_spec, is_zero_spec};
use crate::loader::{
    Bytecode, Op, HexDecode, decode_hex, disasm_from, ops_match, digits_value,
    lemma_digits_none_extends, lemma_digits_exceed_extends,
};
use crate::stack::{Stack, top, rest, apply_op_spec, dup_spec, swap_spec};
use crate::text::{str_eq, has_prefix, dec_string, dec_chars};

verus! {

broadcast use vstd::std_specs::hash::group_hash_axioms;

/// A program as the VM reads it: the name and parameter of the opcode at each position.
pub type Code = Map<u64, (Seq<char>, Option<u64>)>;

/// The program that a map of opcodes holds.
pub open spec fn code_of(ops: Map<u64, Op>) -> Code {
    Map::new(|p: u64| ops.contains_key(p), |p: u64| (ops[p].opcode@, ops[p].param))
}

/// The program that a disassembly holds: its opcodes at positions 0, 1, 2, ...
pub open spec fn code_map(d: Seq<(Seq<char>, Option<u64>)>) -> Code {
    Map::new(|p: u64| p < d.len(), |p: u64| d[p as int])
}

/// The stack with its `k` top elements popped.
pub open spec fn pops(s: Seq<ExpV>, k: nat) -> Seq<ExpV>
    decreases k,
{
    if k == 0 {
        s
    } else {
        pops(rest(s), (k - 1) as nat)
    }
}

/// How many elements an opcode pops without pushing anything.
pub open spec fn pop_count(name: Seq<char>) -> Option<nat> {
    if name == "pop"@ || name == "selfdestruct"@ {
        Some(1)
    } else if name == "mstore"@ || name == "mstore8"@ || name == "sstore"@ || name == "log0"@ {
        Some(2)
    } else if name == "calldatacopy"@ || name == "returndatacopy"@ || name == "codecopy"@ || name
        == "create"@ || name == "log1"@ {
        Some(3)
    } else if name == "create2"@ || name == "extcodecopy"@ || name == "log2"@ {
        Some(4)
    } else if name == "log3"@ {
        Some(5)
    } else if name == "staticcall"@ || name == "delegatecall"@ || name == "log4"@ {
        Some(6)
    } else if name == "call"@ || name == "callcode"@ {
        Some(7)
    } else {
        None
    }
}

/// Opcodes that push a value of the environment, named after themselves.
pub open spec fn is_env_op(name: Seq<char>) -> bool {
    ||| name == "calldatasize"@
    ||| name == "address"@
    ||| name == "caller"@
    ||| name == "callvalue"@
    ||| name == "gasprice"@
    ||| name == "origin"@
    ||| name == "coinbase"@
    ||| name == "timestamp"@
    ||| name == "number"@
    ||| name == "difficulty"@
    ||| name == "gaslimit"@
    ||| name == "chainid"@
    ||| name == "basefee"@
    ||| name == "gas"@
    ||| name == "pc"@
    ||| name == "msize"@
    ||| name == "selfbalance"@
    ||| name == "codesize"@
    ||| name == "returndatasize"@
}

/// Opcodes that replace the top of the stack by themselves applied to it.
pub open spec fn is_lookup_op(name: Seq<char>) -> bool {
    ||| name == "blockhash"@
    ||| name == "balance"@
    ||| name == "extcodesize"@
    ||| name == "extcodehash"@
}

/// The index that follows the family name of `dupN` or `swapN`, read as
/// `str::parse::<usize>` reads it: an optional `+`, then decimal digits.
/// A value too large for `usize` indexes no element, so it is not bounded here.
pub open spec fn name_index(s: Seq<char>) -> Option<nat> {
    let d = if s.len() > 0 && s[0] == '+' {
        s.drop_first()
    } else {
        s
    };
    if d.len() == 0 {
        None
    } else {
        digits_value(d)
    }
}

proof fn lemma_digit_char(d: nat)
    requires
        d < 10,
    ensures
        '0' <= crate::text::digit_char(d) <= '9',
        (crate::text::digit_char(d) as int) - ('0' as int) == d,
{
}

proof fn lemma_digits_of_dec(n: nat)
    ensures
        digits_value(dec_chars(n)) == Some(n),
        dec_chars(n).len() > 0,
        dec_chars(n)[0] != '+',
    decreases n,
{
    lemma_digit_char(n % 10);
    if n < 10 {
        let d = dec_chars(n);
        assert(d == seq![crate::text::digit_char(n)]);
        assert(d.drop_last() =~= Seq::<char>::empty());
        assert(digits_value(d.drop_last()) == Some(0nat));
        assert(d.last() == crate::text::digit_char(n));
        assert(n % 10 == n);
    } else {
        lemma_digits_of_dec(n / 10);
        let d = dec_chars(n / 10).push(crate::text::digit_char(n % 10));
        assert(dec_chars(n) == d);
        assert(d.drop_last() =~= dec_chars(n / 10));
        assert(d[0] == dec_chars(n / 10)[0]);
        assert(d.last() == crate::text::digit_char(n % 10));
        assert((n / 10) * 10 + n % 10 == n);
    }
}

/// The VM's `dupN` copies the `N`-th item from the top onto the stack and
/// its `swapN` exchanges the top with the item `N` below it, for every
/// number `N` written in decimal after the family name.
pub proof fn lemma_vm_dup_swap(s: Seq<ExpV>, n: nat)
    ensures
        vm_apply_spec(s, "dup"@ + dec_chars(n), None) == dup_spec(s, n as int),
        vm_apply_spec(s, "swap"@ + dec_chars(n), None) == swap_spec(s, n as int),
{
    reveal_strlit("dup");
    reveal_strlit("swap");
    reveal_strlit("push");
    lemma_digits_of_dec(n);
    let dn = "dup"@ + dec_chars(n);
    let sn = "swap"@ + dec_chars(n);
    assert(dn.subrange(3, dn.len() as int) =~= dec_chars(n));
    assert(sn.subrange(4, sn.len() as int) =~= dec_chars(n));
    assert("dup"@.is_prefix_of(dn));
    assert("swap"@.is_prefix_of(sn));
    assert(!"push"@.is_prefix_of(dn)) by {
        assert(dn[0] != "push"@[0]);
    }
    assert(!"push"@.is_prefix_of(sn)) by {
        assert(sn[1] != "push"@[1]);
    }
    assert(!"dup"@.is_prefix_of(sn)) by {
        assert(sn[0] != "dup"@[0]);
    }
}

/// An index no greater than `limit`, or zero (which indexes nothing).
pub open spec fn index_or_zero(o: Option<nat>, limit: nat) -> nat {
    match o {
        Some(k) => if k <= limit {
            k
        } else {
            0
        },
        None => 0,
    }
}

/// The stack after the VM applies an opcode (other than a control-flow one) to it.
pub open spec fn vm_apply_spec(s: Seq<ExpV>, name: Seq<char>, param: Option<u64>) -> Seq<ExpV> {
    if "push"@.is_prefix_of(name) {
        match param {
            Some(p) => s.push(ExpV::Int(p as u128)),
            None => s,
        }
    } else if "dup"@.is_prefix_of(name) {
        match name_index(name.subrange(3, name.len() as int)) {
            Some(k) => dup_spec(s, k as int),
            None => s,
        }
    } else if "swap"@.is_prefix_of(name) {
        match name_index(name.subrange(4, name.len() as int)) {
            Some(k) => swap_spec(s, k as int),
            None => s,
        }
    } else if pop_count(name) is Some {
        pops(s, pop_count(name).unwrap())
    } else if name == "mload"@ {
        rest(s).push(ExpV::op1("mem"@, ExpV::op2("range"@, top(s), ExpV::Int(32))))
    } else if name == "sload"@ {
        rest(s).push(ExpV::op1("storage"@, top(s)))
    } else if name == "calldataload"@ {
        rest(s).push(ExpV::op2("cd"@, top(s), ExpV::Null))
    } else if is_env_op(name) {
        s.push(ExpV::Op(name))
    } else if is_lookup_op(name) {
        rest(s).push(ExpV::op1(name, top(s)))
    } else {
        apply_op_spec(s, name)
    }
}

/// The index in `name` from character `start` on (see [`name_index`]), or
/// zero when there is none or it passes `limit`.
fn index_after(name: &str, start: usize, limit: usize) -> (r: usize)
    requires
        start <= name@.len(),
    ensures
        r as nat == index_or_zero(name_index(name@.subrange(start as int, name@.len() as int)), limit as nat),
{
    let n = name.unicode_len();
    let ghost t = name@.subrange(start as int, n as int);
    let mut i = start;
    if i < n && name.get_char(i) == '+' {
        i += 1;
    }
    let ghost d = if t.len() > 0 && t[0] == '+' {
        t.drop_first()
    } else {
        t
    };
    assert(d =~= name@.subrange(i as int, n as int));
    if i == n {
        return 0;
    }
    let j0 = i;
    let mut v: usize = 0;
    assert(d.subrange(0, 0) =~= Seq::<char>::empty());
    while i < n
        invariant
            j0 <= i <= n,
            start <= n,
            n == name@.len(),
            t == name@.subrange(start as int, n as int),
            d == (if t.len() > 0 && t[0] == '+' {
                t.drop_first()
            } else {
                t
            }),
            d == name@.subrange(j0 as int, n as int),
            d.len() > 0,
            digits_value(d.subrange(0, i - j0)) == Some(v as nat),
            v <= limit,
        decreases n - i,
    {
        let c = name.get_char(i);
        proof {
            assert(d.subrange(0, i + 1 - j0).drop_last() =~= d.subrange(0, i - j0));
            assert(d.subrange(0, i + 1 - j0).last() == c);
        }
        if !('0' <= c && c <= '9') {
            proof {
                lemma_digits_none_extends(d, (i + 1 - j0) as nat);
            }
            return 0;
        }
        let digit = (c as u32 - '0' as u32) as u128;
        let w: u128 = (v as u128) * 10 + digit;
        if w > limit as u128 {
            proof {
                lemma_digits_exceed_extends(d, (i + 1 - j0) as nat, limit as nat);
            }
            return 0;
        }
        v = w as usize;
        i += 1;
    }
    assert(d.subrange(0, d.len() as int) =~= d);
    v
}

/// The successor of a position: `pos + 1` as a 64-bit value wraps.
pub open spec fn succ(pos: u64) -> u64 {
    if pos == u64::MAX {
        0
    } else {
        (pos + 1) as u64
    }
}

/// The last position that the scan for a successor looks at: `pos + 10000`
/// as a 64-bit value wraps.
pub open spec fn scan_limit(pos: u64) -> u64 {
    if pos > u64::MAX - 10000 {
        (pos - (u64::MAX - 9999)) as u64
    } else {
        (pos + 10000) as u64
    }
}

/// The first position from `p` on that holds an opcode, looking while the
/// position does not pass `limit` (the first one is always looked at) and
/// stopping at the largest 64-bit value.
pub open spec fn scan_code(code: Code, p: u64, limit: u64) -> Option<u64>
    decreases limit + 1 - p,
{
    if code.contains_key(p) {
        Some(p)
    } else if p > limit || p == u64::MAX {
        None
    } else {
        scan_code(code, (p + 1) as u64, limit)
    }
}

/// The position of the opcode after `pos`.
pub open spec fn next_pos_spec(code: Code, pos: u64) -> Option<u64> {
    scan_code(code, succ(pos), scan_limit(pos))
}

pub open spec fn is_halt(name: Seq<char>) -> bool {
    name == "stop"@ || name == "revert"@ || name == "invalid"@ || name == "return"@
}

/// The line for an opcode that ends execution: its size and offset come from the stack.
pub open spec fn halt_line(s: Seq<ExpV>, name: Seq<char>) -> ExpV {
    let size = top(s);
    let offset = top(rest(s));
    if size == ExpV::Int(0) {
        ExpV::Op(name)
    } else {
        ExpV::op2(name, offset, size)
    }
}

/// The top of the stack, or zero for an empty one.
pub open spec fn top_or_zero(s: Seq<ExpV>) -> ExpV {
    if s.len() == 0 {
        ExpV::Int(0)
    } else {
        s.last()
    }
}

/// One step of execution at `pos` with stack `s`: the lines it adds to the
/// trace, and where execution goes on with which stack, unless it stops.
pub open spec fn vm_step(code: Code, pos: u64, s: Seq<ExpV>) -> (Seq<ExpV>, Option<(u64, Seq<ExpV>)>) {
    if !code.contains_key(pos) {
        (seq![ExpV::op1("invalid"@, ExpV::Int(pos as u128))], None)
    } else {
        let name = code[pos].0;
        if is_halt(name) {
            (seq![halt_line(s, name)], None)
        } else if name == "jump"@ {
            (seq![ExpV::op1("jump"@, top_or_zero(s))], None)
        } else if name == "jumpi"@ {
            let s1 = rest(s);
            let cond = simplify_bool_spec(top(s1));
            if is_zero_spec(cond) {
                (
                    Seq::empty(),
                    match next_pos_spec(code, pos) {
                        Some(np) => Some((np, rest(s1))),
                        None => None,
                    },
                )
            } else {
                (seq![ExpV::op1("jumpi"@, cond)], None)
            }
        } else if name == "jumpdest"@ {
            (seq![ExpV::op1("jumpdest"@, ExpV::Int(pos as u128))], None)
        } else {
            (
                seq![ExpV::Null],
                match next_pos_spec(code, pos) {
                    Some(np) => Some((np, vm_apply_spec(s, name, code[pos].1))),
                    None => None,
                },
            )
        }
    }
}

/// The trace of at most `n` steps of execution from `pos` with stack `s`.
pub open spec fn vm_trace(code: Code, pos: u64, s: Seq<ExpV>, n: nat) -> Seq<ExpV>
    decreases n,
{
    if n == 0 {
        Seq::empty()
    } else {
        let (out, cont) = vm_step(code, pos, s);
        out + match cont {
            Some((np, s2)) => vm_trace(code, np, s2, (n - 1) as nat),
            None => Seq::empty(),
        }
    }
}

/// An execution of at most `n` steps records at most `n` lines, and every
/// line but the last is the empty line of an ordinary step: only the last
/// one can tell how execution ended.
pub proof fn lemma_vm_trace_shape(code: Code, pos: u64, s: Seq<ExpV>, n: nat)
    ensures
        vm_trace(code, pos, s, n).len() <= n,
        forall|k: int|
            0 <= k < vm_trace(code, pos, s, n).len() - 1 ==> #[trigger] vm_trace(code, pos, s, n)[k]
                == ExpV::Null,
    decreases n,
{
    if n > 0 {
        let (out, cont) = vm_step(code, pos, s);
        match cont {
            Some((np, s2)) => {
                lemma_vm_trace_shape(code, np, s2, (n - 1) as nat);
                let t = vm_trace(code, np, s2, (n - 1) as nat);
                assert(out.len() <= 1 && (out.len() == 1 ==> out[0] == ExpV::Null));
                assert forall|k: int| 0 <= k < (out + t).len() - 1 implies #[trigger] (out + t)[k]
                    == ExpV::Null by {
                    if k >= out.len() {
                        assert((out + t)[k] == t[k - out.len()]);
                    }
                }
            },
            None => {
                assert(out.len() <= 1);
                assert(out + Seq::<ExpV>::empty() =~= out);
            },
        }
    }
}

/// A run records at most the prelude and the step limit's lines.
pub proof fn lemma_run_bounded(code: Code, start: u64, s: Seq<ExpV>)
    ensures
        run_spec(code, start, s).len() <= run_prelude().len() + step_limit(),
{
    lemma_vm_trace_shape(code, start_pos(code, start), s, step_limit());
}

/// Where execution from `start` begins: a jump destination there is stepped over.
pub open spec fn start_pos(code: Code, start: u64) -> u64 {
    if code.contains_key(start) && code[start].0 == "jumpdest"@ {
        match next_pos_spec(code, start) {
            Some(p) => p,
            None => succ(start),
        }
    } else {
        start
    }
}

/// The number of steps that one execution takes at most.
pub open spec fn step_limit() -> nat {
    1000
}

/// The trace of an execution from `start` with stack `s`.
pub open spec fn execute_spec(code: Code, start: u64, s: Seq<ExpV>) -> Seq<ExpV> {
    vm_trace(code, start_pos(code, start), s, step_limit())
}

/// The lines that every run begins with: the free memory pointer is set and
/// control goes to the function's start.
pub open spec fn run_prelude() -> Seq<ExpV> {
    seq![
        ExpV::Op3(
            "setmem"@,
            Box::new(ExpV::op2("range"@, ExpV::Int(0x40), ExpV::Int(32))),
            Box::new(ExpV::Int(0x60)),
            Box::new(ExpV::Null),
        ),
        ExpV::op1("jump"@, ExpV::Var("func_start"@)),
    ]
}

/// The trace of a run from `start` with stack `s`.
pub open spec fn run_spec(code: Code, start: u64, s: Seq<ExpV>) -> Seq<ExpV> {
    run_prelude() + execute_spec(code, start, s)
}

/// A disassembly's map of opcodes is the program of that disassembly.
pub proof fn lemma_code_of_disassembly(m: Map<u64, Op>, d: Seq<(Seq<char>, Option<u64>)>)
    requires
        ops_match(m, d),
    ensures
        code_of(m) == code_map(d),
{
    assert(code_of(m) =~= code_map(d));
}

/// A node in the execution graph
#[derive(Debug)]
pub struct Node {
    /// Position in bytecode
    pub pos: u64,
    /// Previous node
    pub prev: Option<Box<Node>>,
    /// Next nodes
    pub next: Vec<Box<Node>>,
    /// Trace from this node
    pub trace: Option<Trace>,
    /// Stack at this node
    pub stack: Vec<Exp>,
    /// Jump destination key (pos, stack_len, jumpdests)
    pub jd_key: (u64, usize, Vec<u64>),
    /// Depth in the trace tree
    pub depth: usize,
    /// Whether this is a jumpdest
    pub is_jumpdest: bool,
    /// Loop label if this is a loop header
    pub label: Option<Box<Node>>,
    /// Condition for conditional jumps
    pub condition: Option<Exp>,
    /// Whether this node is reached by falling through
    pub safe: bool,
}

impl Node {
    /// A fresh node at `pos` with the given stack and nothing linked to it.
    pub fn new(pos: u64, stack: Vec<Exp>, safe: bool) -> (r: Self)
        ensures
            r.pos == pos,
            r.prev is None,
            r.next@.len() == 0,
            r.trace is None,
            r.stack@ == stack@,
            r.jd_key.0 == pos,
            r.jd_key.1 == stack@.len(),
            r.jd_key.2@.len() == 0,
            r.depth == 0,
            !r.is_jumpdest,
            r.label is None,
            r.condition is None,
            r.safe == safe,
    {
        let len = stack.len();
        Self {
            pos,
            prev: None,
            next: Vec::new(),
            trace: None,
            stack,
            jd_key: (pos, len, Vec::new()),
            depth: 0,
            is_jumpdest: false,
            label: None,
            condition: None,
            safe,
        }
    }
}

impl Clone for Node {
    fn clone(&self) -> (r: Self)
        ensures
            r.pos == self.pos,
            r.depth == self.depth,
            r.is_jumpdest == self.is_jumpdest,
            r.safe == self.safe,
            evs(r.stack@) == evs(self.stack@),
        decreases self,
    {
        let prev = match &self.prev {
            Some(b) => Some(Box::new((&**b).clone())),
            None => None,
        };
        let mut next: Vec<Box<Node>> = Vec::new();
        let mut i: usize = 0;
        while i < self.next.len()
            invariant
                i <= self.next@.len(),
            decreases self.next@.len() - i,
        {
            assert(decreases_to!(self => self.next@[i as int]));
            next.push(Box::new((&*self.next[i]).clone()));
            i += 1;
        }
        let trace = match &self.trace {
            Some(t) => Some(crate::evm_core::types::copy_exps(t)),
            None => None,
        };
        let label = match &self.label {
            Some(b) => Some(Box::new((&**b).clone())),
            None => None,
        };
        let condition = match &self.condition {
            Some(c) => Some(copy_exp(c)),
            None => None,
        };
        Node {
            pos: self.pos,
            prev,
            next,
            trace,
            stack: crate::evm_core::types::copy_exps(&self.stack),
            jd_key: (self.jd_key.0, self.jd_key.1, self.jd_key.2.clone()),
            depth: self.depth,
            is_jumpdest: self.is_jumpdest,
            label,
            condition,
            safe: self.safe,
        }
    }
}

/// Symbolic EVM
#[derive(Debug)]
pub struct VM {
    /// Bytecode being executed
    pub bytecode: Bytecode,
    /// Jump destinations
    jump_dests: HashSet<u64>,
    /// Variable counter for fresh names
    var_counter: u64,
    /// Just find function destinations mode
    pub just_fdests: bool,
    /// Execution timeout
    pub timeout_ms: Option<u64>,
    /// Map of jumpdest keys to nodes
    nodes: HashMap<(u64, usize, Vec<u64>), Box<Node>>,
}

/// Whether an opcode name is one of those that end execution.
fn is_halt_name(name: &str) -> (r: bool)
    ensures
        r == is_halt(name@),
{
    str_eq(name, "stop") || str_eq(name, "revert") || str_eq(name, "invalid") || str_eq(
        name,
        "return",
    )
}

fn pop_count_of(name: &str) -> (r: Option<usize>)
    ensures
        match r {
            Some(k) => pop_count(name@) == Some(k as nat),
            None => pop_count(name@) is None,
        },
{
    if str_eq(name, "pop") || str_eq(name, "selfdestruct") {
        Some(1)
    } else if str_eq(name, "mstore") || str_eq(name, "mstore8") || str_eq(name, "sstore") || str_eq(
        name,
        "log0",
    ) {
        Some(2)
    } else if str_eq(name, "calldatacopy") || str_eq(name, "returndatacopy") || str_eq(
        name,
        "codecopy",
    ) || str_eq(name, "create") || str_eq(name, "log1") {
        Some(3)
    } else if str_eq(name, "create2") || str_eq(name, "extcodecopy") || str_eq(name, "log2") {
        Some(4)
    } else if str_eq(name, "log3") {
        Some(5)
    } else if str_eq(name, "staticcall") || str_eq(name, "delegatecall") || str_eq(name, "log4") {
        Some(6)
    } else if str_eq(name, "call") || str_eq(name, "callcode") {
        Some(7)
    } else {
        None
    }
}

fn is_env_name(name: &str) -> (r: bool)
    ensures
        r == is_env_op(name@),
{
    str_eq(name, "calldatasize") || str_eq(name, "address") || str_eq(name, "caller") || str_eq(
        name,
        "callvalue",
    ) || str_eq(name, "gasprice") || str_eq(name, "origin") || str_eq(name, "coinbase") || str_eq(
        name,
        "timestamp",
    ) || str_eq(name, "number") || str_eq(name, "difficulty") || str_eq(name, "gaslimit")
        || str_eq(name, "chainid") || str_eq(name, "basefee") || str_eq(name, "gas") || str_eq(
        name,
        "pc",
    ) || str_eq(name, "msize") || str_eq(name, "selfbalance") || str_eq(name, "codesize")
        || str_eq(name, "returndatasize")
}

fn is_lookup_name(name: &str) -> (r: bool)
    ensures
        r == is_lookup_op(name@),
{
    str_eq(name, "blockhash") || str_eq(name, "balance") || str_eq(name, "extcodesize") || str_eq(
        name,
        "extcodehash",
    )
}

/// Pops `k` elements.
fn pop_n(stack: &mut Stack, k: usize)
    ensures
        final(stack)@ == pops(old(stack)@, k as nat),
{
    let ghost s0 = stack@;
    let mut i: usize = 0;
    while i < k
        invariant
            i <= k,
            pops(s0, k as nat) == pops(stack@, (k - i) as nat),
        decreases k - i,
    {
        stack.pop();
        i += 1;
    }
}

impl VM {
    /// The bytecode that the VM executes.
    pub closed spec fn loaded(&self) -> Bytecode {
        self.bytecode
    }

    /// Whether the VM only looks for function destinations.
    pub closed spec fn fdests_only(&self) -> bool {
        self.just_fdests
    }

    /// The execution timeout.
    pub closed spec fn timeout(&self) -> Option<u64> {
        self.timeout_ms
    }

    /// The jump destinations of the bytecode, as a set.
    pub closed spec fn jump_dest_set(&self) -> Set<u64> {
        self.jump_dests@
    }

    /// How many fresh variables have been handed out.
    pub closed spec fn var_count(&self) -> u64 {
        self.var_counter
    }

    /// Whether no execution node has been recorded.
    pub closed spec fn has_no_nodes(&self) -> bool {
        self.nodes@.len() == 0
    }

    pub fn new(bytecode: Bytecode) -> (r: Self)
        ensures
            r.loaded() == bytecode,
            r.jump_dest_set() == bytecode.jump_dests@.to_set(),
            r.var_count() == 0,
            !r.fdests_only(),
            r.timeout() is None,
            r.has_no_nodes(),
    {
        let mut jump_dests: HashSet<u64> = HashSet::new();
        let ghost jd = bytecode.jump_dests@;
        let mut i: usize = 0;
        while i < bytecode.jump_dests.len()
            invariant
                jd == bytecode.jump_dests@,
                i <= jd.len(),
                forall|x: u64|
                    jump_dests@.contains(x) <==> (exists|k: int| 0 <= k < i && #[trigger] jd[k] == x),
            decreases jd.len() - i,
        {
            let d = bytecode.jump_dests[i];
            jump_dests.insert(d);
            assert forall|x: u64|
                jump_dests@.contains(x) <==> (exists|k: int| 0 <= k < i + 1 && #[trigger] jd[k] == x) by {
                if x == d {
                    assert(jd[i as int] == x);
                }
                if exists|k: int| 0 <= k < i + 1 && #[trigger] jd[k] == x {
                    let k = choose|k: int| 0 <= k < i + 1 && #[trigger] jd[k] == x;
                    if k < i {
                        assert(jd[k] == x);
                    }
                }
            }
            i += 1;
        }
        assert(jump_dests@ =~= jd.to_set());
        let nodes: HashMap<(u64, usize, Vec<u64>), Box<Node>> = HashMap::new();
        Self { bytecode, jump_dests, var_counter: 0, just_fdests: false, timeout_ms: None, nodes }
    }

    pub fn with_fdests_mode(bytecode: Bytecode) -> (r: Self)
        ensures
            r.loaded() == bytecode,
            r.jump_dest_set() == bytecode.jump_dests@.to_set(),
            r.var_count() == 0,
            r.fdests_only(),
            r.timeout() is None,
            r.has_no_nodes(),
    {
        let mut vm = Self::new(bytecode);
        vm.just_fdests = true;
        vm
    }

    pub fn with_timeout(bytecode: Bytecode, timeout_ms: u64) -> (r: Self)
        ensures
            r.loaded() == bytecode,
            r.jump_dest_set() == bytecode.jump_dests@.to_set(),
            r.var_count() == 0,
            !r.fdests_only(),
            r.timeout() == Some(timeout_ms),
            r.has_no_nodes(),
    {
        let mut vm = Self::new(bytecode);
        vm.timeout_ms = Some(timeout_ms);
        vm
    }

    /// The position of the opcode after `pos`.
    fn next_pos(&self, pos: u64) -> (r: Option<u64>)
        ensures
            r == next_pos_spec(code_of(self.bytecode.ops@), pos),
    {
        let ghost code = code_of(self.bytecode.ops@);
        let limit: u64 = if pos > u64::MAX - 10000 {
            pos - (u64::MAX - 9999)
        } else {
            pos + 10000
        };
        let mut p: u64 = if pos == u64::MAX {
            0
        } else {
            pos + 1
        };
        assert(limit == scan_limit(pos) && p == succ(pos));
        loop
            invariant
                code == code_of(self.bytecode.ops@),
                scan_code(code, p, limit) == next_pos_spec(code, pos),
            decreases limit + 1 - p,
        {
            if self.bytecode.ops.contains_key(&p) {
                return Some(p);
            }
            if p > limit || p == u64::MAX {
                return None;
            }
            p = p + 1;
        }
    }

    /// A fresh variable name.
    fn fresh_var(&mut self) -> (r: String)
        requires
            old(self).var_count() < u64::MAX,
        ensures
            final(self).var_count() == old(self).var_count() + 1,
            r@ == "_v"@ + dec_chars(final(self).var_count() as nat),
    {
        self.var_counter = self.var_counter + 1;
        let mut s = String::from_str("_v");
        proof {
            reveal_strlit("_v");
        }
        let d = dec_string(self.var_counter as u128);
        s.append(d.as_str());
        s
    }

    /// Runs the VM from the start to find the function destinations.
    pub fn find_functions(&mut self) -> (r: Vec<(u64, u128, Vec<Exp>)>)
        ensures
            r@.len() == 0,
            *final(self) == *old(self),
    {
        let trace = self.run_from(0, Vec::new(), None);
        let mut functions: Vec<(u64, u128, Vec<Exp>)> = Vec::new();
        self.extract_functions(&trace, &mut functions);
        functions
    }

    /// Collects function entries from a trace; no pattern is recognised yet,
    /// so nothing is added.
    fn extract_functions(&self, trace: &[Exp], functions: &mut Vec<(u64, u128, Vec<Exp>)>)
        ensures
            final(functions)@ == old(functions)@,
    {
    }

    /// Runs from `start` with the given stack: the prelude, then the execution.
    pub fn run_from(&mut self, start: u64, initial_stack: Vec<Exp>, _condition: Option<Exp>) -> (r:
        Trace)
        ensures
            evs(r@) == run_spec(code_of(old(self).loaded().ops@), start, evs(initial_stack@)),
            *final(self) == *old(self),
    {
        proof {
            reveal_with_fuel(ev, 3);
        }
        proof {
            reveal_strlit("func_start");
        }
        let mut result: Vec<Exp> = Vec::new();
        push_exp(
            &mut result,
            Exp::Op3(
                String::from_str("setmem"),
                Box::new(
                    Exp::Op2(
                        String::from_str("range"),
                        Box::new(Exp::Int(0x40)),
                        Box::new(Exp::Int(32)),
                    ),
                ),
                Box::new(Exp::Int(0x60)),
                Box::new(Exp::Null),
            ),
        );
        push_exp(
            &mut result,
            Exp::Op1(String::from_str("jump"), Box::new(Exp::Var(String::from_str("func_start")))),
        );
        assert(evs(result@) =~= run_prelude());
        let trace = self.execute_from(start, initial_stack, None);
        crate::evm_core::types::extend_exps(&mut result, trace);
        result
    }

    /// Executes from `start` for at most [`step_limit`] steps.
    fn execute_from(&mut self, start: u64, initial: Vec<Exp>, _condition: Option<Exp>) -> (r: Trace)
        ensures
            evs(r@) == execute_spec(code_of(old(self).loaded().ops@), start, evs(initial@)),
            *final(self) == *old(self),
    {
        proof {
            reveal_with_fuel(ev, 3);
        }
        let ghost code = code_of(self.bytecode.ops@);
        let ghost s0 = evs(initial@);
        let mut trace: Vec<Exp> = Vec::new();
        let mut stack = Stack::with_items(initial);
        let mut pos = start;
        if let Some(op) = self.bytecode.get_op(pos) {
            if str_eq(op.opcode.as_str(), "jumpdest") {
                pos = match self.next_pos(pos) {
                    Some(p) => p,
                    None => if pos == u64::MAX {
                        0
                    } else {
                        pos + 1
                    },
                };
            }
        }
        assert(pos == start_pos(code, start));
        let ghost full = vm_trace(code, pos, stack@, step_limit());
        assert(evs(trace@) =~= Seq::<ExpV>::empty());
        assert(evs(trace@) + full =~= full);
        let mut iter: u64 = 0;
        while iter < 1000
            invariant
                iter <= 1000,
                code == code_of(self.bytecode.ops@),
                *self == *old(self),
                full == execute_spec(code, start, s0),
                s0 == evs(initial@),
                evs(trace@) + vm_trace(code, pos, stack@, (1000 - iter) as nat) == full,
            decreases 1000 - iter,
        {
            proof {
                reveal_with_fuel(ev, 3);
            }
            let ghost before = evs(trace@);
            let ghost s = stack@;
            let ghost n = (1000 - iter) as nat;
            match self.step(pos, &mut stack, &mut trace) {
                Some(next_p) => {
                    assert(before + vm_trace(code, pos, s, n) =~= evs(trace@) + vm_trace(
                        code,
                        next_p,
                        stack@,
                        (n - 1) as nat,
                    ));
                    pos = next_p;
                },
                None => {
                    assert(evs(trace@) =~= before + vm_trace(code, pos, s, n));
                    return trace;
                },
            }
            iter += 1;
        }
        assert(evs(trace@) =~= full);
        trace
    }

    /// One step of execution at `pos`: adds its lines to the trace and gives
    /// the position where execution goes on, unless it stops.
    fn step(&self, pos: u64, stack: &mut Stack, trace: &mut Vec<Exp>) -> (r: Option<u64>)
        ensures
            evs(final(trace)@) == evs(old(trace)@) + vm_step(code_of(self.bytecode.ops@), pos, old(stack)@).0,
            match r {
                Some(np) => vm_step(code_of(self.bytecode.ops@), pos, old(stack)@).1 == Some(
                    (np, final(stack)@),
                ),
                None => vm_step(code_of(self.bytecode.ops@), pos, old(stack)@).1 is None,
            },
    {
        proof {
            reveal_with_fuel(ev, 3);
        }
        let ghost before = evs(trace@);
        let op = match self.bytecode.get_op(pos) {
            Some(op) => op,
            None => {
                push_exp(trace, Exp::Op1(String::from_str("invalid"), Box::new(Exp::Int(pos as u128))));
                assert(evs(trace@) =~= before + seq![ExpV::op1("invalid"@, ExpV::Int(pos as u128))]);
                return None;
            },
        };
        let name = op.opcode.as_str();
        if is_halt_name(name) {
            let line = self.handle_return_or_revert(stack, name);
            push_exp(trace, line);
            assert(evs(trace@) =~= before + seq![line@]);
            None
        } else if str_eq(name, "jump") {
            let target = self.pop_or_zero(stack);
            let line = Exp::Op1(String::from_str("jump"), Box::new(target));
            push_exp(trace, line);
            assert(evs(trace@) =~= before + seq![line@]);
            None
        } else if str_eq(name, "jumpi") {
            let _target = self.pop_or_zero(stack);
            let cond = stack.pop();
            let cond_simplified = simplify_bool(&cond);
            if is_zero(&cond_simplified) {
                assert(evs(trace@) =~= before + Seq::<ExpV>::empty());
                self.next_pos(pos)
            } else {
                let line = Exp::Op1(String::from_str("jumpi"), Box::new(cond_simplified));
                push_exp(trace, line);
                assert(evs(trace@) =~= before + seq![line@]);
                None
            }
        } else if str_eq(name, "jumpdest") {
            let line = Exp::Op1(String::from_str("jumpdest"), Box::new(Exp::Int(pos as u128)));
            push_exp(trace, line);
            assert(evs(trace@) =~= before + seq![line@]);
            None
        } else {
            self.apply_op(stack, op);
            let line = self.stack_to_trace(stack);
            push_exp(trace, line);
            assert(evs(trace@) =~= before + seq![line@]);
            self.next_pos(pos)
        }
    }

    /// Pops the top, or gives zero for an empty stack.
    fn pop_or_zero(&self, stack: &mut Stack) -> (r: Exp)
        ensures
            r@ == top_or_zero(old(stack)@),
            final(stack)@ == rest(old(stack)@),
    {
        if stack.is_empty() {
            Exp::Int(0)
        } else {
            stack.pop()
        }
    }

    /// Applies an opcode to the stack.
    fn apply_op(&self, stack: &mut Stack, op: &Op)
        ensures
            final(stack)@ == vm_apply_spec(old(stack)@, op.opcode@, op.param),
    {
        proof {
            reveal_with_fuel(ev, 3);
        }
        let name = op.opcode.as_str();
        if has_prefix(name, "push") {
            if let Some(param) = op.param {
                stack.push(Exp::Int(param as u128));
            }
        } else if has_prefix(name, "dup") {
            proof {
                reveal_strlit("dup");
            }
            let k = index_after(name, 3, stack.len());
            stack.dup(k);
        } else if has_prefix(name, "swap") {
            proof {
                reveal_strlit("swap");
            }
            let k = index_after(name, 4, stack.len());
            stack.swap(k);
        } else if let Some(k) = pop_count_of(name) {
            pop_n(stack, k);
        } else if str_eq(name, "mload") {
            let pos = stack.pop();
            stack.push(
                Exp::Op1(
                    String::from_str("mem"),
                    Box::new(
                        Exp::Op2(String::from_str("range"), Box::new(pos), Box::new(Exp::Int(32))),
                    ),
                ),
            );
        } else if str_eq(name, "sload") {
            let loc = stack.pop();
            stack.push(Exp::Op1(String::from_str("storage"), Box::new(loc)));
        } else if str_eq(name, "calldataload") {
            let pos = stack.pop();
            stack.push(Exp::Op2(String::from_str("cd"), Box::new(pos), Box::new(Exp::Null)));
        } else if is_env_name(name) {
            stack.push(Exp::Op(String::from_str(name)));
        } else if is_lookup_name(name) {
            let arg = stack.pop();
            stack.push(Exp::Op1(String::from_str(name), Box::new(arg)));
        } else {
            stack.apply_op(name);
        }
    }

    /// The line for an opcode that ends execution.
    fn handle_return_or_revert(&self, stack: &mut Stack, opcode: &str) -> (r: Exp)
        ensures
            r@ == halt_line(old(stack)@, opcode@),
            final(stack)@ == rest(rest(old(stack)@)),
    {
        let size = stack.pop();
        let offset = stack.pop();
        if let Exp::Int(0) = &size {
            Exp::Op(String::from_str(opcode))
        } else {
            Exp::Op2(String::from_str(opcode), Box::new(offset), Box::new(size))
        }
    }

    /// The trace line that records the stack after an ordinary opcode.
    fn stack_to_trace(&self, _stack: &Stack) -> (r: Exp)
        ensures
            r@ == ExpV::Null,
    {
        Exp::Null
    }

    /// Links a node to where its last line jumps; no link is recorded yet.
    fn process_jump(&self, node: &mut Node, _last: &Exp)
        ensures
            *final(node) == *old(node),
    {
    }

    /// Builds a trace from a node; nothing is added yet.
    fn make_trace_recursive(&self, trace: &mut Trace, _node: &Node)
        ensures
            final(trace)@ == old(trace)@,
    {
    }
}

/// Decompiles hexadecimal bytecode to a trace.
pub fn decompile(bytecode: &str) -> (r: Result<Trace, String>)
    requires
        !(decode_hex(bytecode) is Uncuttable),
    ensures
        match decode_hex(bytecode) {
            HexDecode::Bytes(bin) => r matches Ok(t) && evs(t@) == run_spec(
                code_map(disasm_from(bin, 0)),
                0,
                Seq::empty(),
            ),
            HexDecode::BadDigit(i) => r matches Err(msg) && msg@
                == crate::loader::invalid_hex_message(i),
            HexDecode::Uncuttable => false,
        },
{
    let bc = match Bytecode::load(bytecode) {
        Ok(bc) => bc,
        Err(msg) => return Err(msg),
    };
    proof {
        if let HexDecode::Bytes(bin) = decode_hex(bytecode) {
            lemma_code_of_disassembly(bc.ops@, disasm_from(bin, 0));
        }
    }
    let mut vm = VM::new(bc);
    let empty: Vec<Exp> = Vec::new();
    assert(evs(empty@) =~= Seq::<ExpV>::empty()) by {
        lemma_evs(empty@);
    }
    let trace = vm.run_from(0, empty, None);
    Ok(trace)
}

} // verus!
