//! Symbolic stack for EVM execution

use vstd::prelude::*;
use crate::evm_core::types::{Exp, ExpV, ev, evs, lemma_evs, copy_exp};
use crate::evm_core::algebra::{
    add_op, mul_op, sub_op, div_op, mod_op, and_op, or_op, xor_op,
    add_spec, mul_spec, sub_spec, div_spec, mod_spec, and_spec, or_spec, xor_spec, value_of,
    lemma_ops_keep_value, lemma_op_names_differ,
};
use crate::text::{str_eq, join_spec, join_strings};
use crate::prettify::display;
use vstd::std_specs::iter::IteratorSpec;

verus! {

/// The top of a stack: its last element, or the empty expression.
pub open spec fn top(s: Seq<ExpV>) -> ExpV {
    if s.len() == 0 {
        ExpV::Null
    } else {
        s.last()
    }
}

/// A stack without its top element.
pub open spec fn rest(s: Seq<ExpV>) -> Seq<ExpV> {
    if s.len() == 0 {
        s
    } else {
        s.drop_last()
    }
}

/// Shifts a constant as Rust does for a 128-bit value in a release build:
/// the shift amount is taken modulo 128.
pub open spec fn shl_const(v: u128, s: u128) -> u128 {
    v << ((s % 128) as u128)
}

pub open spec fn shr_const(v: u128, s: u128) -> u128 {
    v >> ((s % 128) as u128)
}

/// The stack with a copy of its `idx`-th element from the top (1 is the
/// top) pushed; unchanged when there is no such element.
pub open spec fn dup_spec(s: Seq<ExpV>, idx: int) -> Seq<ExpV> {
    if 0 < idx <= s.len() {
        s.push(s[s.len() - idx])
    } else {
        s
    }
}

/// The stack with its top exchanged with the element `idx` below it;
/// unchanged when there is no such element.
pub open spec fn swap_spec(s: Seq<ExpV>, idx: int) -> Seq<ExpV> {
    if 0 < idx < s.len() {
        s.update(s.len() - 1, s[s.len() - 1 - idx]).update(s.len() - 1 - idx, s[s.len() - 1])
    } else {
        s
    }
}

/// Popping what was just pushed gives it back and leaves the stack as it was.
pub proof fn lemma_pop_undoes_push(s: Seq<ExpV>, e: ExpV)
    ensures
        top(s.push(e)) == e,
        rest(s.push(e)) == s,
{
    assert(s.push(e).drop_last() =~= s);
}

/// Popping after a `dup` gives the copied element and leaves the stack as it was.
pub proof fn lemma_pop_undoes_dup(s: Seq<ExpV>, idx: int)
    requires
        0 < idx <= s.len(),
    ensures
        top(dup_spec(s, idx)) == s[s.len() - idx],
        rest(dup_spec(s, idx)) == s,
{
    assert(s.push(s[s.len() - idx]).drop_last() =~= s);
}

/// Swapping twice with the same index gives the stack back; a swap keeps
/// the stack's length.
pub proof fn lemma_swap_twice(s: Seq<ExpV>, idx: int)
    ensures
        swap_spec(s, idx).len() == s.len(),
        swap_spec(swap_spec(s, idx), idx) == s,
{
    assert(swap_spec(swap_spec(s, idx), idx) =~= s);
}

/// A binary stack operation: pops `b`, then `a`, and pushes `f(a, b)`.
pub open spec fn binary(s: Seq<ExpV>, r: ExpV) -> Seq<ExpV> {
    rest(rest(s)).push(r)
}

/// The stack after applying an opcode to it, as the EVM does: `b` is the
/// top and the first operand, `a` the item below it (`sub` gives `b - a`,
/// `lt` gives `b < a`).
pub open spec fn apply_op_spec(s: Seq<ExpV>, opcode: Seq<char>) -> Seq<ExpV> {
    let b = top(s);
    let a = top(rest(s));
    if opcode == "add"@ {
        binary(s, add_spec(a, b))
    } else if opcode == "mul"@ {
        binary(s, mul_spec(a, b))
    } else if opcode == "sub"@ {
        binary(s, sub_spec(b, a))
    } else if opcode == "div"@ {
        binary(s, div_spec(b, a))
    } else if opcode == "mod"@ {
        binary(s, mod_spec(b, a))
    } else if opcode == "and"@ {
        binary(s, and_spec(a, b))
    } else if opcode == "or"@ {
        binary(s, or_spec(a, b))
    } else if opcode == "xor"@ {
        binary(s, xor_spec(a, b))
    } else if opcode == "eq"@ {
        binary(s, ExpV::op2("eq"@, a, b))
    } else if opcode == "lt"@ {
        binary(s, ExpV::op2("lt"@, b, a))
    } else if opcode == "iszero"@ {
        rest(s).push(ExpV::op1("iszero"@, b))
    } else if opcode == "not"@ {
        rest(s).push(ExpV::op1("not"@, b))
    } else if opcode == "shl"@ {
        binary(
            s,
            match (b, a) {
                (ExpV::Int(sh), ExpV::Int(v)) => ExpV::Int(shl_const(v, sh)),
                _ => ExpV::op2("shl"@, a, b),
            },
        )
    } else if opcode == "shr"@ {
        binary(
            s,
            match (b, a) {
                (ExpV::Int(sh), ExpV::Int(v)) => ExpV::Int(shr_const(v, sh)),
                _ => ExpV::op2("shr"@, a, b),
            },
        )
    } else if opcode == "sar"@ {
        binary(s, ExpV::op2("sar"@, a, b))
    } else if opcode == "byte"@ {
        binary(s, ExpV::op2("byte"@, b, a))
    } else if opcode == "signextend"@ {
        binary(s, ExpV::op2("signextend"@, b, a))
    } else {
        s.push(ExpV::Op(opcode))
    }
}

/// An arithmetic or bitwise opcode replaces the two top items by one whose
/// value, whatever the values of the variables, is the EVM's result: the
/// operator applied to the top item `y` and the item `x` below it, in that
/// order (`sub` gives `y - x`, `div` gives `y / x`).
pub proof fn lemma_binary_opcodes_compute(
    s: Seq<ExpV>,
    x: ExpV,
    y: ExpV,
    env: spec_fn(Seq<char>) -> u128,
)
    requires
        value_of(x, env) is Some,
        value_of(y, env) is Some,
    ensures
        forall|op: Seq<char>|
            #![trigger apply_op_spec(s.push(x).push(y), op)]
            op == "add"@ || op == "mul"@ || op == "sub"@ || op == "div"@ || op == "mod"@ || op == "and"@
                || op == "or"@ || op == "xor"@ ==> rest(apply_op_spec(s.push(x).push(y), op)) == s
                && value_of(top(apply_op_spec(s.push(x).push(y), op)), env) == value_of(
                ExpV::op2(op, y, x),
                env,
            ),
{
    lemma_op_names_differ();
    lemma_ops_keep_value(y, x, env);
    lemma_ops_keep_value(x, y, env);
    let st = s.push(x).push(y);
    assert(top(st) == y);
    assert(rest(st) =~= s.push(x));
    assert(top(rest(st)) == x);
    assert(rest(rest(st)) =~= s);
    let vx = value_of(x, env)->0;
    let vy = value_of(y, env)->0;
    assert(vx * vy == vy * vx) by (nonlinear_arith);
    assert(vx & vy == vy & vx && vx | vy == vy | vx && vx ^ vy == vy ^ vx) by (bit_vector);
    assert forall|op: Seq<char>|
        op == "add"@ || op == "mul"@ || op == "sub"@ || op == "div"@ || op == "mod"@ || op == "and"@
            || op == "or"@ || op == "xor"@ implies #[trigger] rest(apply_op_spec(st, op)) == s
        && value_of(top(apply_op_spec(st, op)), env) == value_of(ExpV::op2(op, y, x), env) by {
        assert(rest(binary(st, ExpV::Null)) =~= s);
        if op == "add"@ {
            assert(apply_op_spec(st, op) == binary(st, add_spec(x, y)));
        } else if op == "mul"@ {
            assert(apply_op_spec(st, op) == binary(st, mul_spec(x, y)));
        } else if op == "sub"@ {
            assert(apply_op_spec(st, op) == binary(st, sub_spec(y, x)));
        } else if op == "div"@ {
            assert(apply_op_spec(st, op) == binary(st, div_spec(y, x)));
        } else if op == "mod"@ {
            assert(apply_op_spec(st, op) == binary(st, mod_spec(y, x)));
        } else if op == "and"@ {
            assert(apply_op_spec(st, op) == binary(st, and_spec(x, y)));
        } else if op == "or"@ {
            assert(apply_op_spec(st, op) == binary(st, or_spec(x, y)));
        } else {
            assert(apply_op_spec(st, op) == binary(st, xor_spec(x, y)));
        }
    }
}

/// A stack of symbolic expressions
#[derive(Debug)]
pub struct Stack {
    items: Vec<Exp>,
}

impl View for Stack {
    type V = Seq<ExpV>;

    closed spec fn view(&self) -> Seq<ExpV> {
        evs(self.items@)
    }
}

impl Clone for Stack {
    fn clone(&self) -> (r: Self)
        ensures
            r@ == self@,
    {
        Stack { items: crate::evm_core::types::copy_exps(&self.items) }
    }
}

impl Default for Stack {
    fn default() -> (r: Self)
        ensures
            r@ == Seq::<ExpV>::empty(),
    {
        Self::new()
    }
}

impl Stack {
    pub fn new() -> (r: Self)
        ensures
            r@ == Seq::<ExpV>::empty(),
    {
        proof {
            lemma_evs(Seq::<Exp>::empty());
        }
        let r = Self { items: Vec::new() };
        assert(r@ =~= Seq::<ExpV>::empty());
        r
    }

    pub fn with_items(items: Vec<Exp>) -> (r: Self)
        ensures
            r@ == evs(items@),
    {
        Self { items }
    }

    pub fn push(&mut self, exp: Exp)
        ensures
            final(self)@ == old(self)@.push(exp@),
    {
        let ghost old_items = self.items@;
        self.items.push(exp);
        proof {
            lemma_evs(old_items);
            lemma_evs(self.items@);
        }
        assert(self@ =~= old(self)@.push(exp@));
    }

    /// Removes and returns the top; an empty stack gives the empty expression.
    pub fn pop(&mut self) -> (r: Exp)
        ensures
            r@ == top(old(self)@),
            final(self)@ == rest(old(self)@),
    {
        let ghost old_items = self.items@;
        proof {
            lemma_evs(old_items);
        }
        match self.items.pop() {
            Some(e) => {
                proof {
                    lemma_evs(self.items@);
                }
                assert(self@ =~= rest(old(self)@));
                e
            },
            None => Exp::Null,
        }
    }

    /// Pushes a copy of the `idx`-th element from the top (1 is the top).
    pub fn dup(&mut self, idx: usize)
        ensures
            final(self)@ == dup_spec(old(self)@, idx as int),
    {
        proof {
            lemma_evs(self.items@);
        }
        if idx > 0 && idx <= self.items.len() {
            let item = copy_exp(&self.items[self.items.len() - idx]);
            self.push(item);
        }
    }

    /// Exchanges the top with the element `idx` below it.
    pub fn swap(&mut self, idx: usize)
        ensures
            final(self)@ == swap_spec(old(self)@, idx as int),
    {
        proof {
            lemma_evs(self.items@);
        }
        if idx > 0 && idx < self.items.len() {
            let len = self.items.len();
            let ghost old_items = self.items@;
            let x = copy_exp(&self.items[len - 1]);
            let y = copy_exp(&self.items[len - 1 - idx]);
            self.items.set(len - 1, y);
            self.items.set(len - 1 - idx, x);
            proof {
                lemma_evs(self.items@);
            }
            assert(self@ =~= evs(old_items).update(len - 1, evs(old_items)[len - 1 - idx]).update(
                len - 1 - idx,
                evs(old_items)[len - 1],
            ));
        }
    }

    /// The stack as `[a, b, c]`, bottom first, each item in plain notation.
    pub fn to_string(&self) -> (r: String)
        ensures
            r@ == "["@ + join_spec(self@.map_values(|e: ExpV| display(e)), ", "@) + "]"@,
    {
        proof {
            lemma_evs(self.items@);
        }
        let ghost shown = self@.map_values(|e: ExpV| display(e));
        let mut parts: Vec<String> = Vec::new();
        let mut i: usize = 0;
        while i < self.items.len()
            invariant
                i <= self.items@.len(),
                self@ == evs(self.items@),
                self@.len() == self.items@.len(),
                shown == self@.map_values(|e: ExpV| display(e)),
                parts@.len() == i,
                parts@.map_values(|x: String| x@) == shown.subrange(0, i as int),
            decreases self.items.len() - i,
        {
            proof {
                lemma_evs(self.items@);
            }
            let t = self.items[i].to_string();
            assert(self@[i as int] == self.items@[i as int]@);
            assert(t@ == shown[i as int]);
            let ghost before = parts@;
            parts.push(t);
            let ghost pv = parts@.map_values(|x: String| x@);
            assert forall|k: int| 0 <= k < i + 1 implies #[trigger] pv[k] == shown.subrange(0, i + 1)[k] by {
                if k < i {
                    assert(parts@[k] == before[k]);
                    assert(before.map_values(|x: String| x@)[k] == shown.subrange(0, i as int)[k]);
                }
            }
            assert(pv =~= shown.subrange(0, i + 1));
            i += 1;
        }
        assert(shown.subrange(0, i as int) =~= shown);
        let joined = join_strings(&parts, ", ");
        let mut r = String::from_str("[");
        r.append(joined.as_str());
        r.append("]");
        r
    }

    pub fn len(&self) -> (r: usize)
        ensures
            r == self@.len(),
    {
        proof {
            lemma_evs(self.items@);
        }
        self.items.len()
    }

    pub fn is_empty(&self) -> (r: bool)
        ensures
            r == (self@.len() == 0),
    {
        proof {
            lemma_evs(self.items@);
        }
        self.items.len() == 0
    }

    /// The element at position `idx` from the bottom.
    pub fn get(&self, idx: usize) -> (r: Option<&Exp>)
        ensures
            r is Some <==> idx < self@.len(),
            r matches Some(e) ==> e@ == self@[idx as int],
    {
        proof {
            lemma_evs(self.items@);
        }
        if idx < self.items.len() {
            Some(&self.items[idx])
        } else {
            None
        }
    }

    /// The top element.
    pub fn peek(&self) -> (r: Option<&Exp>)
        ensures
            r is Some <==> self@.len() > 0,
            r matches Some(e) ==> e@ == self@.last(),
    {
        proof {
            lemma_evs(self.items@);
        }
        if self.items.len() > 0 {
            Some(&self.items[self.items.len() - 1])
        } else {
            None
        }
    }

    /// The elements, bottom first.
    pub fn items(&self) -> (r: &[Exp])
        ensures
            evs(r@) == self@,
    {
        self.items.as_slice()
    }

    /// An iterator over the elements, bottom first.
    pub fn iter(&self) -> (r: std::slice::Iter<'_, Exp>)
        ensures
            evs(r.remaining().unref()) == self@,
    {
        proof {
            broadcast use vstd::std_specs::slice::axiom_spec_slice_iter;
        }
        let s = self.items.as_slice();
        let r = s.iter();
        assert(r.remaining().unref() =~= self.items@);
        r
    }

    /// Whether all elements are concrete.
    pub fn all_concrete(&self) -> (r: bool)
        ensures
            r == (forall|i: int| 0 <= i < self@.len() ==> (#[trigger] self@[i]).is_concrete()),
    {
        proof {
            lemma_evs(self.items@);
        }
        let mut i: usize = 0;
        while i < self.items.len()
            invariant
                i <= self.items@.len(),
                evs(self.items@).len() == self.items@.len(),
                forall|k: int| 0 <= k < self.items@.len() ==> #[trigger] evs(self.items@)[k] == ev(self.items@[k]),
                forall|k: int| 0 <= k < i ==> ev(#[trigger] self.items@[k]).is_concrete(),
            decreases self.items.len() - i,
        {
            if !self.items[i].is_concrete() {
                assert(!self@[i as int].is_concrete());
                return false;
            }
            i += 1;
        }
        true
    }

    /// Apply an operation to the stack
    pub fn apply_op(&mut self, opcode: &str)
        ensures
            final(self)@ == apply_op_spec(old(self)@, opcode@),
    {
        if str_eq(opcode, "add") {
            let b = self.pop();
            let a = self.pop();
            self.push(add_op(a, b));
        } else if str_eq(opcode, "mul") {
            let b = self.pop();
            let a = self.pop();
            self.push(mul_op(a, b));
        } else if str_eq(opcode, "sub") {
            let b = self.pop();
            let a = self.pop();
            self.push(sub_op(b, a));
        } else if str_eq(opcode, "div") {
            let b = self.pop();
            let a = self.pop();
            self.push(div_op(b, a));
        } else if str_eq(opcode, "mod") {
            let b = self.pop();
            let a = self.pop();
            self.push(mod_op(b, a));
        } else if str_eq(opcode, "and") {
            let b = self.pop();
            let a = self.pop();
            self.push(and_op(a, b));
        } else if str_eq(opcode, "or") {
            let b = self.pop();
            let a = self.pop();
            self.push(or_op(a, b));
        } else if str_eq(opcode, "xor") {
            let b = self.pop();
            let a = self.pop();
            self.push(xor_op(a, b));
        } else if str_eq(opcode, "eq") {
            let b = self.pop();
            let a = self.pop();
            self.push(Exp::eq(a, b));
        } else if str_eq(opcode, "lt") {
            let b = self.pop();
            let a = self.pop();
            self.push(Exp::lt(b, a));
        } else if str_eq(opcode, "iszero") {
            let a = self.pop();
            self.push(Exp::iszero(a));
        } else if str_eq(opcode, "not") {
            let a = self.pop();
            self.push(Exp::Op1(String::from_str("not"), Box::new(a)));
        } else if str_eq(opcode, "shl") {
            let shift = self.pop();
            let val = self.pop();
            if let Exp::Int(s) = &shift {
                if let Exp::Int(v) = &val {
                    self.push(Exp::Int(*v << (*s % 128)));
                    return;
                }
            }
            self.push(Exp::Op2(String::from_str("shl"), Box::new(val), Box::new(shift)));
        } else if str_eq(opcode, "shr") {
            let shift = self.pop();
            let val = self.pop();
            if let Exp::Int(s) = &shift {
                if let Exp::Int(v) = &val {
                    self.push(Exp::Int(*v >> (*s % 128)));
                    return;
                }
            }
            self.push(Exp::Op2(String::from_str("shr"), Box::new(val), Box::new(shift)));
        } else if str_eq(opcode, "sar") {
            let shift = self.pop();
            let val = self.pop();
            self.push(Exp::Op2(String::from_str("sar"), Box::new(val), Box::new(shift)));
        } else if str_eq(opcode, "byte") {
            let pos = self.pop();
            let val = self.pop();
            self.push(Exp::Op2(String::from_str("byte"), Box::new(pos), Box::new(val)));
        } else if str_eq(opcode, "signextend") {
            let bits = self.pop();
            let val = self.pop();
            self.push(Exp::Op2(String::from_str("signextend"), Box::new(bits), Box::new(val)));
        } else {
            self.push(Exp::Op(String::from_str(opcode)));
        }
    }
}

} // verus!
