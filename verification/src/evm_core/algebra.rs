//! Algebraic operations for symbolic execution

use vstd::prelude::*;
use crate::evm_core::types::{Exp, ExpV, ev, copy_exp};
use crate::text::str_eq;

verus! {

/// Symbolic addition: constants fold with wrap-around, zero is neutral.
pub open spec fn add_spec(a: ExpV, b: ExpV) -> ExpV {
    if let (ExpV::Int(na), ExpV::Int(nb)) = (a, b) {
        ExpV::Int(na.wrapping_add(nb))
    } else if a == ExpV::Int(0) {
        b
    } else if b == ExpV::Int(0) {
        a
    } else {
        ExpV::op2("add"@, a, b)
    }
}

/// Symbolic multiplication: constants fold with wrap-around, zero absorbs, one is neutral.
pub open spec fn mul_spec(a: ExpV, b: ExpV) -> ExpV {
    if let (ExpV::Int(na), ExpV::Int(nb)) = (a, b) {
        ExpV::Int(na.wrapping_mul(nb))
    } else if a == ExpV::Int(0) || b == ExpV::Int(0) {
        ExpV::Int(0)
    } else if a == ExpV::Int(1) {
        b
    } else if b == ExpV::Int(1) {
        a
    } else {
        ExpV::op2("mul"@, a, b)
    }
}

/// Symbolic subtraction: constants fold with wrap-around, subtracting zero is neutral.
pub open spec fn sub_spec(a: ExpV, b: ExpV) -> ExpV {
    if let (ExpV::Int(na), ExpV::Int(nb)) = (a, b) {
        ExpV::Int(na.wrapping_sub(nb))
    } else if b == ExpV::Int(0) {
        a
    } else {
        ExpV::op2("sub"@, a, b)
    }
}

/// Symbolic division: constants fold, division by zero gives zero.
pub open spec fn div_spec(a: ExpV, b: ExpV) -> ExpV {
    if let (ExpV::Int(na), ExpV::Int(nb)) = (a, b) {
        if nb == 0 {
            ExpV::Int(0)
        } else {
            ExpV::Int(na / nb)
        }
    } else {
        ExpV::op2("div"@, a, b)
    }
}

/// Symbolic modulo: constants fold, modulo zero gives zero.
pub open spec fn mod_spec(a: ExpV, b: ExpV) -> ExpV {
    if let (ExpV::Int(na), ExpV::Int(nb)) = (a, b) {
        if nb == 0 {
            ExpV::Int(0)
        } else {
            ExpV::Int(na % nb)
        }
    } else {
        ExpV::op2("mod"@, a, b)
    }
}

/// Symbolic bitwise and: constants fold, zero absorbs, all ones is neutral.
pub open spec fn and_spec(a: ExpV, b: ExpV) -> ExpV {
    if let (ExpV::Int(na), ExpV::Int(nb)) = (a, b) {
        ExpV::Int(na & nb)
    } else if a == ExpV::Int(0) {
        a
    } else if b == ExpV::Int(0) {
        b
    } else if a == ExpV::Int(u128::MAX) {
        b
    } else if b == ExpV::Int(u128::MAX) {
        a
    } else {
        ExpV::op2("and"@, a, b)
    }
}

/// Symbolic bitwise or: constants fold, zero is neutral.
pub open spec fn or_spec(a: ExpV, b: ExpV) -> ExpV {
    if let (ExpV::Int(na), ExpV::Int(nb)) = (a, b) {
        ExpV::Int(na | nb)
    } else if a == ExpV::Int(0) {
        b
    } else if b == ExpV::Int(0) {
        a
    } else {
        ExpV::op2("or"@, a, b)
    }
}

/// Symbolic bitwise xor: constants fold, zero is neutral.
pub open spec fn xor_spec(a: ExpV, b: ExpV) -> ExpV {
    if let (ExpV::Int(na), ExpV::Int(nb)) = (a, b) {
        ExpV::Int(na ^ nb)
    } else if a == ExpV::Int(0) {
        b
    } else if b == ExpV::Int(0) {
        a
    } else {
        ExpV::op2("xor"@, a, b)
    }
}

/// Mask and shift: the identity mask leaves the value alone.
pub open spec fn mask_spec(val: ExpV, size: u64, offset: u64, shl: u64, shr: u64) -> ExpV {
    if size == 256 && offset == 0 && shl == 0 && shr == 0 {
        val
    } else {
        ExpV::Op4(
            "mask_shl"@,
            Box::new(ExpV::Int(size as u128)),
            Box::new(ExpV::Int(offset as u128)),
            Box::new(ExpV::Int(shl as u128)),
            Box::new(val),
        )
    }
}

/// Algebraic simplification of sums, products and differences, bottom-up.
pub open spec fn simplify_spec(e: ExpV) -> ExpV
    decreases e,
{
    match e {
        ExpV::Op2(op, a, b) => if op == "add"@ {
            add_spec(simplify_spec(*a), simplify_spec(*b))
        } else if op == "mul"@ {
            mul_spec(simplify_spec(*a), simplify_spec(*b))
        } else if op == "sub"@ {
            sub_spec(simplify_spec(*a), simplify_spec(*b))
        } else {
            e
        },
        _ => e,
    }
}

/// The value of an expression built from constants and variables with
/// `add`, `mul`, `sub`, `div`, `mod`, `and`, `or` and `xor`, given the values
/// `env` of the variables, computed on 128-bit words: sums, products and
/// differences wrap around, division and remainder by zero give zero, and
/// the bitwise operators act bit by bit. None for other expressions.
pub open spec fn value_of(e: ExpV, env: spec_fn(Seq<char>) -> u128) -> Option<u128>
    decreases e,
{
    match e {
        ExpV::Int(n) => Some(n),
        ExpV::Var(x) => Some(env(x)),
        ExpV::Op2(op, a, b) => match (value_of(*a, env), value_of(*b, env)) {
            (Some(x), Some(y)) => if op == "add"@ {
                Some(((x + y) % (u128::MAX as int + 1)) as u128)
            } else if op == "mul"@ {
                Some(((x * y) % (u128::MAX as int + 1)) as u128)
            } else if op == "sub"@ {
                Some(((x - y + (u128::MAX as int + 1)) % (u128::MAX as int + 1)) as u128)
            } else if op == "div"@ {
                Some(if y == 0 { 0 } else { x / y })
            } else if op == "mod"@ {
                Some(if y == 0 { 0 } else { x % y })
            } else if op == "and"@ {
                Some(x & y)
            } else if op == "or"@ {
                Some(x | y)
            } else if op == "xor"@ {
                Some(x ^ y)
            } else {
                None
            },
            _ => None,
        },
        _ => None,
    }
}

pub(crate) proof fn lemma_op_names_differ()
    ensures
        "add"@ != "mul"@,
        "add"@ != "sub"@,
        "add"@ != "div"@,
        "add"@ != "mod"@,
        "add"@ != "and"@,
        "add"@ != "or"@,
        "add"@ != "xor"@,
        "mul"@ != "sub"@,
        "mul"@ != "div"@,
        "mul"@ != "mod"@,
        "mul"@ != "and"@,
        "mul"@ != "or"@,
        "mul"@ != "xor"@,
        "sub"@ != "div"@,
        "sub"@ != "mod"@,
        "sub"@ != "and"@,
        "sub"@ != "or"@,
        "sub"@ != "xor"@,
        "div"@ != "mod"@,
        "div"@ != "and"@,
        "div"@ != "or"@,
        "div"@ != "xor"@,
        "mod"@ != "and"@,
        "mod"@ != "or"@,
        "mod"@ != "xor"@,
        "and"@ != "or"@,
        "and"@ != "xor"@,
        "or"@ != "xor"@,
{
    reveal_strlit("add");
    reveal_strlit("mul");
    reveal_strlit("sub");
    reveal_strlit("div");
    reveal_strlit("mod");
    reveal_strlit("and");
    reveal_strlit("or");
    reveal_strlit("xor");
    assert("add"@[0] != "mul"@[0]);
    assert("add"@[0] != "sub"@[0]);
    assert("add"@[0] != "div"@[0]);
    assert("add"@[0] != "mod"@[0]);
    assert("add"@[1] != "and"@[1]);
    assert("add"@.len() != "or"@.len());
    assert("add"@[0] != "xor"@[0]);
    assert("mul"@[0] != "sub"@[0]);
    assert("mul"@[0] != "div"@[0]);
    assert("mul"@[1] != "mod"@[1]);
    assert("mul"@[0] != "and"@[0]);
    assert("mul"@.len() != "or"@.len());
    assert("mul"@[0] != "xor"@[0]);
    assert("sub"@[0] != "div"@[0]);
    assert("sub"@[0] != "mod"@[0]);
    assert("sub"@[0] != "and"@[0]);
    assert("sub"@.len() != "or"@.len());
    assert("sub"@[0] != "xor"@[0]);
    assert("div"@[0] != "mod"@[0]);
    assert("div"@[0] != "and"@[0]);
    assert("div"@.len() != "or"@.len());
    assert("div"@[0] != "xor"@[0]);
    assert("mod"@[0] != "and"@[0]);
    assert("mod"@.len() != "or"@.len());
    assert("mod"@[0] != "xor"@[0]);
    assert("and"@.len() != "or"@.len());
    assert("and"@[0] != "xor"@[0]);
    assert("or"@.len() != "xor"@.len());
}

/// Each symbolic operation keeps the value of the operation it stands for,
/// whatever the values of the variables: the result evaluates to the
/// operator applied to the operands' values.
pub proof fn lemma_ops_keep_value(a: ExpV, b: ExpV, env: spec_fn(Seq<char>) -> u128)
    requires
        value_of(a, env) is Some,
        value_of(b, env) is Some,
    ensures
        value_of(add_spec(a, b), env) == value_of(ExpV::op2("add"@, a, b), env),
        value_of(mul_spec(a, b), env) == value_of(ExpV::op2("mul"@, a, b), env),
        value_of(sub_spec(a, b), env) == value_of(ExpV::op2("sub"@, a, b), env),
        value_of(div_spec(a, b), env) == value_of(ExpV::op2("div"@, a, b), env),
        value_of(mod_spec(a, b), env) == value_of(ExpV::op2("mod"@, a, b), env),
        value_of(and_spec(a, b), env) == value_of(ExpV::op2("and"@, a, b), env),
        value_of(or_spec(a, b), env) == value_of(ExpV::op2("or"@, a, b), env),
        value_of(xor_spec(a, b), env) == value_of(ExpV::op2("xor"@, a, b), env),
{
    lemma_op_names_differ();
    let x = value_of(a, env)->0;
    let y = value_of(b, env)->0;
    assert(x & 0 == 0 && 0 & y == 0 && x & u128::MAX == x && u128::MAX & y == y) by (bit_vector);
    assert(x | 0 == x && 0 | y == y) by (bit_vector);
    assert(x ^ 0 == x && 0 ^ y == y) by (bit_vector);
    assert(x * 1 == x && 1 * y == y && x * 0 == 0 && 0 * y == 0);
    if let (ExpV::Int(na), ExpV::Int(nb)) = (a, b) {
        assert(na.wrapping_add(nb) == ((na + nb) % (u128::MAX as int + 1)) as u128);
        assert(na.wrapping_sub(nb) == ((na - nb + (u128::MAX as int + 1)) % (u128::MAX as int + 1)) as u128);
        assert(na.wrapping_mul(nb) == ((na * nb) % (u128::MAX as int + 1)) as u128);
    }
}

/// Simplification keeps the value of an expression, whatever the values of
/// its variables.
pub proof fn lemma_simplify_keeps_value(e: ExpV, env: spec_fn(Seq<char>) -> u128)
    requires
        value_of(e, env) is Some,
    ensures
        value_of(simplify_spec(e), env) == value_of(e, env),
    decreases e,
{
    lemma_op_names_differ();
    if let ExpV::Op2(op, a, b) = e {
        if op == "add"@ || op == "mul"@ || op == "sub"@ {
            lemma_simplify_keeps_value(*a, env);
            lemma_simplify_keeps_value(*b, env);
            lemma_ops_keep_value(simplify_spec(*a), simplify_spec(*b), env);
        }
    }
}

/// Folding constants with `and`, `or` and `xor` works bit by bit: a bit of
/// the result is set exactly when it is set in both operands, in either,
/// and in exactly one of them.
pub proof fn lemma_bitwise_folding(x: u128, y: u128, i: u128)
    requires
        i < 128,
    ensures
        and_spec(ExpV::Int(x), ExpV::Int(y)) matches ExpV::Int(z) && ((z >> i) & 1 == 1) == ((x >> i)
            & 1 == 1 && (y >> i) & 1 == 1),
        or_spec(ExpV::Int(x), ExpV::Int(y)) matches ExpV::Int(z) && ((z >> i) & 1 == 1) == ((x >> i)
            & 1 == 1 || (y >> i) & 1 == 1),
        xor_spec(ExpV::Int(x), ExpV::Int(y)) matches ExpV::Int(z) && ((z >> i) & 1 == 1) == (((x >> i)
            & 1 == 1) != ((y >> i) & 1 == 1)),
{
    assert((((x & y) >> i) & 1 == 1) == ((x >> i) & 1 == 1 && (y >> i) & 1 == 1)) by (bit_vector)
        requires
            i < 128,
    ;
    assert((((x | y) >> i) & 1 == 1) == ((x >> i) & 1 == 1 || (y >> i) & 1 == 1)) by (bit_vector)
        requires
            i < 128,
    ;
    assert((((x ^ y) >> i) & 1 == 1) == (((x >> i) & 1 == 1) != ((y >> i) & 1 == 1))) by (bit_vector)
        requires
            i < 128,
    ;
}

/// The value of an expression built from constants with `add`, `mul` and
/// `sub`, computed with wrap-around; none for other expressions.
pub open spec fn const_value(e: ExpV) -> Option<u128>
    decreases e,
{
    match e {
        ExpV::Int(n) => Some(n),
        ExpV::Op2(op, a, b) => match (const_value(*a), const_value(*b)) {
            (Some(x), Some(y)) => if op == "add"@ {
                Some(x.wrapping_add(y))
            } else if op == "mul"@ {
                Some(x.wrapping_mul(y))
            } else if op == "sub"@ {
                Some(x.wrapping_sub(y))
            } else {
                None
            },
            _ => None,
        },
        _ => None,
    }
}

/// Simplification folds arithmetic on constants to its value.
pub proof fn lemma_simplify_computes_constants(e: ExpV)
    requires
        const_value(e) is Some,
    ensures
        simplify_spec(e) == ExpV::Int(const_value(e)->0),
    decreases e,
{
    if let ExpV::Op2(op, a, b) = e {
        lemma_simplify_computes_constants(*a);
        lemma_simplify_computes_constants(*b);
    }
}

/// Simplifying a simplified expression changes nothing.
pub proof fn lemma_simplify_idempotent(e: ExpV)
    ensures
        simplify_spec(simplify_spec(e)) == simplify_spec(e),
    decreases e,
{
    reveal_strlit("add");
    reveal_strlit("mul");
    reveal_strlit("sub");
    assert("add"@ != "mul"@) by {
        assert("add"@[0] != "mul"@[0]);
    }
    assert("add"@ != "sub"@) by {
        assert("add"@[0] != "sub"@[0]);
    }
    assert("mul"@ != "sub"@) by {
        assert("mul"@[0] != "sub"@[0]);
    }
    if let ExpV::Op2(op, a, b) = e {
        lemma_simplify_idempotent(*a);
        lemma_simplify_idempotent(*b);
    }
}

fn is_int(e: &Exp, n: u128) -> (r: bool)
    ensures
        r == (e@ == ExpV::Int(n)),
{
    match e {
        Exp::Int(m) => *m == n,
        _ => false,
    }
}

fn op2(op: &str, a: Exp, b: Exp) -> (r: Exp)
    ensures
        r@ == ExpV::op2(op@, a@, b@),
{
    Exp::Op2(String::from_str(op), Box::new(a), Box::new(b))
}

/// Symbolic addition
pub fn add_op(a: Exp, b: Exp) -> (r: Exp)
    ensures
        r@ == add_spec(a@, b@),
{
    if let (Exp::Int(na), Exp::Int(nb)) = (&a, &b) {
        return Exp::Int(na.wrapping_add(*nb));
    }
    if is_int(&a, 0) {
        return b;
    }
    if is_int(&b, 0) {
        return a;
    }
    op2("add", a, b)
}

/// Symbolic multiplication
pub fn mul_op(a: Exp, b: Exp) -> (r: Exp)
    ensures
        r@ == mul_spec(a@, b@),
{
    if let (Exp::Int(na), Exp::Int(nb)) = (&a, &b) {
        return Exp::Int(na.wrapping_mul(*nb));
    }
    if is_int(&a, 0) {
        return Exp::Int(0);
    }
    if is_int(&b, 0) {
        return Exp::Int(0);
    }
    if is_int(&a, 1) {
        return b;
    }
    if is_int(&b, 1) {
        return a;
    }
    op2("mul", a, b)
}

/// Symbolic subtraction
pub fn sub_op(a: Exp, b: Exp) -> (r: Exp)
    ensures
        r@ == sub_spec(a@, b@),
{
    if let (Exp::Int(na), Exp::Int(nb)) = (&a, &b) {
        return Exp::Int(na.wrapping_sub(*nb));
    }
    if is_int(&b, 0) {
        return a;
    }
    op2("sub", a, b)
}

/// Symbolic division
pub fn div_op(a: Exp, b: Exp) -> (r: Exp)
    ensures
        r@ == div_spec(a@, b@),
{
    if let (Exp::Int(na), Exp::Int(nb)) = (&a, &b) {
        if *nb == 0 {
            return Exp::Int(0);
        }
        return Exp::Int(na / nb);
    }
    op2("div", a, b)
}

/// Symbolic modulo
pub fn mod_op(a: Exp, b: Exp) -> (r: Exp)
    ensures
        r@ == mod_spec(a@, b@),
{
    if let (Exp::Int(na), Exp::Int(nb)) = (&a, &b) {
        if *nb == 0 {
            return Exp::Int(0);
        }
        return Exp::Int(na % nb);
    }
    op2("mod", a, b)
}

/// Symbolic AND
pub fn and_op(a: Exp, b: Exp) -> (r: Exp)
    ensures
        r@ == and_spec(a@, b@),
{
    if let (Exp::Int(na), Exp::Int(nb)) = (&a, &b) {
        return Exp::Int(*na & *nb);
    }
    if is_int(&a, 0) {
        return a;
    }
    if is_int(&b, 0) {
        return b;
    }
    if is_int(&a, u128::MAX) {
        return b;
    }
    if is_int(&b, u128::MAX) {
        return a;
    }
    op2("and", a, b)
}

/// Symbolic OR
pub fn or_op(a: Exp, b: Exp) -> (r: Exp)
    ensures
        r@ == or_spec(a@, b@),
{
    if let (Exp::Int(na), Exp::Int(nb)) = (&a, &b) {
        return Exp::Int(*na | *nb);
    }
    if is_int(&a, 0) {
        return b;
    }
    if is_int(&b, 0) {
        return a;
    }
    op2("or", a, b)
}

/// Symbolic XOR
pub fn xor_op(a: Exp, b: Exp) -> (r: Exp)
    ensures
        r@ == xor_spec(a@, b@),
{
    if let (Exp::Int(na), Exp::Int(nb)) = (&a, &b) {
        return Exp::Int(*na ^ *nb);
    }
    if is_int(&a, 0) {
        return b;
    }
    if is_int(&b, 0) {
        return a;
    }
    op2("xor", a, b)
}

/// Mask and shift operation
pub fn mask_op(val: Exp, size: u64, offset: u64, shl: u64, shr: u64) -> (r: Exp)
    ensures
        r@ == mask_spec(val@, size, offset, shl, shr),
{
    if size == 256 && offset == 0 && shl == 0 && shr == 0 {
        return val;
    }
    let r = Exp::Op4(
        String::from_str("mask_shl"),
        Box::new(Exp::Int(size as u128)),
        Box::new(Exp::Int(offset as u128)),
        Box::new(Exp::Int(shl as u128)),
        Box::new(val),
    );
    proof {
        reveal_with_fuel(ev, 2);
    }
    r
}

/// The exponent `k` of a constant that is the power of two `2^k`.
pub fn to_exp2(exp: &Exp) -> (r: Option<u32>)
    ensures
        match r {
            Some(k) => k < 128 && exp@ == ExpV::Int(1u128 << k),
            None => forall|k: u32| k < 128 ==> exp@ != ExpV::Int(#[trigger] (1u128 << k)),
        },
{
    if let Exp::Int(n) = exp {
        let mut k: u32 = 0;
        while k < 128
            invariant
                k <= 128,
                exp@ == ExpV::Int(*n),
                forall|j: u32| j < k ==> *n != #[trigger] (1u128 << j),
            decreases 128 - k,
        {
            if *n == 1u128 << k {
                return Some(k);
            }
            k += 1;
        }
        return None;
    }
    None
}

/// Simplify expression algebraically
pub fn simplify(exp: &Exp) -> (r: Exp)
    ensures
        r@ == simplify_spec(exp@),
    decreases exp,
{
    match exp {
        Exp::Op2(op, a, b) => {
            if str_eq(op.as_str(), "add") {
                let a = simplify(a);
                let b = simplify(b);
                add_op(a, b)
            } else if str_eq(op.as_str(), "mul") {
                let a = simplify(a);
                let b = simplify(b);
                mul_op(a, b)
            } else if str_eq(op.as_str(), "sub") {
                let a = simplify(a);
                let b = simplify(b);
                sub_op(a, b)
            } else {
                copy_exp(exp)
            }
        },
        _ => copy_exp(exp),
    }
}

} // verus!
