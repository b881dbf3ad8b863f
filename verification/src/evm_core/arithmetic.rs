//! Arithmetic operations for symbolic EVM execution

use vstd::prelude::*;
use crate::evm_core::types::{Exp, ExpV, ev, copy_exp};
use crate::text::str_eq;

verus! {

/// Removes double negations `iszero(iszero(x))` from a chain of `iszero`.
pub open spec fn simplify_bool_spec(e: ExpV) -> ExpV
    decreases e,
{
    match e {
        ExpV::Op1(op, a) => if op == "iszero"@ {
            let s = simplify_bool_spec(*a);
            match s {
                ExpV::Op1(op2, a2) => if op2 == "iszero"@ {
                    *a2
                } else {
                    ExpV::op1("iszero"@, s)
                },
                _ => ExpV::op1("iszero"@, s),
            }
        } else {
            e
        },
        _ => e,
    }
}

/// Whether the expression is known to be false: the constant zero, or
/// `iszero` of a non-zero constant.
pub open spec fn is_zero_spec(e: ExpV) -> bool {
    match e {
        ExpV::Int(n) => n == 0,
        ExpV::Op1(op, a) => op == "iszero"@ && (match *a {
            ExpV::Int(n) => n != 0,
            _ => false,
        }),
        _ => false,
    }
}

/// Evaluates an expression: symbolic expressions evaluate to themselves.
pub fn eval(exp: &Exp) -> (r: Exp)
    ensures
        r@ == exp@,
{
    copy_exp(exp)
}

/// Simplifies a boolean expression by removing double negations.
pub fn simplify_bool(exp: &Exp) -> (r: Exp)
    ensures
        r@ == simplify_bool_spec(exp@),
    decreases exp,
{
    match exp {
        Exp::Op1(op, a) => {
            if str_eq(op.as_str(), "iszero") {
                let simplified = simplify_bool(a);
                let double = match &simplified {
                    Exp::Op1(op2, _) => str_eq(op2.as_str(), "iszero"),
                    _ => false,
                };
                if double {
                    match simplified {
                        Exp::Op1(_, a2) => *a2,
                        _ => simplified,
                    }
                } else {
                    Exp::Op1(String::from_str("iszero"), Box::new(simplified))
                }
            } else {
                copy_exp(exp)
            }
        },
        _ => copy_exp(exp),
    }
}

/// Whether the expression is known to be false.
pub fn is_zero(exp: &Exp) -> (r: bool)
    ensures
        r == is_zero_spec(exp@),
{
    proof {
        reveal_with_fuel(ev, 2);
    }
    match exp {
        Exp::Int(n) => *n == 0,
        Exp::Op1(op, a) => {
            if str_eq(op.as_str(), "iszero") {
                match &**a {
                    Exp::Int(n) => *n != 0,
                    _ => false,
                }
            } else {
                false
            }
        },
        _ => false,
    }
}

} // verus!
