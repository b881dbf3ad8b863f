//! Pretty printing for decompiled output
//!
//! Converts IR to human-readable Solidity-like syntax.

use vstd::prelude::*;
use crate::evm_core::types::{Exp, ExpV, ev, evs, lemma_evs, lemma_evs_prefix, lemma_push_prefix};
use crate::text::{str_eq, dec_string, hex_string, dec_chars, hex_chars};

verus! {

/// Color constants for terminal output
pub const COLOR_GREEN: &'static str = "\x1b[32m";

pub const COLOR_END: &'static str = "\x1b[0m";

pub const COLOR_BOLD: &'static str = "\x1b[1m";

pub const COLOR_GRAY: &'static str = "\x1b[90m";

pub const COLOR_RED: &'static str = "\x1b[31m";

pub const COLOR_BLUE: &'static str = "\x1b[34m";

pub const COLOR_YELLOW: &'static str = "\x1b[33m";

pub const COLOR_OKGREEN: &'static str = "\x1b[92m";

pub const COLOR_WARNING: &'static str = "\x1b[93m";

pub const COLOR_HEADER: &'static str = "\x1b[1m\x1b[34m";

/// How an integer constant is shown: large numbers that are not round
/// millions are shown in hexadecimal.
pub open spec fn pretty_int(n: u128) -> Seq<char> {
    if n > 1_000_000 && n % 1_000_000 != 0 {
        "0x"@ + hex_chars(n as nat, false)
    } else {
        dec_chars(n as nat)
    }
}

/// The symbol of a binary operator shown infix, with the operands in order.
pub open spec fn infix_symbol(op: Seq<char>) -> Option<Seq<char>> {
    if op == "add"@ {
        Some(" + "@)
    } else if op == "sub"@ {
        Some(" - "@)
    } else if op == "mul"@ {
        Some(" * "@)
    } else if op == "div"@ {
        Some(" / "@)
    } else if op == "mod"@ {
        Some(" % "@)
    } else if op == "eq"@ {
        Some(" == "@)
    } else if op == "lt"@ {
        Some(" < "@)
    } else if op == "gt"@ {
        Some(" > "@)
    } else if op == "le"@ {
        Some(" <= "@)
    } else if op == "ge"@ {
        Some(" >= "@)
    } else if op == "and"@ {
        Some(" and "@)
    } else if op == "or"@ {
        Some(" or "@)
    } else if op == "xor"@ {
        Some(" xor "@)
    } else {
        None
    }
}

/// The symbol of a binary operator shown infix, with the operands swapped (shifts).
pub open spec fn shift_symbol(op: Seq<char>) -> Option<Seq<char>> {
    if op == "shl"@ {
        Some(" << "@)
    } else if op == "shr"@ {
        Some(" >> "@)
    } else {
        None
    }
}

/// The symbol of a signed or power operator shown infix.
pub open spec fn other_symbol(op: Seq<char>) -> Option<Seq<char>> {
    if op == "exp"@ {
        Some("^"@)
    } else if op == "sadd"@ {
        Some(" +' "@)
    } else if op == "smul"@ {
        Some(" *' "@)
    } else if op == "sdiv"@ {
        Some(" /' "@)
    } else if op == "sgt"@ {
        Some(" >' "@)
    } else if op == "slt"@ {
        Some(" <' "@)
    } else if op == "sge"@ {
        Some(" >=' "@)
    } else if op == "sle"@ {
        Some(" <=' "@)
    } else {
        None
    }
}

/// The text of a binary operation.
pub open spec fn pretty_op2(op: Seq<char>, a: Seq<char>, b: Seq<char>) -> Seq<char> {
    if let Some(sym) = infix_symbol(op) {
        "("@ + a + sym + b + ")"@
    } else if let Some(sym) = shift_symbol(op) {
        "("@ + b + sym + a + ")"@
    } else if let Some(sym) = other_symbol(op) {
        "("@ + a + sym + b + ")"@
    } else {
        "("@ + op + " "@ + a + " "@ + b + ")"@
    }
}

/// The text of a unary operation.
pub open spec fn pretty_op1(op: Seq<char>, a: Seq<char>) -> Seq<char> {
    if op == "not"@ {
        "!"@ + a
    } else if op == "iszero"@ {
        "iszero("@ + a + ")"@
    } else if op == "sha3"@ {
        "sha3("@ + a + ")"@
    } else {
        "("@ + op + " "@ + a + ")"@
    }
}

/// The text of an expression.
pub open spec fn pretty(e: ExpV) -> Seq<char>
    decreases e,
{
    match e {
        ExpV::Var(name) => name,
        ExpV::Int(n) => pretty_int(n),
        ExpV::Str(s) => "\""@ + s + "\""@,
        ExpV::Null => "none"@,
        ExpV::Jd(n) => "jd("@ + dec_chars(n as nat) + ")"@,
        ExpV::Op(op) => "("@ + op + ")"@,
        ExpV::Op1(op, a) => pretty_op1(op, pretty(*a)),
        ExpV::Op2(op, a, b) => pretty_op2(op, pretty(*a), pretty(*b)),
        ExpV::Op3(op, a, b, c) => "("@ + op + " "@ + pretty(*a) + " "@ + pretty(*b) + " "@ + pretty(
            *c,
        ) + ")"@,
        ExpV::Op4(op, a, b, c, d) => "("@ + op + " "@ + pretty(*a) + " "@ + pretty(*b) + " "@
            + pretty(*c) + " "@ + pretty(*d) + ")"@,
        ExpV::OpN(op, args) => if args.len() == 0 {
            "("@ + op + ")"@
        } else {
            "("@ + op + " "@ + pretty_join(args) + ")"@
        },
        ExpV::If(c, t, f) => "(if "@ + pretty(*c) + " ["@ + pretty_join(t) + "] ["@ + pretty_join(f)
            + "])"@,
        ExpV::While(c, b) => "(while "@ + pretty(*c) + " ["@ + pretty_join(b) + "])"@,
        ExpV::Goto(t, _) => "(goto "@ + pretty(*t) + ")"@,
        ExpV::Loop(l, b, _, _) => "(loop "@ + pretty(*l) + " ["@ + pretty_join(b) + "])"@,
        ExpV::Label(t, _) => "(label "@ + pretty(*t) + ")"@,
        ExpV::Continue => "(continue)"@,
        ExpV::Break => "(break)"@,
    }
}

/// Each operator is printed with its own symbol: arithmetic, comparison,
/// bitwise and signed operators between their operands (a shift puts the
/// shifted value first), negation, `iszero` and `sha3` before their operand.
pub proof fn lemma_operator_symbols(a: ExpV, b: ExpV)
    ensures
        pretty(ExpV::op2("add"@, a, b)) == "("@ + pretty(a) + " + "@ + pretty(b) + ")"@,
        pretty(ExpV::op2("sub"@, a, b)) == "("@ + pretty(a) + " - "@ + pretty(b) + ")"@,
        pretty(ExpV::op2("mul"@, a, b)) == "("@ + pretty(a) + " * "@ + pretty(b) + ")"@,
        pretty(ExpV::op2("div"@, a, b)) == "("@ + pretty(a) + " / "@ + pretty(b) + ")"@,
        pretty(ExpV::op2("mod"@, a, b)) == "("@ + pretty(a) + " % "@ + pretty(b) + ")"@,
        pretty(ExpV::op2("eq"@, a, b)) == "("@ + pretty(a) + " == "@ + pretty(b) + ")"@,
        pretty(ExpV::op2("lt"@, a, b)) == "("@ + pretty(a) + " < "@ + pretty(b) + ")"@,
        pretty(ExpV::op2("gt"@, a, b)) == "("@ + pretty(a) + " > "@ + pretty(b) + ")"@,
        pretty(ExpV::op2("le"@, a, b)) == "("@ + pretty(a) + " <= "@ + pretty(b) + ")"@,
        pretty(ExpV::op2("ge"@, a, b)) == "("@ + pretty(a) + " >= "@ + pretty(b) + ")"@,
        pretty(ExpV::op2("and"@, a, b)) == "("@ + pretty(a) + " and "@ + pretty(b) + ")"@,
        pretty(ExpV::op2("or"@, a, b)) == "("@ + pretty(a) + " or "@ + pretty(b) + ")"@,
        pretty(ExpV::op2("xor"@, a, b)) == "("@ + pretty(a) + " xor "@ + pretty(b) + ")"@,
        pretty(ExpV::op2("exp"@, a, b)) == "("@ + pretty(a) + "^"@ + pretty(b) + ")"@,
        pretty(ExpV::op2("sadd"@, a, b)) == "("@ + pretty(a) + " +' "@ + pretty(b) + ")"@,
        pretty(ExpV::op2("smul"@, a, b)) == "("@ + pretty(a) + " *' "@ + pretty(b) + ")"@,
        pretty(ExpV::op2("sdiv"@, a, b)) == "("@ + pretty(a) + " /' "@ + pretty(b) + ")"@,
        pretty(ExpV::op2("sgt"@, a, b)) == "("@ + pretty(a) + " >' "@ + pretty(b) + ")"@,
        pretty(ExpV::op2("slt"@, a, b)) == "("@ + pretty(a) + " <' "@ + pretty(b) + ")"@,
        pretty(ExpV::op2("sge"@, a, b)) == "("@ + pretty(a) + " >=' "@ + pretty(b) + ")"@,
        pretty(ExpV::op2("sle"@, a, b)) == "("@ + pretty(a) + " <=' "@ + pretty(b) + ")"@,
        pretty(ExpV::op2("shl"@, a, b)) == "("@ + pretty(b) + " << "@ + pretty(a) + ")"@,
        pretty(ExpV::op2("shr"@, a, b)) == "("@ + pretty(b) + " >> "@ + pretty(a) + ")"@,
        pretty(ExpV::op1("not"@, a)) == "!"@ + pretty(a),
        pretty(ExpV::op1("iszero"@, a)) == "iszero("@ + pretty(a) + ")"@,
        pretty(ExpV::op1("sha3"@, a)) == "sha3("@ + pretty(a) + ")"@,
{
    reveal_strlit("add");
    reveal_strlit("sub");
    reveal_strlit("mul");
    reveal_strlit("div");
    reveal_strlit("mod");
    reveal_strlit("eq");
    reveal_strlit("lt");
    reveal_strlit("gt");
    reveal_strlit("le");
    reveal_strlit("ge");
    reveal_strlit("and");
    reveal_strlit("or");
    reveal_strlit("xor");
    reveal_strlit("shl");
    reveal_strlit("shr");
    reveal_strlit("exp");
    reveal_strlit("sadd");
    reveal_strlit("smul");
    reveal_strlit("sdiv");
    reveal_strlit("sgt");
    reveal_strlit("slt");
    reveal_strlit("sge");
    reveal_strlit("sle");
    reveal_strlit("not");
    reveal_strlit("iszero");
    reveal_strlit("sha3");
    assert("add"@.len() == 3);
    assert("sub"@.len() == 3);
    assert("mul"@.len() == 3);
    assert("div"@.len() == 3);
    assert("mod"@.len() == 3);
    assert("eq"@.len() == 2);
    assert("lt"@.len() == 2);
    assert("gt"@.len() == 2);
    assert("le"@.len() == 2);
    assert("ge"@.len() == 2);
    assert("and"@.len() == 3);
    assert("or"@.len() == 2);
    assert("xor"@.len() == 3);
    assert("shl"@.len() == 3);
    assert("shr"@.len() == 3);
    assert("exp"@.len() == 3);
    assert("sadd"@.len() == 4);
    assert("smul"@.len() == 4);
    assert("sdiv"@.len() == 4);
    assert("sgt"@.len() == 3);
    assert("slt"@.len() == 3);
    assert("sge"@.len() == 3);
    assert("sle"@.len() == 3);
    assert("not"@.len() == 3);
    assert("iszero"@.len() == 6);
    assert("sha3"@.len() == 4);
    assert("sub"@ != "add"@) by {
        assert("sub"@[0] != "add"@[0]);
    }
    assert("mul"@ != "add"@) by {
        assert("mul"@[0] != "add"@[0]);
    }
    assert("mul"@ != "sub"@) by {
        assert("mul"@[0] != "sub"@[0]);
    }
    assert("div"@ != "add"@) by {
        assert("div"@[0] != "add"@[0]);
    }
    assert("div"@ != "sub"@) by {
        assert("div"@[0] != "sub"@[0]);
    }
    assert("div"@ != "mul"@) by {
        assert("div"@[0] != "mul"@[0]);
    }
    assert("mod"@ != "add"@) by {
        assert("mod"@[0] != "add"@[0]);
    }
    assert("mod"@ != "sub"@) by {
        assert("mod"@[0] != "sub"@[0]);
    }
    assert("mod"@ != "mul"@) by {
        assert("mod"@[1] != "mul"@[1]);
    }
    assert("mod"@ != "div"@) by {
        assert("mod"@[0] != "div"@[0]);
    }
    assert("lt"@ != "eq"@) by {
        assert("lt"@[0] != "eq"@[0]);
    }
    assert("gt"@ != "eq"@) by {
        assert("gt"@[0] != "eq"@[0]);
    }
    assert("gt"@ != "lt"@) by {
        assert("gt"@[0] != "lt"@[0]);
    }
    assert("le"@ != "eq"@) by {
        assert("le"@[0] != "eq"@[0]);
    }
    assert("le"@ != "lt"@) by {
        assert("le"@[1] != "lt"@[1]);
    }
    assert("le"@ != "gt"@) by {
        assert("le"@[0] != "gt"@[0]);
    }
    assert("ge"@ != "eq"@) by {
        assert("ge"@[0] != "eq"@[0]);
    }
    assert("ge"@ != "lt"@) by {
        assert("ge"@[0] != "lt"@[0]);
    }
    assert("ge"@ != "gt"@) by {
        assert("ge"@[1] != "gt"@[1]);
    }
    assert("ge"@ != "le"@) by {
        assert("ge"@[0] != "le"@[0]);
    }
    assert("and"@ != "add"@) by {
        assert("and"@[1] != "add"@[1]);
    }
    assert("and"@ != "sub"@) by {
        assert("and"@[0] != "sub"@[0]);
    }
    assert("and"@ != "mul"@) by {
        assert("and"@[0] != "mul"@[0]);
    }
    assert("and"@ != "div"@) by {
        assert("and"@[0] != "div"@[0]);
    }
    assert("and"@ != "mod"@) by {
        assert("and"@[0] != "mod"@[0]);
    }
    assert("or"@ != "eq"@) by {
        assert("or"@[0] != "eq"@[0]);
    }
    assert("or"@ != "lt"@) by {
        assert("or"@[0] != "lt"@[0]);
    }
    assert("or"@ != "gt"@) by {
        assert("or"@[0] != "gt"@[0]);
    }
    assert("or"@ != "le"@) by {
        assert("or"@[0] != "le"@[0]);
    }
    assert("or"@ != "ge"@) by {
        assert("or"@[0] != "ge"@[0]);
    }
    assert("xor"@ != "add"@) by {
        assert("xor"@[0] != "add"@[0]);
    }
    assert("xor"@ != "sub"@) by {
        assert("xor"@[0] != "sub"@[0]);
    }
    assert("xor"@ != "mul"@) by {
        assert("xor"@[0] != "mul"@[0]);
    }
    assert("xor"@ != "div"@) by {
        assert("xor"@[0] != "div"@[0]);
    }
    assert("xor"@ != "mod"@) by {
        assert("xor"@[0] != "mod"@[0]);
    }
    assert("xor"@ != "and"@) by {
        assert("xor"@[0] != "and"@[0]);
    }
    assert("shl"@ != "add"@) by {
        assert("shl"@[0] != "add"@[0]);
    }
    assert("shl"@ != "sub"@) by {
        assert("shl"@[1] != "sub"@[1]);
    }
    assert("shl"@ != "mul"@) by {
        assert("shl"@[0] != "mul"@[0]);
    }
    assert("shl"@ != "div"@) by {
        assert("shl"@[0] != "div"@[0]);
    }
    assert("shl"@ != "mod"@) by {
        assert("shl"@[0] != "mod"@[0]);
    }
    assert("shl"@ != "and"@) by {
        assert("shl"@[0] != "and"@[0]);
    }
    assert("shl"@ != "xor"@) by {
        assert("shl"@[0] != "xor"@[0]);
    }
    assert("shr"@ != "add"@) by {
        assert("shr"@[0] != "add"@[0]);
    }
    assert("shr"@ != "sub"@) by {
        assert("shr"@[1] != "sub"@[1]);
    }
    assert("shr"@ != "mul"@) by {
        assert("shr"@[0] != "mul"@[0]);
    }
    assert("shr"@ != "div"@) by {
        assert("shr"@[0] != "div"@[0]);
    }
    assert("shr"@ != "mod"@) by {
        assert("shr"@[0] != "mod"@[0]);
    }
    assert("shr"@ != "and"@) by {
        assert("shr"@[0] != "and"@[0]);
    }
    assert("shr"@ != "xor"@) by {
        assert("shr"@[0] != "xor"@[0]);
    }
    assert("shr"@ != "shl"@) by {
        assert("shr"@[2] != "shl"@[2]);
    }
    assert("exp"@ != "add"@) by {
        assert("exp"@[0] != "add"@[0]);
    }
    assert("exp"@ != "sub"@) by {
        assert("exp"@[0] != "sub"@[0]);
    }
    assert("exp"@ != "mul"@) by {
        assert("exp"@[0] != "mul"@[0]);
    }
    assert("exp"@ != "div"@) by {
        assert("exp"@[0] != "div"@[0]);
    }
    assert("exp"@ != "mod"@) by {
        assert("exp"@[0] != "mod"@[0]);
    }
    assert("exp"@ != "and"@) by {
        assert("exp"@[0] != "and"@[0]);
    }
    assert("exp"@ != "xor"@) by {
        assert("exp"@[0] != "xor"@[0]);
    }
    assert("exp"@ != "shl"@) by {
        assert("exp"@[0] != "shl"@[0]);
    }
    assert("exp"@ != "shr"@) by {
        assert("exp"@[0] != "shr"@[0]);
    }
    assert("smul"@ != "sadd"@) by {
        assert("smul"@[1] != "sadd"@[1]);
    }
    assert("sdiv"@ != "sadd"@) by {
        assert("sdiv"@[1] != "sadd"@[1]);
    }
    assert("sdiv"@ != "smul"@) by {
        assert("sdiv"@[1] != "smul"@[1]);
    }
    assert("sgt"@ != "add"@) by {
        assert("sgt"@[0] != "add"@[0]);
    }
    assert("sgt"@ != "sub"@) by {
        assert("sgt"@[1] != "sub"@[1]);
    }
    assert("sgt"@ != "mul"@) by {
        assert("sgt"@[0] != "mul"@[0]);
    }
    assert("sgt"@ != "div"@) by {
        assert("sgt"@[0] != "div"@[0]);
    }
    assert("sgt"@ != "mod"@) by {
        assert("sgt"@[0] != "mod"@[0]);
    }
    assert("sgt"@ != "and"@) by {
        assert("sgt"@[0] != "and"@[0]);
    }
    assert("sgt"@ != "xor"@) by {
        assert("sgt"@[0] != "xor"@[0]);
    }
    assert("sgt"@ != "shl"@) by {
        assert("sgt"@[1] != "shl"@[1]);
    }
    assert("sgt"@ != "shr"@) by {
        assert("sgt"@[1] != "shr"@[1]);
    }
    assert("sgt"@ != "exp"@) by {
        assert("sgt"@[0] != "exp"@[0]);
    }
    assert("slt"@ != "add"@) by {
        assert("slt"@[0] != "add"@[0]);
    }
    assert("slt"@ != "sub"@) by {
        assert("slt"@[1] != "sub"@[1]);
    }
    assert("slt"@ != "mul"@) by {
        assert("slt"@[0] != "mul"@[0]);
    }
    assert("slt"@ != "div"@) by {
        assert("slt"@[0] != "div"@[0]);
    }
    assert("slt"@ != "mod"@) by {
        assert("slt"@[0] != "mod"@[0]);
    }
    assert("slt"@ != "and"@) by {
        assert("slt"@[0] != "and"@[0]);
    }
    assert("slt"@ != "xor"@) by {
        assert("slt"@[0] != "xor"@[0]);
    }
    assert("slt"@ != "shl"@) by {
        assert("slt"@[1] != "shl"@[1]);
    }
    assert("slt"@ != "shr"@) by {
        assert("slt"@[1] != "shr"@[1]);
    }
    assert("slt"@ != "exp"@) by {
        assert("slt"@[0] != "exp"@[0]);
    }
    assert("slt"@ != "sgt"@) by {
        assert("slt"@[1] != "sgt"@[1]);
    }
    assert("sge"@ != "add"@) by {
        assert("sge"@[0] != "add"@[0]);
    }
    assert("sge"@ != "sub"@) by {
        assert("sge"@[1] != "sub"@[1]);
    }
    assert("sge"@ != "mul"@) by {
        assert("sge"@[0] != "mul"@[0]);
    }
    assert("sge"@ != "div"@) by {
        assert("sge"@[0] != "div"@[0]);
    }
    assert("sge"@ != "mod"@) by {
        assert("sge"@[0] != "mod"@[0]);
    }
    assert("sge"@ != "and"@) by {
        assert("sge"@[0] != "and"@[0]);
    }
    assert("sge"@ != "xor"@) by {
        assert("sge"@[0] != "xor"@[0]);
    }
    assert("sge"@ != "shl"@) by {
        assert("sge"@[1] != "shl"@[1]);
    }
    assert("sge"@ != "shr"@) by {
        assert("sge"@[1] != "shr"@[1]);
    }
    assert("sge"@ != "exp"@) by {
        assert("sge"@[0] != "exp"@[0]);
    }
    assert("sge"@ != "sgt"@) by {
        assert("sge"@[2] != "sgt"@[2]);
    }
    assert("sge"@ != "slt"@) by {
        assert("sge"@[1] != "slt"@[1]);
    }
    assert("sle"@ != "add"@) by {
        assert("sle"@[0] != "add"@[0]);
    }
    assert("sle"@ != "sub"@) by {
        assert("sle"@[1] != "sub"@[1]);
    }
    assert("sle"@ != "mul"@) by {
        assert("sle"@[0] != "mul"@[0]);
    }
    assert("sle"@ != "div"@) by {
        assert("sle"@[0] != "div"@[0]);
    }
    assert("sle"@ != "mod"@) by {
        assert("sle"@[0] != "mod"@[0]);
    }
    assert("sle"@ != "and"@) by {
        assert("sle"@[0] != "and"@[0]);
    }
    assert("sle"@ != "xor"@) by {
        assert("sle"@[0] != "xor"@[0]);
    }
    assert("sle"@ != "shl"@) by {
        assert("sle"@[1] != "shl"@[1]);
    }
    assert("sle"@ != "shr"@) by {
        assert("sle"@[1] != "shr"@[1]);
    }
    assert("sle"@ != "exp"@) by {
        assert("sle"@[0] != "exp"@[0]);
    }
    assert("sle"@ != "sgt"@) by {
        assert("sle"@[1] != "sgt"@[1]);
    }
    assert("sle"@ != "slt"@) by {
        assert("sle"@[2] != "slt"@[2]);
    }
    assert("sle"@ != "sge"@) by {
        assert("sle"@[1] != "sge"@[1]);
    }
}

/// The texts of expressions, separated by single spaces.
pub open spec fn pretty_join(s: Seq<ExpV>) -> Seq<char>
    decreases s,
{
    if s.len() == 0 {
        Seq::empty()
    } else if s.len() == 1 {
        pretty(s[0])
    } else {
        pretty_join(s.subrange(0, s.len() - 1)) + " "@ + pretty(s[s.len() - 1])
    }
}

fn pretty_int_string(n: u128) -> (r: String)
    ensures
        r@ == pretty_int(n),
{
    if n > 1_000_000 && n % 1_000_000 != 0 {
        let mut s = String::from_str("0x");
        let h = hex_string(n, false);
        s.append(h.as_str());
        s
    } else {
        dec_string(n)
    }
}

fn binary_symbol(op: &str) -> (r: (u8, &'static str))
    ensures
        r.0 == 0 ==> infix_symbol(op@) == Some(r.1@),
        r.0 == 1 ==> infix_symbol(op@) is None && shift_symbol(op@) == Some(r.1@),
        r.0 == 2 ==> infix_symbol(op@) is None && shift_symbol(op@) is None && other_symbol(op@)
            == Some(r.1@),
        r.0 > 2 ==> infix_symbol(op@) is None && shift_symbol(op@) is None && other_symbol(op@) is None,
{
    if str_eq(op, "add") {
        (0, " + ")
    } else if str_eq(op, "sub") {
        (0, " - ")
    } else if str_eq(op, "mul") {
        (0, " * ")
    } else if str_eq(op, "div") {
        (0, " / ")
    } else if str_eq(op, "mod") {
        (0, " % ")
    } else if str_eq(op, "eq") {
        (0, " == ")
    } else if str_eq(op, "lt") {
        (0, " < ")
    } else if str_eq(op, "gt") {
        (0, " > ")
    } else if str_eq(op, "le") {
        (0, " <= ")
    } else if str_eq(op, "ge") {
        (0, " >= ")
    } else if str_eq(op, "and") {
        (0, " and ")
    } else if str_eq(op, "or") {
        (0, " or ")
    } else if str_eq(op, "xor") {
        (0, " xor ")
    } else if str_eq(op, "shl") {
        (1, " << ")
    } else if str_eq(op, "shr") {
        (1, " >> ")
    } else if str_eq(op, "exp") {
        (2, "^")
    } else if str_eq(op, "sadd") {
        (2, " +' ")
    } else if str_eq(op, "smul") {
        (2, " *' ")
    } else if str_eq(op, "sdiv") {
        (2, " /' ")
    } else if str_eq(op, "sgt") {
        (2, " >' ")
    } else if str_eq(op, "slt") {
        (2, " <' ")
    } else if str_eq(op, "sge") {
        (2, " >=' ")
    } else if str_eq(op, "sle") {
        (2, " <=' ")
    } else {
        (3, "")
    }
}

/// Pretty print a single expression
pub fn pretty_exp(exp: &Exp) -> (r: String)
    ensures
        r@ == pretty(exp@),
    decreases exp,
{
    match exp {
        Exp::Var(name) => name.clone(),
        Exp::Int(n) => pretty_int_string(*n),
        Exp::Str(s) => {
            let mut r = String::from_str("\"");
            r.append(s.as_str());
            r.append("\"");
            r
        },
        Exp::Null => String::from_str("none"),
        Exp::Jd(n) => {
            let mut r = String::from_str("jd(");
            let d = dec_string(*n as u128);
            r.append(d.as_str());
            r.append(")");
            r
        },
        Exp::Op(op) => {
            let mut r = String::from_str("(");
            r.append(op.as_str());
            r.append(")");
            r
        },
        Exp::Op1(op, a) => {
            let a_str = pretty_exp(a);
            if str_eq(op.as_str(), "not") {
                let mut r = String::from_str("!");
                r.append(a_str.as_str());
                r
            } else if str_eq(op.as_str(), "iszero") {
                let mut r = String::from_str("iszero(");
                r.append(a_str.as_str());
                r.append(")");
                r
            } else if str_eq(op.as_str(), "sha3") {
                let mut r = String::from_str("sha3(");
                r.append(a_str.as_str());
                r.append(")");
                r
            } else {
                let mut r = String::from_str("(");
                r.append(op.as_str());
                r.append(" ");
                r.append(a_str.as_str());
                r.append(")");
                r
            }
        },
        Exp::Op2(op, a, b) => {
            let a_str = pretty_exp(a);
            let b_str = pretty_exp(b);
            let (kind, sym) = binary_symbol(op.as_str());
            let mut r = String::from_str("(");
            if kind == 0 || kind == 2 {
                r.append(a_str.as_str());
                r.append(sym);
                r.append(b_str.as_str());
            } else if kind == 1 {
                r.append(b_str.as_str());
                r.append(sym);
                r.append(a_str.as_str());
            } else {
                r.append(op.as_str());
                r.append(" ");
                r.append(a_str.as_str());
                r.append(" ");
                r.append(b_str.as_str());
            }
            r.append(")");
            r
        },
        Exp::Op3(op, a, b, c) => {
            let a_str = pretty_exp(a);
            let b_str = pretty_exp(b);
            let c_str = pretty_exp(c);
            let mut r = String::from_str("(");
            r.append(op.as_str());
            r.append(" ");
            r.append(a_str.as_str());
            r.append(" ");
            r.append(b_str.as_str());
            r.append(" ");
            r.append(c_str.as_str());
            r.append(")");
            r
        },
        Exp::Op4(op, a, b, c, d) => {
            let a_str = pretty_exp(a);
            let b_str = pretty_exp(b);
            let c_str = pretty_exp(c);
            let d_str = pretty_exp(d);
            let mut r = String::from_str("(");
            r.append(op.as_str());
            r.append(" ");
            r.append(a_str.as_str());
            r.append(" ");
            r.append(b_str.as_str());
            r.append(" ");
            r.append(c_str.as_str());
            r.append(" ");
            r.append(d_str.as_str());
            r.append(")");
            r
        },
        Exp::OpN(op, args) => {
            proof {
                lemma_evs(args@);
            }
            let mut r = String::from_str("(");
            r.append(op.as_str());
            if args.len() == 0 {
                r.append(")");
            } else {
                let j = pretty_join_exps(args);
                r.append(" ");
                r.append(j.as_str());
                r.append(")");
            }
            r
        },
        Exp::If(c, t, f) => {
            let c_str = pretty_exp(c);
            let t_str = pretty_join_exps(t);
            let f_str = pretty_join_exps(f);
            let mut r = String::from_str("(if ");
            r.append(c_str.as_str());
            r.append(" [");
            r.append(t_str.as_str());
            r.append("] [");
            r.append(f_str.as_str());
            r.append("])");
            r
        },
        Exp::While(c, b) => {
            let c_str = pretty_exp(c);
            let b_str = pretty_join_exps(b);
            let mut r = String::from_str("(while ");
            r.append(c_str.as_str());
            r.append(" [");
            r.append(b_str.as_str());
            r.append("])");
            r
        },
        Exp::Goto(t, _) => {
            let t_str = pretty_exp(t);
            let mut r = String::from_str("(goto ");
            r.append(t_str.as_str());
            r.append(")");
            r
        },
        Exp::Loop(l, b, _, _) => {
            let l_str = pretty_exp(l);
            let b_str = pretty_join_exps(b);
            let mut r = String::from_str("(loop ");
            r.append(l_str.as_str());
            r.append(" [");
            r.append(b_str.as_str());
            r.append("])");
            r
        },
        Exp::Label(t, _) => {
            let t_str = pretty_exp(t);
            let mut r = String::from_str("(label ");
            r.append(t_str.as_str());
            r.append(")");
            r
        },
        Exp::Continue => String::from_str("(continue)"),
        Exp::Break => String::from_str("(break)"),
    }
}

/// The texts of expressions separated by single spaces.
pub fn pretty_join_exps(v: &Vec<Exp>) -> (r: String)
    ensures
        r@ == pretty_join(evs(v@)),
    decreases v,
{
    proof {
        lemma_evs(v@);
    }
    let mut r = String::new();
    let mut i: usize = 0;
    while i < v.len()
        invariant
            i <= v.len(),
            evs(v@).len() == v@.len(),
            forall|k: int| 0 <= k < v@.len() ==> evs(v@)[k] == ev(#[trigger] v@[k]),
            r@ == pretty_join(evs(v@).subrange(0, i as int)),
        decreases v.len() - i,
    {
        assert(decreases_to!(v => v@[i as int]));
        let s = pretty_exp(&v[i]);
        if i > 0 {
            r.append(" ");
        }
        r.append(s.as_str());
        proof {
            let w = evs(v@).subrange(0, i + 1);
            assert(w.subrange(0, i as int) =~= evs(v@).subrange(0, i as int));
            assert(w[i as int] == ev(v@[i as int]));
        }
        i += 1;
    }
    assert(evs(v@).subrange(0, v@.len() as int) =~= evs(v@));
    r
}

/// Pretty type representation
pub fn pretty_type(var: &str) -> (r: String)
    ensures
        r@ == var@,
{
    String::from_str(var)
}

// ---------------------------------------------------------------------------
// The plain notation of an expression

/// The plain, fully parenthesised notation of an expression.
pub open spec fn display(e: ExpV) -> Seq<char>
    decreases e, 1nat,
{
    match e {
        ExpV::Var(s) => s,
        ExpV::Int(n) => dec_chars(n as nat),
        ExpV::Str(s) => "\""@ + s + "\""@,
        ExpV::Null => "none"@,
        ExpV::Jd(n) => "jd("@ + dec_chars(n as nat) + ")"@,
        ExpV::Op(op) => "("@ + op + ")"@,
        ExpV::Op1(op, a) => "("@ + op + " "@ + display(*a) + ")"@,
        ExpV::Op2(op, a, b) => "("@ + op + " "@ + display(*a) + " "@ + display(*b) + ")"@,
        ExpV::Op3(op, a, b, c) => "("@ + op + " "@ + display(*a) + " "@ + display(*b) + " "@ + display(
            *c,
        ) + ")"@,
        ExpV::Op4(op, a, b, c, d) => "("@ + op + " "@ + display(*a) + " "@ + display(*b) + " "@
            + display(*c) + " "@ + display(*d) + ")"@,
        ExpV::OpN(op, args) => "("@ + op + display_each(args, true) + ")"@,
        ExpV::If(c, t, f) => "(if "@ + display(*c) + " ["@ + display_each(t, false) + "] ["@
            + display_each(f, false) + "])"@,
        ExpV::While(c, b) => "(while "@ + display(*c) + " ["@ + display_each(b, false) + "])"@,
        ExpV::Goto(t, _) => "(goto "@ + display(*t) + ")"@,
        ExpV::Loop(..) => "(loop ...)"@,
        ExpV::Label(t, _) => "(label "@ + display(*t) + ")"@,
        ExpV::Continue => "(continue)"@,
        ExpV::Break => "(break)"@,
    }
}

/// The notations of a sequence, each after a space (`before`) or followed
/// by one.
pub open spec fn display_each(s: Seq<ExpV>, before: bool) -> Seq<char>
    decreases s, 0nat,
{
    if s.len() == 0 {
        Seq::empty()
    } else if before {
        display_each(s.subrange(0, s.len() - 1), before) + " "@ + display(s[s.len() - 1])
    } else {
        display_each(s.subrange(0, s.len() - 1), before) + display(s[s.len() - 1]) + " "@
    }
}

fn push_str(s: &mut String, t: &str)
    ensures
        final(s)@ == old(s)@ + t@,
{
    s.append(t);
}

impl Exp {
    /// The plain, fully parenthesised notation of the expression.
    pub fn to_string(&self) -> (r: String)
        ensures
            r@ == display(self@),
    {
        let mut out = String::new();
        display_into(self, &mut out);
        assert(Seq::<char>::empty() + display(self@) =~= display(self@));
        out
    }
}

/// Appends the notation of an expression.
#[verifier::rlimit(40)]
fn display_into(e: &Exp, out: &mut String)
    ensures
        final(out)@ == old(out)@ + display(e@),
    decreases e, 1nat,
{
    proof {
        reveal_strlit("\"");
        reveal_strlit("none");
        reveal_strlit("jd(");
        reveal_strlit(")");
        reveal_strlit("(");
        reveal_strlit(" ");
        reveal_strlit("(if ");
        reveal_strlit(" [");
        reveal_strlit("] [");
        reveal_strlit("])");
        reveal_strlit("(while ");
        reveal_strlit("(goto ");
        reveal_strlit("(loop ...)");
        reveal_strlit("(label ");
        reveal_strlit("(continue)");
        reveal_strlit("(break)");
    }
    let ghost o0 = out@;
    match e {
        Exp::Var(s) => {
            push_str(out, s.as_str());
        },
        Exp::Int(n) => {
            let d = dec_string(*n);
            push_str(out, d.as_str());
        },
        Exp::Str(s) => {
            push_str(out, "\"");
            push_str(out, s.as_str());
            push_str(out, "\"");
        },
        Exp::Null => {
            push_str(out, "none");
        },
        Exp::Jd(n) => {
            push_str(out, "jd(");
            let d = dec_string(*n as u128);
            push_str(out, d.as_str());
            push_str(out, ")");
        },
        Exp::Op(op) => {
            push_str(out, "(");
            push_str(out, op.as_str());
            push_str(out, ")");
        },
        Exp::Op1(op, a) => {
            push_str(out, "(");
            push_str(out, op.as_str());
            push_str(out, " ");
            display_into(a, out);
            push_str(out, ")");
        },
        Exp::Op2(op, a, b) => {
            push_str(out, "(");
            push_str(out, op.as_str());
            push_str(out, " ");
            display_into(a, out);
            push_str(out, " ");
            display_into(b, out);
            push_str(out, ")");
        },
        Exp::Op3(op, a, b, c) => {
            push_str(out, "(");
            push_str(out, op.as_str());
            push_str(out, " ");
            display_into(a, out);
            push_str(out, " ");
            display_into(b, out);
            push_str(out, " ");
            display_into(c, out);
            push_str(out, ")");
        },
        Exp::Op4(op, a, b, c, d) => {
            push_str(out, "(");
            push_str(out, op.as_str());
            push_str(out, " ");
            display_into(a, out);
            push_str(out, " ");
            display_into(b, out);
            push_str(out, " ");
            display_into(c, out);
            push_str(out, " ");
            display_into(d, out);
            push_str(out, ")");
        },
        Exp::OpN(op, args) => {
            push_str(out, "(");
            push_str(out, op.as_str());
            display_all(args, true, out);
            push_str(out, ")");
        },
        Exp::If(c, t, f) => {
            push_str(out, "(if ");
            display_into(c, out);
            push_str(out, " [");
            display_all(t, false, out);
            push_str(out, "] [");
            display_all(f, false, out);
            push_str(out, "])");
        },
        Exp::While(c, b) => {
            push_str(out, "(while ");
            display_into(c, out);
            push_str(out, " [");
            display_all(b, false, out);
            push_str(out, "])");
        },
        Exp::Goto(t, _) => {
            push_str(out, "(goto ");
            display_into(t, out);
            push_str(out, ")");
        },
        Exp::Loop(..) => {
            push_str(out, "(loop ...)");
        },
        Exp::Label(t, _) => {
            push_str(out, "(label ");
            display_into(t, out);
            push_str(out, ")");
        },
        Exp::Continue => {
            push_str(out, "(continue)");
        },
        Exp::Break => {
            push_str(out, "(break)");
        },
    }
    assert(out@ =~= o0 + display(e@));
}

/// Appends the notations of each expression of a sequence.
fn display_all(v: &Vec<Exp>, before: bool, out: &mut String)
    ensures
        final(out)@ == old(out)@ + display_each(evs(v@), before),
    decreases v, 0nat,
{
    proof {
        reveal_strlit(" ");
    }
    let ghost o0 = out@;
    let mut i: usize = 0;
    assert(o0 + display_each(evs(v@.subrange(0, 0)), before) =~= o0) by {
        lemma_evs(v@.subrange(0, 0));
    }
    while i < v.len()
        invariant
            i <= v.len(),
            out@ == o0 + display_each(evs(v@.subrange(0, i as int)), before),
        decreases v.len() - i,
    {
        assert(decreases_to!(v => v@[i as int]));
        proof {
            lemma_evs_prefix(v@, i as int);
            lemma_push_prefix(evs(v@.subrange(0, i as int)), ev(v@[i as int]));
        }
        let ghost mid = out@;
        if before {
            push_str(out, " ");
            display_into(&v[i], out);
        } else {
            display_into(&v[i], out);
            push_str(out, " ");
        }
        assert(out@ =~= o0 + display_each(evs(v@.subrange(0, i + 1)), before));
        i += 1;
    }
    assert(v@.subrange(0, v.len() as int) =~= v@);
}

} // verus!
