//! While loop conversion - converts gotos to structured while loops

use vstd::prelude::*;
use crate::evm_core::types::{
    Exp, ExpV, ev, evs, evts, lemma_evs, lemma_evts, lemma_evs_concat, lemma_evs_prefix, copy_exp, push_exp, extend_exps, copy_exps,
    copy_from, copy_triples, exp_eq, Trace,
};
use crate::text::{str_eq, dec_string, dec_chars};

verus! {

/// The name of the variable that a label's `idx`-th assignment sets.
pub open spec fn var_name(idx: u64) -> Seq<char> {
    "var_"@ + dec_chars(idx as nat)
}

/// An expression with every occurrence of `var` replaced by `val`.
pub open spec fn replace_var_spec(e: ExpV, var: ExpV, val: ExpV) -> ExpV
    decreases e,
{
    if e == var {
        val
    } else {
        match e {
            ExpV::Op1(op, a) => ExpV::Op1(op, Box::new(replace_var_spec(*a, var, val))),
            ExpV::Op2(op, a, b) => ExpV::Op2(
                op,
                Box::new(replace_var_spec(*a, var, val)),
                Box::new(replace_var_spec(*b, var, val)),
            ),
            ExpV::Op3(op, a, b, c) => ExpV::Op3(
                op,
                Box::new(replace_var_spec(*a, var, val)),
                Box::new(replace_var_spec(*b, var, val)),
                Box::new(replace_var_spec(*c, var, val)),
            ),
            ExpV::Op4(op, a, b, c, d) => ExpV::Op4(
                op,
                Box::new(replace_var_spec(*a, var, val)),
                Box::new(replace_var_spec(*b, var, val)),
                Box::new(replace_var_spec(*c, var, val)),
                Box::new(replace_var_spec(*d, var, val)),
            ),
            ExpV::OpN(op, args) => ExpV::OpN(op, replace_var_seq(args, var, val)),
            ExpV::If(c, t, f) => ExpV::If(
                Box::new(replace_var_spec(*c, var, val)),
                replace_var_seq(t, var, val),
                replace_var_seq(f, var, val),
            ),
            ExpV::While(c, b) => ExpV::While(
                Box::new(replace_var_spec(*c, var, val)),
                replace_var_seq(b, var, val),
            ),
            ExpV::Label(t, vs) => ExpV::Label(Box::new(replace_var_spec(*t, var, val)), vs),
            ExpV::Goto(t, vs) => ExpV::Goto(Box::new(replace_var_spec(*t, var, val)), vs),
            _ => e,
        }
    }
}

/// A sequence with `var` replaced by `val` in each element.
pub open spec fn replace_var_seq(s: Seq<ExpV>, var: ExpV, val: ExpV) -> Seq<ExpV>
    decreases s,
{
    if s.len() == 0 {
        Seq::empty()
    } else {
        replace_var_seq(s.subrange(0, s.len() - 1), var, val).push(
            replace_var_spec(s[s.len() - 1], var, val),
        )
    }
}

/// A path with the variables that a label or jump assigns replaced by their values.
pub open spec fn assign_vars(path: Seq<ExpV>, vars: Seq<(u64, u64, ExpV)>) -> Seq<ExpV>
    decreases vars.len(),
{
    if vars.len() == 0 {
        path
    } else {
        let v = vars.last();
        replace_var_seq(assign_vars(path, vars.drop_last()), ExpV::Var(var_name(v.1)), v.2)
    }
}

/// Whether a branch is a single line that reverts (or returns nothing).
pub open spec fn is_revert_spec(t: Seq<ExpV>) -> bool {
    t.len() == 1 && (match t[0] {
        ExpV::Op2(op, a, _) => op == "return"@ && *a == ExpV::Int(0),
        _ => false,
    } || t[0].opcode() == "revert"@ || t[0].opcode() == "invalid"@)
}

/// The targets of the jumps of a trace.
pub open spec fn jds_spec(t: Seq<ExpV>) -> Seq<ExpV>
    decreases t.len(),
{
    if t.len() == 0 {
        Seq::empty()
    } else {
        let rest = jds_spec(t.drop_last());
        match t.last() {
            ExpV::Goto(target, _) => rest.push(*target),
            _ => rest,
        }
    }
}

/// A jump with the path leading to it put in front (with the variables it
/// assigns replaced); other lines stay as they are.
pub open spec fn add_path_spec(line: ExpV, path: Seq<ExpV>) -> Seq<ExpV> {
    match line {
        ExpV::Goto(_, vs) => assign_vars(path, vs).push(line),
        _ => seq![line],
    }
}

/// Every line of a trace passed through `add_path_spec`.
pub open spec fn add_path_all(t: Seq<ExpV>, path: Seq<ExpV>) -> Seq<ExpV>
    decreases t.len(),
{
    if t.len() == 0 {
        Seq::empty()
    } else {
        add_path_all(t.drop_last(), path) + add_path_spec(t.last(), path)
    }
}

/// The lines of a trace that are not `jumpdest`.
pub open spec fn drop_jumpdests(t: Seq<ExpV>) -> Seq<ExpV>
    decreases t.len(),
{
    if t.len() == 0 {
        Seq::empty()
    } else if t.last().opcode() == "jumpdest"@ {
        drop_jumpdests(t.drop_last())
    } else {
        drop_jumpdests(t.drop_last()).push(t.last())
    }
}

pub open spec fn iszero_spec(e: ExpV) -> ExpV {
    ExpV::op1("iszero"@, e)
}

/// The loop that starts after a label: the lines leading to the loop's
/// condition, the loop body, the lines after the loop, and the condition.
pub open spec fn to_while_spec(remaining: Seq<ExpV>, jd: ExpV, path: Seq<ExpV>) -> Option<
    (Seq<ExpV>, Seq<ExpV>, Seq<ExpV>, ExpV),
>
    decreases remaining,
{
    if remaining.len() == 0 {
        None
    } else {
        let line = remaining[0];
        let rest = remaining.subrange(1, remaining.len() as int);
        match line {
            ExpV::If(cond, t, f) => if is_revert_spec(t) {
                to_while_spec(rest, jd, path.push(ExpV::op1("require"@, iszero_spec(*cond))))
            } else if is_revert_spec(f) {
                to_while_spec(t, jd, path.push(ExpV::op1("require"@, *cond)))
            } else {
                let in_true = jds_spec(t).contains(jd);
                let in_false = jds_spec(f).contains(jd);
                if in_true == in_false {
                    None
                } else if in_true {
                    Some((path, add_path_all(t, path), f, *cond))
                } else {
                    Some((path, add_path_all(f, path), t, iszero_spec(*cond)))
                }
            },
            _ => to_while_spec(rest, jd, path.push(line)),
        }
    }
}

/// A recovered loop runs while execution would take the branch that jumps
/// back to its label: at an `if c` whose branches both go on (neither only
/// reverts) and exactly one of which jumps back, the loop's condition is `c`
/// when the jump is in the `then` branch and `iszero(c)` when it is in the
/// `else` branch; the other branch is what runs after the loop, and the
/// lines before the `if` lead into it.
pub proof fn lemma_loop_condition(
    c: ExpV,
    t: Seq<ExpV>,
    f: Seq<ExpV>,
    rest: Seq<ExpV>,
    jd: ExpV,
    path: Seq<ExpV>,
)
    requires
        !is_revert_spec(t),
        !is_revert_spec(f),
        jds_spec(t).contains(jd) != jds_spec(f).contains(jd),
    ensures
        to_while_spec(seq![ExpV::If(Box::new(c), t, f)] + rest, jd, path) matches Some(
            (before, _inside, after, cond),
        ) && before == path && (jds_spec(t).contains(jd) ==> cond == c && after == f) && (jds_spec(
            f,
        ).contains(jd) ==> cond == ExpV::Op1("iszero"@, Box::new(c)) && after == t),
        to_while_spec(seq![ExpV::If(Box::new(c), t, f)] + rest, jd, path) matches Some(
            (_before, inside, _after, _cond),
        ) && jds_spec(inside).contains(jd),
{
    let r = seq![ExpV::If(Box::new(c), t, f)] + rest;
    assert(r[0] == ExpV::If(Box::new(c), t, f));
    lemma_add_path_keeps_jumps(t, path);
    lemma_add_path_keeps_jumps(f, path);
}

proof fn lemma_jds_concat(a: Seq<ExpV>, b: Seq<ExpV>)
    ensures
        jds_spec(a + b) == jds_spec(a) + jds_spec(b),
    decreases b.len(),
{
    if b.len() == 0 {
        assert(a + b =~= a);
        assert(jds_spec(a) + Seq::<ExpV>::empty() =~= jds_spec(a));
    } else {
        lemma_jds_concat(a, b.drop_last());
        assert((a + b).drop_last() =~= a + b.drop_last());
        assert((a + b).last() == b.last());
        match b.last() {
            ExpV::Goto(target, _) => {
                assert(jds_spec(a) + jds_spec(b.drop_last()).push(*target) =~= (jds_spec(a) + jds_spec(
                    b.drop_last(),
                )).push(*target));
            },
            _ => {},
        }
    }
}

/// Putting the path in front of the jumps of a trace keeps every jump target.
proof fn lemma_add_path_keeps_jumps(t: Seq<ExpV>, path: Seq<ExpV>)
    ensures
        forall|x: ExpV| jds_spec(t).contains(x) ==> #[trigger] jds_spec(add_path_all(t, path)).contains(x),
    decreases t.len(),
{
    if t.len() > 0 {
        let init = t.drop_last();
        lemma_add_path_keeps_jumps(init, path);
        let a = add_path_all(init, path);
        let b = add_path_spec(t.last(), path);
        lemma_jds_concat(a, b);
        assert forall|x: ExpV| jds_spec(t).contains(x) implies #[trigger] jds_spec(
            add_path_all(t, path),
        ).contains(x) by {
            let j = jds_spec(a) + jds_spec(b);
            match t.last() {
                ExpV::Goto(target, vs) => {
                    if x == *target {
                        assert(b.last() == t.last());
                        assert(jds_spec(b).last() == x);
                        assert(j[j.len() - 1] == x);
                    } else {
                        let ji = jds_spec(init);
                        assert(jds_spec(t) == ji.push(*target));
                        let q = choose|q: int| 0 <= q < jds_spec(t).len() && jds_spec(t)[q] == x;
                        assert(q < ji.len());
                        assert(ji[q] == x);
                        assert(ji.contains(x));
                        assert(jds_spec(add_path_all(init, path)).contains(x));
                        let k = choose|k: int| 0 <= k < jds_spec(a).len() && jds_spec(a)[k] == x;
                        assert(j[k] == x);
                    }
                },
                _ => {
                    assert(jds_spec(t) == jds_spec(init));
                    assert(jds_spec(add_path_all(init, path)).contains(x));
                    let k = choose|k: int| 0 <= k < jds_spec(a).len() && jds_spec(a)[k] == x;
                    assert(j[k] == x);
                },
            }
        }
    }
}

/// The conversion of labels and jumps into loops, from line `i` on, with at
/// most `fuel` nested conversions; `None` when the fuel runs out.
pub open spec fn make_at(t: Seq<ExpV>, i: nat, fuel: nat) -> Option<Seq<ExpV>>
    decreases fuel, t.len() - i,
{
    if fuel == 0 {
        None
    } else if i >= t.len() {
        Some(Seq::empty())
    } else {
        match t[i as int] {
            ExpV::If(c, a, b) => match (
                make_at(a, 0, (fuel - 1) as nat),
                make_at(b, 0, (fuel - 1) as nat),
                make_at(t, i + 1, fuel),
            ) {
                (Some(a2), Some(b2), Some(rest)) => Some(seq![ExpV::If(c, a2, b2)] + rest),
                _ => None,
            },
            ExpV::Label(jd, vars) => match to_while_spec(
                t.subrange((i + 1) as int, t.len() as int),
                *jd,
                Seq::empty(),
            ) {
                Some((path, inside, remaining, cond)) => match (
                    make_at(assign_vars(path, vars), 0, (fuel - 1) as nat),
                    make_at(inside, 0, (fuel - 1) as nat),
                    make_at(remaining, 0, (fuel - 1) as nat),
                ) {
                    (Some(before), Some(inside2), Some(remaining2)) => Some(
                        before + seq![ExpV::While(Box::new(cond), inside2)] + remaining2,
                    ),
                    _ => None,
                },
                None => make_at(t, i + 1, fuel),
            },
            _ => match make_at(t, i + 1, fuel) {
                Some(rest) => Some(seq![t[i as int]] + rest),
                None => None,
            },
        }
    }
}

/// The fuel with which [`make_whiles`] converts: one unit per level of nested conversion.
pub open spec fn whiles_fuel() -> nat {
    u64::MAX as nat
}

/// The result of [`make_whiles`]: the conversion with jump destinations
/// dropped; a trace nested deeper than the fuel allows is returned as it is.
pub open spec fn make_whiles_spec(t: Seq<ExpV>) -> Seq<ExpV> {
    match make_at(t, 0, whiles_fuel()) {
        Some(m) => drop_jumpdests(m),
        None => t,
    }
}

/// `p` put in front of an optional sequence.
pub open spec fn prefix_opt(p: Seq<ExpV>, o: Option<Seq<ExpV>>) -> Option<Seq<ExpV>> {
    match o {
        Some(s) => Some(p + s),
        None => None,
    }
}

/// More fuel than a conversion needs does not change its result.
pub proof fn lemma_make_at_fuel(t: Seq<ExpV>, i: nat, f1: nat, f2: nat)
    requires
        f1 <= f2,
        make_at(t, i, f1) is Some,
    ensures
        make_at(t, i, f2) == make_at(t, i, f1),
    decreases f1, t.len() - i,
{
    if i < t.len() {
        match t[i as int] {
            ExpV::If(c, a, b) => {
                lemma_make_at_fuel(a, 0, (f1 - 1) as nat, (f2 - 1) as nat);
                lemma_make_at_fuel(b, 0, (f1 - 1) as nat, (f2 - 1) as nat);
                lemma_make_at_fuel(t, i + 1, f1, f2);
            },
            ExpV::Label(jd, vars) => {
                match to_while_spec(t.subrange((i + 1) as int, t.len() as int), *jd, Seq::empty()) {
                    Some((path, inside, remaining, cond)) => {
                        lemma_make_at_fuel(assign_vars(path, vars), 0, (f1 - 1) as nat, (f2 - 1) as nat);
                        lemma_make_at_fuel(inside, 0, (f1 - 1) as nat, (f2 - 1) as nat);
                        lemma_make_at_fuel(remaining, 0, (f1 - 1) as nat, (f2 - 1) as nat);
                    },
                    None => {
                        lemma_make_at_fuel(t, i + 1, f1, f2);
                    },
                }
            },
            _ => {
                lemma_make_at_fuel(t, i + 1, f1, f2);
            },
        }
    }
}

/// `drop_jumpdests` keeps no jump destination and keeps every other line.
pub proof fn lemma_drop_jumpdests(t: Seq<ExpV>)
    ensures
        forall|k: int|
            0 <= k < drop_jumpdests(t).len() ==> (#[trigger] drop_jumpdests(t)[k]).opcode()
                != "jumpdest"@,
        forall|x: ExpV| #[trigger]
            t.contains(x) && x.opcode() != "jumpdest"@ ==> drop_jumpdests(t).contains(x),
        forall|x: ExpV| #[trigger] drop_jumpdests(t).contains(x) ==> t.contains(x),
    decreases t.len(),
{
    if t.len() > 0 {
        let init = t.drop_last();
        lemma_drop_jumpdests(init);
        assert forall|x: ExpV| #[trigger]
            t.contains(x) && x.opcode() != "jumpdest"@ implies drop_jumpdests(t).contains(x) by {
            let k = choose|k: int| 0 <= k < t.len() && t[k] == x;
            if k < t.len() - 1 {
                assert(init[k] == x);
                assert(init.contains(x));
                let di = drop_jumpdests(init);
                let j = choose|j: int| 0 <= j < di.len() && di[j] == x;
                assert(drop_jumpdests(t)[j] == x);
            } else {
                assert(drop_jumpdests(t).last() == x);
            }
        }
        assert forall|x: ExpV| #[trigger] drop_jumpdests(t).contains(x) implies t.contains(x) by {
            let d = drop_jumpdests(t);
            let k = choose|k: int| 0 <= k < d.len() && d[k] == x;
            if k < drop_jumpdests(init).len() {
                assert(drop_jumpdests(init)[k] == x);
                assert(drop_jumpdests(init).contains(x));
                let j = choose|j: int| 0 <= j < init.len() && init[j] == x;
                assert(t[j] == x);
            } else {
                assert(t[t.len() - 1] == x);
            }
        }
    }
}

/// A converted trace keeps no jump destination at its top level.
pub proof fn lemma_whiles_leave_no_jumpdest(t: Seq<ExpV>)
    requires
        make_at(t, 0, whiles_fuel()) is Some,
    ensures
        forall|k: int|
            0 <= k < make_whiles_spec(t).len() ==> (#[trigger] make_whiles_spec(t)[k]).opcode()
                != "jumpdest"@,
{
    lemma_drop_jumpdests(make_at(t, 0, whiles_fuel())->0);
}

proof fn lemma_make_at_straight(t: Seq<ExpV>, i: nat, fuel: nat)
    requires
        fuel > 0,
        i <= t.len(),
        forall|k: int| 0 <= k < t.len() ==> !(#[trigger] t[k] is If) && !(t[k] is Label),
    ensures
        make_at(t, i, fuel) == Some(t.subrange(i as int, t.len() as int)),
    decreases t.len() - i,
{
    if i < t.len() {
        lemma_make_at_straight(t, i + 1, fuel);
        assert(seq![t[i as int]] + t.subrange(i + 1 as int, t.len() as int) =~= t.subrange(
            i as int,
            t.len() as int,
        ));
    }
}

/// A trace with no `if` and no label is only stripped of its jump destinations.
pub proof fn lemma_straight_trace_whiles(t: Seq<ExpV>)
    requires
        forall|k: int| 0 <= k < t.len() ==> !(#[trigger] t[k] is If) && !(t[k] is Label),
    ensures
        make_whiles_spec(t) == drop_jumpdests(t),
{
    lemma_make_at_straight(t, 0, whiles_fuel());
    assert(t.subrange(0, t.len() as int) =~= t);
}

proof fn lemma_replace_var_seq(s: Seq<ExpV>, var: ExpV, val: ExpV)
    ensures
        replace_var_seq(s, var, val).len() == s.len(),
        forall|k: int|
            0 <= k < s.len() ==> #[trigger] replace_var_seq(s, var, val)[k] == replace_var_spec(
                s[k],
                var,
                val,
            ),
    decreases s.len(),
{
    if s.len() > 0 {
        lemma_replace_var_seq(s.subrange(0, s.len() - 1), var, val);
    }
}

/// `var_{idx}`.
fn var_name_string(idx: u64) -> (r: String)
    ensures
        r@ == var_name(idx),
{
    let mut t = String::from_str("var_");
    proof {
        reveal_strlit("var_");
    }
    let d = dec_string(idx as u128);
    t.append(d.as_str());
    t
}

/// Replaces a variable reference with a value in an expression.
fn replace_var_exp(exp: &Exp, var: &Exp, val: &Exp) -> (r: Exp)
    ensures
        r@ == replace_var_spec(exp@, var@, val@),
    decreases exp,
{
    if exp_eq(exp, var) {
        return copy_exp(val);
    }
    match exp {
        Exp::Op1(op, a) => Exp::Op1(op.clone(), Box::new(replace_var_exp(a, var, val))),
        Exp::Op2(op, a, b) => Exp::Op2(
            op.clone(),
            Box::new(replace_var_exp(a, var, val)),
            Box::new(replace_var_exp(b, var, val)),
        ),
        Exp::Op3(op, a, b, c) => Exp::Op3(
            op.clone(),
            Box::new(replace_var_exp(a, var, val)),
            Box::new(replace_var_exp(b, var, val)),
            Box::new(replace_var_exp(c, var, val)),
        ),
        Exp::Op4(op, a, b, c, d) => Exp::Op4(
            op.clone(),
            Box::new(replace_var_exp(a, var, val)),
            Box::new(replace_var_exp(b, var, val)),
            Box::new(replace_var_exp(c, var, val)),
            Box::new(replace_var_exp(d, var, val)),
        ),
        Exp::OpN(op, args) => Exp::OpN(op.clone(), replace_var(args, var, val)),
        Exp::If(c, t, f) => Exp::If(
            Box::new(replace_var_exp(c, var, val)),
            replace_var(t, var, val),
            replace_var(f, var, val),
        ),
        Exp::While(c, b) => Exp::While(
            Box::new(replace_var_exp(c, var, val)),
            replace_var(b, var, val),
        ),
        Exp::Label(t, vs) => Exp::Label(Box::new(replace_var_exp(t, var, val)), copy_triples(vs)),
        Exp::Goto(t, vs) => Exp::Goto(Box::new(replace_var_exp(t, var, val)), copy_triples(vs)),
        _ => copy_exp(exp),
    }
}

/// Replaces a variable reference with a value in each line of a trace.
fn replace_var(trace: &Vec<Exp>, var: &Exp, val: &Exp) -> (r: Vec<Exp>)
    ensures
        evs(r@) == replace_var_seq(evs(trace@), var@, val@),
    decreases trace,
{
    broadcast use lemma_evs;
    let mut r: Vec<Exp> = Vec::new();
    let mut i: usize = 0;
    while i < trace.len()
        invariant
            i <= trace.len(),
            r@.len() == i,
            forall|k: int|
                0 <= k < i ==> ev(#[trigger] r@[k]) == replace_var_spec(ev(trace@[k]), var@, val@),
        decreases trace.len() - i,
    {
        assert(decreases_to!(trace => trace@[i as int]));
        r.push(replace_var_exp(&trace[i], var, val));
        i += 1;
    }
    proof {
        lemma_replace_var_seq(evs(trace@), var@, val@);
    }
    assert(evs(r@) =~= replace_var_seq(evs(trace@), var@, val@));
    r
}

/// A path with the variables that `vars` assigns replaced by their values.
fn assign_vars_exec(path: &Vec<Exp>, vars: &Vec<(u64, u64, Exp)>) -> (r: Vec<Exp>)
    ensures
        evs(r@) == assign_vars(evs(path@), evts(vars@)),
{
    broadcast use lemma_evts;
    let mut p = copy_exps(path);
    let mut k: usize = 0;
    while k < vars.len()
        invariant
            k <= vars.len(),
            evs(p@) == assign_vars(evs(path@), evts(vars@).subrange(0, k as int)),
        decreases vars.len() - k,
    {
        let v = &vars[k];
        let var = Exp::Var(var_name_string(v.1));
        p = replace_var(&p, &var, &v.2);
        proof {
            lemma_evts(vars@);
            assert(evts(vars@).subrange(0, k + 1).drop_last() =~= evts(vars@).subrange(0, k as int));
        }
        k += 1;
    }
    assert(evts(vars@).subrange(0, vars.len() as int) =~= evts(vars@));
    p
}

/// Whether a branch is a single line that reverts (or returns nothing).
pub fn is_revert(trace: &[Exp]) -> (r: bool)
    ensures
        r == is_revert_spec(evs(trace@)),
{
    proof {
        lemma_evs(trace@);
        reveal_strlit("return");
        reveal_strlit("revert");
        reveal_strlit("invalid");
    }
    if trace.len() != 1 {
        return false;
    }
    let line = &trace[0];
    assert(evs(trace@)[0] == ev(trace@[0]));
    if let Exp::Op2(op, a, _) = line {
        if str_eq(op.as_str(), "return") {
            if let Exp::Int(n) = &**a {
                if *n == 0 {
                    assert(ev(**a) == ExpV::Int(0));
                    return true;
                }
            }
        }
    }
    let o = line.opcode();
    str_eq(o, "revert") || str_eq(o, "invalid")
}

/// The targets of the jumps of a trace.
fn get_jds(trace: &Vec<Exp>) -> (r: Vec<Exp>)
    ensures
        evs(r@) == jds_spec(evs(trace@)),
{
    broadcast use lemma_evs;
    let mut r: Vec<Exp> = Vec::new();
    let mut i: usize = 0;
    while i < trace.len()
        invariant
            i <= trace.len(),
            evs(r@) == jds_spec(evs(trace@.subrange(0, i as int))),
        decreases trace.len() - i,
    {
        let ghost before = r@;
        if let Exp::Goto(target, _) = &trace[i] {
            r.push(copy_exp(target));
            proof {
                lemma_evs_concat(before, seq![r@.last()]);
                assert(r@ =~= before + seq![r@.last()]);
                lemma_evs(seq![r@.last()]);
                lemma_evs(seq![r@.last()]);
            assert(evs(seq![r@.last()]) =~= seq![ev(r@.last())]);
            }
        }
        proof {
            lemma_evs_prefix(trace@, i as int);
        }
        i += 1;
    }
    assert(trace@.subrange(0, trace.len() as int) =~= trace@);
    r
}

/// A jump with the path leading to it put in front; other lines stay as they are.
fn add_path(line: &Exp, path: &Vec<Exp>) -> (r: Vec<Exp>)
    ensures
        evs(r@) == add_path_spec(line@, evs(path@)),
{
    broadcast use lemma_evs;
    if let Exp::Goto(_, setvars) = line {
        let mut p = assign_vars_exec(path, setvars);
        let ghost before = p@;
        p.push(copy_exp(line));
        proof {
            lemma_evs_concat(before, seq![p@.last()]);
            assert(p@ =~= before + seq![p@.last()]);
            lemma_evs(seq![p@.last()]);
            assert(evs(seq![p@.last()]) =~= seq![ev(p@.last())]);
        }
        p
    } else {
        let r = vec![copy_exp(line)];
        assert(evs(r@) =~= seq![line@]);
        r
    }
}

/// Every line of a trace passed through [`add_path`].
fn add_path_each(t: &Vec<Exp>, path: &Vec<Exp>) -> (r: Vec<Exp>)
    ensures
        evs(r@) == add_path_all(evs(t@), evs(path@)),
{
    broadcast use lemma_evs;
    let mut r: Vec<Exp> = Vec::new();
    let mut i: usize = 0;
    while i < t.len()
        invariant
            i <= t.len(),
            evs(r@) == add_path_all(evs(t@.subrange(0, i as int)), evs(path@)),
        decreases t.len() - i,
    {
        let ghost before = r@;
        let mut more = add_path(&t[i], path);
        let ghost m = more@;
        r.append(&mut more);
        proof {
            lemma_evs_concat(before, m);
            lemma_evs_prefix(t@, i as int);
            assert(add_path_all(evs(t@.subrange(0, i + 1)), evs(path@)) == add_path_all(
                evs(t@.subrange(0, i as int)),
                evs(path@),
            ) + add_path_spec(ev(t@[i as int]), evs(path@)));
        }
        i += 1;
    }
    assert(t@.subrange(0, t.len() as int) =~= t@);
    r
}

/// The lines of a trace that are not `jumpdest`.
fn drop_jumpdest_lines(t: &Vec<Exp>) -> (r: Vec<Exp>)
    ensures
        evs(r@) == drop_jumpdests(evs(t@)),
{
    broadcast use lemma_evs;
    proof {
        reveal_strlit("jumpdest");
    }
    let mut r: Vec<Exp> = Vec::new();
    let mut i: usize = 0;
    while i < t.len()
        invariant
            i <= t.len(),
            evs(r@) == drop_jumpdests(evs(t@.subrange(0, i as int))),
        decreases t.len() - i,
    {
        let ghost before = r@;
        if !str_eq(t[i].opcode(), "jumpdest") {
            r.push(copy_exp(&t[i]));
            proof {
                lemma_evs_concat(before, seq![r@.last()]);
                assert(r@ =~= before + seq![r@.last()]);
                lemma_evs(seq![r@.last()]);
                lemma_evs(seq![r@.last()]);
            assert(evs(seq![r@.last()]) =~= seq![ev(r@.last())]);
            }
        }
        proof {
            lemma_evs_prefix(t@, i as int);
        }
        i += 1;
    }
    assert(t@.subrange(0, t.len() as int) =~= t@);
    r
}

proof fn lemma_prefix_opt_push(p: Seq<ExpV>, x: ExpV, o: Option<Seq<ExpV>>)
    ensures
        prefix_opt(p, prefix_opt(seq![x], o)) == prefix_opt(p.push(x), o),
{
    if let Some(s) = o {
        assert(p + (seq![x] + s) =~= p.push(x) + s);
    }
}

/// Whether `e` occurs in `v`.
fn contains_exp(v: &Vec<Exp>, e: &Exp) -> (r: bool)
    ensures
        r == evs(v@).contains(e@),
{
    broadcast use lemma_evs;
    let mut i: usize = 0;
    while i < v.len()
        invariant
            i <= v.len(),
            forall|k: int| 0 <= k < i ==> evs(v@)[k] != e@,
        decreases v.len() - i,
    {
        proof {
            lemma_evs(v@);
        }
        if exp_eq(&v[i], e) {
            assert(evs(v@)[i as int] == e@);
            return true;
        }
        i += 1;
    }
    false
}

/// The loop that starts after a label whose destination is `jd`: the lines
/// leading to the loop's condition, the body, the lines after it, and the condition.
fn to_while(trace: &Vec<Exp>, jd: &Exp) -> (r: Option<(Vec<Exp>, Vec<Exp>, Vec<Exp>, Exp)>)
    ensures
        match r {
            Some((p, i, rem, c)) => to_while_spec(evs(trace@), jd@, Seq::empty()) == Some(
                (evs(p@), evs(i@), evs(rem@), c@),
            ),
            None => to_while_spec(evs(trace@), jd@, Seq::empty()) is None,
        },
{
    broadcast use lemma_evs;
    proof {
        reveal_strlit("require");
    }
    let mut path: Vec<Exp> = Vec::new();
    let mut remaining: Vec<Exp> = copy_exps(trace);
    assert(evs(path@) =~= Seq::<ExpV>::empty());
    loop
        invariant
            to_while_spec(evs(trace@), jd@, Seq::empty()) == to_while_spec(
                evs(remaining@),
                jd@,
                evs(path@),
            ),
        decreases evs(remaining@),
    {
        if remaining.len() == 0 {
            return None;
        }
        let rest = copy_from(&remaining, 1);
        let ghost s = evs(remaining@);
        proof {
            lemma_evs(remaining@);
        }
        assert(s[0] == ev(remaining@[0]));
        match &remaining[0] {
            Exp::If(cond, if_true, if_false) => {
                if is_revert(if_true.as_slice()) {
                    push_exp(
                        &mut path,
                        Exp::Op1(String::from_str("require"), Box::new(Exp::iszero(copy_exp(cond)))),
                    );
                    remaining = rest;
                    continue ;
                }
                if is_revert(if_false.as_slice()) {
                    push_exp(&mut path, Exp::Op1(String::from_str("require"), Box::new(copy_exp(cond))));
                    remaining = copy_exps(if_true);
                    continue ;
                }
                let jds_true = get_jds(if_true);
                let jds_false = get_jds(if_false);
                let in_true = contains_exp(&jds_true, jd);
                let in_false = contains_exp(&jds_false, jd);
                if in_true == in_false {
                    return None;
                }
                if in_true {
                    let inside = add_path_each(if_true, &path);
                    return Some((path, inside, copy_exps(if_false), copy_exp(cond)));
                } else {
                    let inside = add_path_each(if_false, &path);
                    return Some((path, inside, copy_exps(if_true), Exp::iszero(copy_exp(cond))));
                }
            },
            _ => {
                push_exp(&mut path, copy_exp(&remaining[0]));
                remaining = rest;
            },
        }
    }
}

/// The conversion of labels and jumps into loops, with at most `fuel` nested
/// conversions.
fn make_rec(t: &Vec<Exp>, fuel: u64) -> (r: Option<Vec<Exp>>)
    ensures
        match r {
            Some(v) => make_at(evs(t@), 0, fuel as nat) == Some(evs(v@)),
            None => make_at(evs(t@), 0, fuel as nat) is None,
        },
    decreases fuel,
{
    broadcast use lemma_evs;
    if fuel == 0 {
        return None;
    }
    let ghost tv = evs(t@);
    let mut res: Vec<Exp> = Vec::new();
    let mut idx: usize = 0;
    assert(evs(res@) =~= Seq::<ExpV>::empty());
    assert(make_at(tv, 0, fuel as nat) == prefix_opt(evs(res@), make_at(tv, 0, fuel as nat))) by {
        if let Some(m) = make_at(tv, 0, fuel as nat) {
            assert(Seq::<ExpV>::empty() + m =~= m);
        }
    }
    while idx < t.len()
        invariant
            fuel > 0,
            idx <= t.len(),
            tv == evs(t@),
            make_at(tv, 0, fuel as nat) == prefix_opt(evs(res@), make_at(tv, idx as nat, fuel as nat)),
        decreases t.len() - idx,
    {
        proof {
            lemma_evs(t@);
        }
        assert(tv[idx as int] == ev(t@[idx as int]));
        let ghost before = evs(res@);
        match &t[idx] {
            Exp::If(cond, if_true, if_false) => {
                let a = make_rec(if_true, fuel - 1);
                let b = make_rec(if_false, fuel - 1);
                match (a, b) {
                    (Some(a2), Some(b2)) => {
                        let line = Exp::If(Box::new(copy_exp(cond)), a2, b2);
                        proof {
                            lemma_prefix_opt_push(before, line@, make_at(tv, (idx + 1) as nat, fuel as nat));
                        }
                        push_exp(&mut res, line);
                    },
                    _ => {
                        return None;
                    },
                }
            },
            Exp::Label(jd, vars) => {
                let rest = copy_from(t, idx + 1);
                match to_while(&rest, &**jd) {
                    Some((path, inside, remaining, cond)) => {
                        let before_loop = assign_vars_exec(&path, vars);
                        let b2 = make_rec(&before_loop, fuel - 1);
                        let i2 = make_rec(&inside, fuel - 1);
                        let r2 = make_rec(&remaining, fuel - 1);
                        match (b2, i2, r2) {
                            (Some(b2), Some(i2), Some(r2)) => {
                                let ghost bv = evs(b2@);
                                let ghost iv = evs(i2@);
                                let ghost rv = evs(r2@);
                                let line = Exp::While(Box::new(cond), i2);
                                let ghost lv = line@;
                                extend_exps(&mut res, b2);
                                push_exp(&mut res, line);
                                extend_exps(&mut res, r2);
                                assert(before + (bv + seq![lv] + rv) =~= evs(res@));
                                return Some(res);
                            },
                            _ => {
                                return None;
                            },
                        }
                    },
                    None => {},
                }
            },
            _ => {
                let line = copy_exp(&t[idx]);
                proof {
                    lemma_prefix_opt_push(before, line@, make_at(tv, (idx + 1) as nat, fuel as nat));
                }
                push_exp(&mut res, line);
            },
        }
        idx += 1;
    }
    Some(res)
}

/// Turns the labels and jumps of a trace into `while` loops and drops the
/// jump destinations.
pub fn make_whiles(trace: Trace, _timeout: u64) -> (r: Trace)
    ensures
        evs(r@) == make_whiles_spec(evs(trace@)),
{
    match make_rec(&trace, u64::MAX) {
        Some(m) => drop_jumpdest_lines(&m),
        None => trace,
    }
}

} // verus!
