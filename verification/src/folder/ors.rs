//! Alternatives: flattening `or`s, splicing lists, and turning `or`s into `if`s.

use vstd::prelude::*;
use crate::evm_core::types::{
    Exp, ExpV, ev, evs, lemma_evs, lemma_evs_prefix, lemma_push_prefix, copy_exp, copy_exps,
    copy_from, exp_eq, push_exp, extend_exps,
};
use crate::text::str_eq;
use super::spec::{
    is_terminating, flatten_single_spec, ends_line, ends_branch, ends_exec_spec, common_tail,
    try_merge_flatten_spec, flatten_line, flatten_lines, flatten_branch, and_of, splice_line,
    splice_lines, make_if_line, common_head, try_merge_ifs_spec, merge_ifs_at,
};
use super::paths::copy_range;

verus! {

/// Whether an opcode ends execution.
pub fn is_terminating_name(op: &str) -> (r: bool)
    ensures
        r == is_terminating(op@),
{
    str_eq(op, "return") || str_eq(op, "stop") || str_eq(op, "selfdestruct") || str_eq(
        op,
        "invalid",
    ) || str_eq(op, "assert_fail") || str_eq(op, "revert") || str_eq(op, "continue") || str_eq(
        op,
        "undefined",
    )
}

/// The lines of a branch of an `or`.
fn flatten_single(exp: &Exp) -> (r: Vec<Exp>)
    ensures
        evs(r@) == flatten_single_spec(exp@),
{
    if let Exp::OpN(op, args) = exp {
        if str_eq(op.as_str(), "and") {
            return copy_exps(args);
        }
    }
    let r = vec![copy_exp(exp)];
    proof {
        lemma_evs(r@);
    }
    assert(evs(r@) =~= seq![exp@]);
    r
}

/// Whether a line ends execution.
fn ends_line_exec(x: &Exp) -> (r: bool)
    ensures
        r == ends_line(x@),
    decreases x, 0nat,
{
    if is_terminating_name(x.opcode()) {
        return true;
    }
    if let Exp::OpN(op, args) = x {
        proof {
            lemma_evs(args@);
        }
        if str_eq(op.as_str(), "or") && args.len() == 2 {
            assert(decreases_to!(x => args@[0]));
            assert(decreases_to!(x => args@[1]));
            return ends_branch_exec(&args[0]) && ends_branch_exec(&args[1]);
        }
    }
    false
}

/// Whether a branch of an `or` ends execution.
fn ends_branch_exec(x: &Exp) -> (r: bool)
    ensures
        r == ends_branch(x@),
    decreases x, 1nat,
{
    if let Exp::OpN(op, args) = x {
        if str_eq(op.as_str(), "and") {
            proof {
                lemma_evs(args@);
            }
            if args.len() == 0 {
                return false;
            }
            assert(decreases_to!(x => args@[args.len() - 1]));
            return ends_line_exec(&args[args.len() - 1]);
        }
    }
    ends_line_exec(x)
}

/// Whether a path ends execution.
fn ends_exec_vec(path: &Vec<Exp>) -> (r: bool)
    ensures
        r == ends_exec_spec(evs(path@)),
{
    proof {
        lemma_evs(path@);
    }
    if path.len() == 0 {
        return false;
    }
    ends_line_exec(&path[path.len() - 1])
}

/// Two alternatives merged along their common tail.
fn try_merge_flatten(one: &Vec<Exp>, two: &Vec<Exp>) -> (r: Vec<Exp>)
    ensures
        evs(r@) == try_merge_flatten_spec(evs(one@), evs(two@)),
{
    proof {
        lemma_evs(one@);
        lemma_evs(two@);
    }
    let (shorter, longer) = if one.len() > two.len() {
        (two, one)
    } else {
        (one, two)
    };
    let ghost s = evs(shorter@);
    let ghost l = evs(longer@);
    proof {
        lemma_evs(shorter@);
        lemma_evs(longer@);
    }
    let mut idx: usize = 1;
    while idx < shorter.len() && exp_eq(
        &longer[longer.len() - idx],
        &shorter[shorter.len() - idx],
    )
        invariant
            s == evs(shorter@),
            l == evs(longer@),
            s.len() == shorter@.len(),
            l.len() == longer@.len(),
            shorter@.len() <= longer@.len(),
            forall|k: int| 0 <= k < shorter@.len() ==> #[trigger] s[k] == ev(shorter@[k]),
            forall|k: int| 0 <= k < longer@.len() ==> #[trigger] l[k] == ev(longer@[k]),
            1 <= idx,
            idx <= shorter@.len() || idx == 1,
            common_tail(l, s, 1) == common_tail(l, s, idx as nat),
        decreases shorter.len() - idx,
    {
        idx += 1;
    }
    idx -= 1;
    assert(idx == common_tail(l, s, 1));
    let mut r: Vec<Exp> = Vec::new();
    if idx > 0 {
        let mut alts: Vec<Exp> = Vec::new();
        push_exp(&mut alts, Exp::OpN(String::from_str("and"), copy_range(longer, 0, longer.len() - idx)));
        push_exp(
            &mut alts,
            Exp::OpN(String::from_str("and"), copy_range(shorter, 0, shorter.len() - idx)),
        );
        assert(evs(alts@) =~= seq![
            and_of(l.subrange(0, l.len() - idx)),
            and_of(s.subrange(0, s.len() - idx)),
        ]);
        push_exp(&mut r, Exp::OpN(String::from_str("or"), alts));
    } else {
        let mut alts: Vec<Exp> = Vec::new();
        push_exp(&mut alts, Exp::OpN(String::from_str("and"), copy_exps(one)));
        assert(evs(alts@) =~= seq![and_of(evs(one@))]);
        push_exp(&mut r, Exp::OpN(String::from_str("or"), alts));
    }
    proof {
        lemma_evs(r@);
    }
    assert(evs(r@) =~= try_merge_flatten_spec(evs(one@), evs(two@)));
    r
}

/// The flattening of one line (see [`flatten_line`]).
fn flatten_line_exec(x: &Exp) -> (r: Vec<Exp>)
    ensures
        evs(r@) == flatten_line(x@),
    decreases x, 1nat,
{
    if !str_eq(x.opcode(), "or") {
        let r = vec![copy_exp(x)];
        proof {
            lemma_evs(r@);
        }
        assert(evs(r@) =~= seq![x@]);
        return r;
    }
    if let Exp::OpN(op, args) = x {
        proof {
            lemma_evs(args@);
        }
        if str_eq(op.as_str(), "or") && args.len() == 2 {
            let b1 = flatten_single(&args[0]);
            let b2 = flatten_single(&args[1]);
            proof {
                lemma_evs(b1@);
                lemma_evs(b2@);
            }
            if b1.len() == 1 && b2.len() == 1 {
                let r: Vec<Exp> = Vec::new();
                assert(evs(r@) =~= Seq::<ExpV>::empty());
                return r;
            }
            if ends_exec_vec(&b1) {
                return try_merge_flatten(&b1, &b2);
            }
            assert(decreases_to!(x => args@[0]));
            assert(decreases_to!(x => args@[1]));
            let f1 = flatten_branch_exec(&args[0]);
            let f2 = flatten_branch_exec(&args[1]);
            let mut alts: Vec<Exp> = Vec::new();
            let ghost v1 = f1@;
            let ghost v2 = f2@;
            push_exp(&mut alts, f1);
            push_exp(&mut alts, f2);
            assert(evs(alts@) =~= seq![v1, v2]);
            let mut r: Vec<Exp> = Vec::new();
            push_exp(&mut r, Exp::OpN(String::from_str("or"), alts));
            proof {
                lemma_evs(r@);
            }
            assert(evs(r@) =~= flatten_line(x@));
            return r;
        }
    }
    let r = vec![copy_exp(x)];
    proof {
        lemma_evs(r@);
    }
    assert(evs(r@) =~= seq![x@]);
    r
}

/// The flattening of each line of a path.
pub fn flatten_or(s: &Vec<Exp>) -> (r: Vec<Exp>)
    ensures
        evs(r@) == flatten_lines(evs(s@)),
    decreases s, 0nat,
{
    let mut r: Vec<Exp> = Vec::new();
    let mut i: usize = 0;
    assert(evs(r@) =~= flatten_lines(evs(s@.subrange(0, 0)))) by {
        lemma_evs(r@);
        lemma_evs(s@.subrange(0, 0));
    }
    while i < s.len()
        invariant
            i <= s.len(),
            evs(r@) == flatten_lines(evs(s@.subrange(0, i as int))),
        decreases s.len() - i,
    {
        assert(decreases_to!(s => s@[i as int]));
        proof {
            lemma_evs_prefix(s@, i as int);
            lemma_push_prefix(evs(s@.subrange(0, i as int)), ev(s@[i as int]));
        }
        let more = flatten_line_exec(&s[i]);
        extend_exps(&mut r, more);
        i += 1;
    }
    assert(s@.subrange(0, s.len() as int) =~= s@);
    r
}

/// A branch of an `or` flattened.
fn flatten_branch_exec(x: &Exp) -> (r: Exp)
    ensures
        r@ == flatten_branch(x@),
    decreases x, 2nat,
{
    let fl = match x {
        Exp::OpN(op, args) => {
            if str_eq(op.as_str(), "and") {
                flatten_or(args)
            } else {
                flatten_line_exec(x)
            }
        },
        _ => flatten_line_exec(x),
    };
    proof {
        lemma_evs(fl@);
    }
    if fl.len() == 1 {
        copy_exp(&fl[0])
    } else {
        Exp::OpN(String::from_str("and"), fl)
    }
}

/// Every `and` and `or` list of a line spliced in, recursively.
fn splice_line_exec(x: &Exp, out: &mut Vec<Exp>)
    ensures
        evs(final(out)@) == evs(old(out)@) + splice_line(x@),
    decreases x, 1nat,
{
    if let Exp::OpN(op, args) = x {
        if str_eq(op.as_str(), "and") || str_eq(op.as_str(), "or") {
            cleanup_ors_into(args, out);
            return ;
        }
    }
    let ghost before = evs(out@);
    push_exp(out, copy_exp(x));
    assert(evs(out@) =~= before + seq![x@]);
}

fn cleanup_ors_into(s: &Vec<Exp>, out: &mut Vec<Exp>)
    ensures
        evs(final(out)@) == evs(old(out)@) + splice_lines(evs(s@)),
    decreases s, 0nat,
{
    let ghost o0 = evs(out@);
    let mut i: usize = 0;
    assert(o0 + splice_lines(evs(s@.subrange(0, 0))) =~= o0) by {
        lemma_evs(s@.subrange(0, 0));
    }
    while i < s.len()
        invariant
            i <= s.len(),
            evs(out@) == o0 + splice_lines(evs(s@.subrange(0, i as int))),
        decreases s.len() - i,
    {
        assert(decreases_to!(s => s@[i as int]));
        proof {
            lemma_evs_prefix(s@, i as int);
            lemma_push_prefix(evs(s@.subrange(0, i as int)), ev(s@[i as int]));
        }
        splice_line_exec(&s[i], out);
        i += 1;
    }
    assert(s@.subrange(0, s.len() as int) =~= s@);
}

/// A path with every `and` and `or` list spliced in, recursively.
pub fn cleanup_ors(path: &Vec<Exp>) -> (r: Vec<Exp>)
    ensures
        evs(r@) == splice_lines(evs(path@)),
{
    let mut r: Vec<Exp> = Vec::new();
    assert(evs(r@) =~= Seq::<ExpV>::empty()) by {
        lemma_evs(r@);
    }
    cleanup_ors_into(path, &mut r);
    assert(Seq::<ExpV>::empty() + splice_lines(evs(path@)) =~= splice_lines(evs(path@)));
    r
}

/// A two-way `or` of lists as an `if`.
fn make_if(x: &Exp) -> (r: Exp)
    ensures
        r@ == make_if_line(x@),
{
    if !str_eq(x.opcode(), "or") {
        return copy_exp(x);
    }
    if let Exp::OpN(op, args) = x {
        proof {
            lemma_evs(args@);
        }
        if str_eq(op.as_str(), "or") && args.len() == 2 {
            let b1 = flatten_single(&args[0]);
            let b2 = flatten_single(&args[1]);
            proof {
                lemma_evs(b1@);
                lemma_evs(b2@);
            }
            if b1.len() > 0 && b2.len() > 0 {
                return Exp::If(
                    Box::new(copy_exp(&b1[0])),
                    copy_range(&b1, 1, b1.len()),
                    copy_range(&b2, 1, b2.len()),
                );
            }
        }
    }
    copy_exp(x)
}

/// Each two-way `or` of a path as an `if`.
pub fn make_ifs(path: &Vec<Exp>) -> (r: Vec<Exp>)
    ensures
        evs(r@) == evs(path@).map_values(|x: ExpV| make_if_line(x)),
{
    proof {
        lemma_evs(path@);
    }
    let mut r: Vec<Exp> = Vec::new();
    let mut i: usize = 0;
    while i < path.len()
        invariant
            i <= path.len(),
            evs(path@).len() == path@.len(),
            forall|k: int| 0 <= k < path@.len() ==> #[trigger] evs(path@)[k] == ev(path@[k]),
            evs(r@) == evs(path@).subrange(0, i as int).map_values(|x: ExpV| make_if_line(x)),
        decreases path.len() - i,
    {
        push_exp(&mut r, make_if(&path[i]));
        assert(evs(r@) =~= evs(path@).subrange(0, i + 1).map_values(|x: ExpV| make_if_line(x)));
        i += 1;
    }
    assert(evs(path@).subrange(0, path.len() as int) =~= evs(path@));
    r
}

/// An `if` with the lines that both branches start with moved before it.
fn try_merge_ifs(cond: &Exp, if_true: &Vec<Exp>, if_false: &Vec<Exp>) -> (r: (Vec<Exp>, Exp))
    ensures
        evs(r.0@).push(r.1@) == try_merge_ifs_spec(cond@, evs(if_true@), evs(if_false@)),
{
    proof {
        lemma_evs(if_true@);
        lemma_evs(if_false@);
    }
    let ghost t = evs(if_true@);
    let ghost f = evs(if_false@);
    let mut idx: usize = 0;
    assert(common_head(t, f, 0) == common_head(t, f, 0));
    while idx < if_true.len() && idx < if_false.len() && exp_eq(&if_true[idx], &if_false[idx])
        invariant
            t == evs(if_true@),
            f == evs(if_false@),
            t.len() == if_true@.len(),
            f.len() == if_false@.len(),
            forall|k: int| 0 <= k < if_true@.len() ==> #[trigger] t[k] == ev(if_true@[k]),
            forall|k: int| 0 <= k < if_false@.len() ==> #[trigger] f[k] == ev(if_false@[k]),
            idx <= if_true@.len(),
            idx <= if_false@.len(),
            common_head(t, f, 0) == common_head(t, f, idx as nat),
        decreases if_true.len() - idx,
    {
        idx += 1;
    }
    assert(idx == common_head(t, f, 0));
    let lines = copy_range(if_true, 0, idx);
    let merged = Exp::If(
        Box::new(copy_exp(cond)),
        copy_from(if_true, idx),
        copy_from(if_false, idx),
    );
    (lines, merged)
}

/// The `if`s of a path merged (see [`merge_ifs_at`]).
pub fn merge_ifs(path: &Vec<Exp>) -> (r: Vec<Exp>)
    ensures
        evs(r@) == merge_ifs_at(evs(path@), 0),
    decreases evs(path@),
{
    let ghost p = evs(path@);
    proof {
        lemma_evs(path@);
    }
    let mut ret: Vec<Exp> = Vec::new();
    let mut idx: usize = 0;
    assert(evs(ret@) =~= Seq::<ExpV>::empty()) by {
        lemma_evs(ret@);
    }
    assert(merge_ifs_at(p, 0) == Seq::<ExpV>::empty() + merge_ifs_at(p, 0));
    while idx < path.len()
        invariant
            idx <= path.len(),
            p == evs(path@),
            p.len() == path@.len(),
            forall|k: int| 0 <= k < path@.len() ==> #[trigger] p[k] == ev(path@[k]),
            merge_ifs_at(p, 0) == evs(ret@) + merge_ifs_at(p, idx as nat),
        decreases path.len() - idx,
    {
        let ghost before = evs(ret@);
        assert(p[idx as int] == ev(path@[idx as int]));
        match &path[idx] {
            Exp::If(c, t, f) => {
                assert(decreases_to!(p => p[idx as int]));
                if f.len() == 0 {
                    proof {
                        lemma_evs(f@);
                    }
                    let merged_true = merge_ifs(t);
                    let rest = copy_from(path, idx + 1);
                    let merged_false = merge_ifs(&rest);
                    let (lines, merged) = try_merge_ifs(c, &merged_true, &merged_false);
                    extend_exps(&mut ret, lines);
                    push_exp(&mut ret, merged);
                    assert(evs(ret@) =~= before + try_merge_ifs_spec(
                        c@,
                        evs(merged_true@),
                        evs(merged_false@),
                    ));
                    return ret;
                } else {
                    proof {
                        lemma_evs(f@);
                    }
                    let merged_true = merge_ifs(t);
                    let merged_false = merge_ifs(f);
                    let (lines, merged) = try_merge_ifs(c, &merged_true, &merged_false);
                    extend_exps(&mut ret, lines);
                    push_exp(&mut ret, merged);
                    assert(before + (try_merge_ifs_spec(c@, evs(merged_true@), evs(merged_false@))
                        + merge_ifs_at(p, (idx + 1) as nat)) =~= evs(ret@) + merge_ifs_at(
                        p,
                        (idx + 1) as nat,
                    ));
                }
            },
            _ => {
                push_exp(&mut ret, copy_exp(&path[idx]));
                assert(before + (seq![p[idx as int]] + merge_ifs_at(p, (idx + 1) as nat)) =~= evs(ret@)
                    + merge_ifs_at(p, (idx + 1) as nat));
            },
        }
        idx += 1;
    }
    assert(evs(ret@) + merge_ifs_at(p, idx as nat) =~= evs(ret@));
    ret
}

} // verus!
