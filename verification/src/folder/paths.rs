//! Paths: rewriting nodes, unfolding a trace into paths, and the pieces of
//! the merge of paths.

use vstd::prelude::*;
use crate::evm_core::types::{
    Exp, ExpV, ev, evs, lemma_evs, lemma_evs_prefix, lemma_evs_subrange, copy_exp, copy_exps,
    copy_triples, exp_eq, push_exp, extend_exps,
};
use crate::text::str_eq;
use super::spec::{
    evss, make_fands_spec, unmake_fands_spec, rewrite_node, replace_f_spec, replace_f_seq, paths_at, non_empty, insert_by_len, sort_by_len, with_prefix, with_suffix, starting_with_spec, ending_with_spec, begin_from, end_from, begin_offset_spec, end_offset_spec, first_or_null, and_of, make_or_spec, collect_spec, and_op_path_spec,
};

verus! {

proof fn lemma_replace_f_seq(s: Seq<ExpV>, make: bool)
    ensures
        replace_f_seq(s, make).len() == s.len(),
        forall|k: int|
            0 <= k < s.len() ==> #[trigger] replace_f_seq(s, make)[k] == replace_f_spec(s[k], make),
    decreases s.len(),
{
    if s.len() > 0 {
        lemma_replace_f_seq(s.subrange(0, s.len() - 1), make);
    }
}

/// `or` and `and` of two operands become the lists `for` and `fand`.
fn make_fands(exp: &Exp) -> (r: Exp)
    ensures
        r@ == make_fands_spec(exp@),
{
    proof {
        reveal_with_fuel(ev, 2);
    }
    if let Exp::Op2(op, a, b) = exp {
        if str_eq(op.as_str(), "or") {
            let v = vec![copy_exp(a), copy_exp(b)];
            proof {
                lemma_evs(v@);
            }
            assert(evs(v@) =~= seq![a@, b@]);
            return Exp::OpN(String::from_str("for"), v);
        }
        if str_eq(op.as_str(), "and") {
            let v = vec![copy_exp(a), copy_exp(b)];
            proof {
                lemma_evs(v@);
            }
            assert(evs(v@) =~= seq![a@, b@]);
            return Exp::OpN(String::from_str("fand"), v);
        }
    }
    copy_exp(exp)
}

/// Two-element lists `for` and `fand` become `or` and `and` again.
fn unmake_fands(exp: &Exp) -> (r: Exp)
    ensures
        r@ == unmake_fands_spec(exp@),
{
    proof {
        reveal_with_fuel(ev, 2);
    }
    if let Exp::OpN(op, args) = exp {
        proof {
            lemma_evs(args@);
        }
        if str_eq(op.as_str(), "for") && args.len() == 2 {
            return Exp::Op2(
                String::from_str("or"),
                Box::new(copy_exp(&args[0])),
                Box::new(copy_exp(&args[1])),
            );
        }
        if str_eq(op.as_str(), "fand") && args.len() == 2 {
            return Exp::Op2(
                String::from_str("and"),
                Box::new(copy_exp(&args[0])),
                Box::new(copy_exp(&args[1])),
            );
        }
    }
    copy_exp(exp)
}

fn rewrite(exp: &Exp, make: bool) -> (r: Exp)
    ensures
        r@ == rewrite_node(exp@, make),
{
    if make {
        make_fands(exp)
    } else {
        unmake_fands(exp)
    }
}

/// An expression with every node rewritten, children first.
pub fn replace_f_exp(exp: &Exp, make: bool) -> (r: Exp)
    ensures
        r@ == replace_f_spec(exp@, make),
    decreases exp,
{
    let transformed = match exp {
        Exp::Op1(op, a) => Exp::Op1(op.clone(), Box::new(replace_f_exp(a, make))),
        Exp::Op2(op, a, b) => Exp::Op2(
            op.clone(),
            Box::new(replace_f_exp(a, make)),
            Box::new(replace_f_exp(b, make)),
        ),
        Exp::Op3(op, a, b, c) => Exp::Op3(
            op.clone(),
            Box::new(replace_f_exp(a, make)),
            Box::new(replace_f_exp(b, make)),
            Box::new(replace_f_exp(c, make)),
        ),
        Exp::Op4(op, a, b, c, d) => Exp::Op4(
            op.clone(),
            Box::new(replace_f_exp(a, make)),
            Box::new(replace_f_exp(b, make)),
            Box::new(replace_f_exp(c, make)),
            Box::new(replace_f_exp(d, make)),
        ),
        Exp::OpN(op, args) => Exp::OpN(op.clone(), replace_f(args, make)),
        Exp::If(c, t, f) => Exp::If(
            Box::new(replace_f_exp(c, make)),
            replace_f(t, make),
            replace_f(f, make),
        ),
        Exp::While(c, b) => Exp::While(Box::new(replace_f_exp(c, make)), replace_f(b, make)),
        Exp::Loop(l, b, j, vs) => Exp::Loop(
            Box::new(replace_f_exp(l, make)),
            replace_f(b, make),
            copy_exps(j),
            copy_triples(vs),
        ),
        Exp::Label(t, vs) => Exp::Label(Box::new(replace_f_exp(t, make)), copy_triples(vs)),
        Exp::Goto(t, vs) => Exp::Goto(Box::new(replace_f_exp(t, make)), copy_triples(vs)),
        _ => copy_exp(exp),
    };
    rewrite(&transformed, make)
}

/// Each expression of a trace rewritten.
pub fn replace_f(trace: &Vec<Exp>, make: bool) -> (r: Vec<Exp>)
    ensures
        evs(r@) == replace_f_seq(evs(trace@), make),
    decreases trace,
{
    broadcast use crate::evm_core::types::lemma_evs;
    let mut r: Vec<Exp> = Vec::new();
    let mut i: usize = 0;
    while i < trace.len()
        invariant
            i <= trace.len(),
            r@.len() == i,
            forall|k: int| 0 <= k < i ==> ev(#[trigger] r@[k]) == replace_f_spec(ev(trace@[k]), make),
        decreases trace.len() - i,
    {
        assert(decreases_to!(trace => trace@[i as int]));
        r.push(replace_f_exp(&trace[i], make));
        i += 1;
    }
    proof {
        lemma_replace_f_seq(evs(trace@), make);
    }
    assert(evs(r@) =~= replace_f_seq(evs(trace@), make));
    r
}

/// A path with one more list of lines at the end.
pub fn push_path(v: &mut Vec<Vec<Exp>>, p: Vec<Exp>)
    ensures
        evss(final(v)@) == evss(old(v)@).push(evs(p@)),
{
    let ghost before = v@;
    v.push(p);
    assert(evss(v@) =~= evss(before).push(evs(p@)));
}

/// The lines of `a` from `from` to `to`.
pub fn copy_range(a: &Vec<Exp>, from: usize, to: usize) -> (r: Vec<Exp>)
    requires
        from <= to <= a.len(),
    ensures
        evs(r@) == evs(a@).subrange(from as int, to as int),
{
    proof {
        lemma_evs(a@);
    }
    let mut r: Vec<Exp> = Vec::new();
    let mut i: usize = from;
    while i < to
        invariant
            from <= i <= to <= a.len(),
            evs(a@).len() == a@.len(),
            forall|k: int| 0 <= k < a@.len() ==> #[trigger] evs(a@)[k] == ev(a@[k]),
            evs(r@) == evs(a@).subrange(from as int, i as int),
        decreases to - i,
    {
        let ghost before = evs(r@);
        push_exp(&mut r, copy_exp(&a[i]));
        assert(evs(r@) =~= evs(a@).subrange(from as int, i + 1));
        i += 1;
    }
    r
}

/// Whether `n` lines of `a` from `a0` equal `n` lines of `b` from `b0`.
pub fn seg_eq(a: &Vec<Exp>, a0: usize, b: &Vec<Exp>, b0: usize, n: usize) -> (r: bool)
    requires
        a0 + n <= a.len(),
        b0 + n <= b.len(),
    ensures
        r == (evs(a@).subrange(a0 as int, a0 + n) == evs(b@).subrange(b0 as int, b0 + n)),
{
    proof {
        lemma_evs(a@);
        lemma_evs(b@);
    }
    let mut k: usize = 0;
    while k < n
        invariant
            k <= n,
            a0 + n <= a.len(),
            b0 + n <= b.len(),
            evs(a@).len() == a@.len(),
            evs(b@).len() == b@.len(),
            forall|q: int| 0 <= q < a@.len() ==> #[trigger] evs(a@)[q] == ev(a@[q]),
            forall|q: int| 0 <= q < b@.len() ==> #[trigger] evs(b@)[q] == ev(b@[q]),
            forall|q: int| 0 <= q < k ==> #[trigger] evs(a@).subrange(a0 as int, a0 + n)[q] == evs(b@).subrange(b0 as int, b0 + n)[q],
        decreases n - k,
    {
        if !exp_eq(&a[a0 + k], &b[b0 + k]) {
            assert(evs(a@).subrange(a0 as int, a0 + n)[k as int] != evs(b@).subrange(b0 as int, b0 + n)[k as int]);
            return false;
        }
        k += 1;
    }
    assert(evs(a@).subrange(a0 as int, a0 + n) =~= evs(b@).subrange(b0 as int, b0 + n));
    true
}

/// The branchless paths of a trace after `path` (see [`paths_at`]).
pub fn as_paths_inner(trace: &Vec<Exp>, path: &Vec<Exp>) -> (r: Vec<Vec<Exp>>)
    ensures
        evss(r@) == paths_at(evs(trace@), 0, evs(path@)),
{
    paths_from(trace, 0, path)
}

/// The branchless paths of a trace from line `start` on, after `path`.
fn paths_from(trace: &Vec<Exp>, start: usize, path: &Vec<Exp>) -> (r: Vec<Vec<Exp>>)
    requires
        start <= trace@.len(),
    ensures
        evss(r@) == paths_at(evs(trace@), start as nat, evs(path@)),
    decreases trace, trace@.len() - start,
{
    let ghost t = evs(trace@);
    let mut current = copy_exps(path);
    let mut i: usize = start;
    proof {
        lemma_evs(trace@);
    }
    while i < trace.len()
        invariant
            start <= i <= trace.len(),
            t == evs(trace@),
            t.len() == trace@.len(),
            paths_at(t, start as nat, evs(path@)) == paths_at(t, i as nat, evs(current@)),
        decreases trace.len() - i,
    {
        proof {
            lemma_evs(trace@);
            reveal_with_fuel(ev, 2);
        }
        assert(t[i as int] == ev(trace@[i as int]));
        match &trace[i] {
            Exp::If(cond, if_true, if_false) => {
                assert(decreases_to!(trace => trace@[i as int]));
                let mut true_path = copy_exps(&current);
                push_exp(&mut true_path, copy_exp(cond));
                let mut false_path = copy_exps(&current);
                push_exp(&mut false_path, Exp::iszero(copy_exp(cond)));
                let mut branches = paths_from(if_true, 0, &true_path);
                let mut others = paths_from(if_false, 0, &false_path);
                let ghost b1 = branches@;
                let ghost b2 = others@;
                branches.append(&mut others);
                assert(evss(branches@) =~= evss(b1) + evss(b2));
                return branches;
            },
            Exp::Loop(label, body, _, _) => {
                assert(decreases_to!(trace => trace@[i as int]));
                push_exp(
                    &mut current,
                    Exp::Op2(String::from_str("LOOP"), Box::new(copy_exp(label)), Box::new(Exp::Null)),
                );
                return paths_from(body, 0, &current);
            },
            _ => {
                push_exp(&mut current, copy_exp(&trace[i]));
            },
        }
        i += 1;
    }
    assert(paths_at(t, i as nat, evs(current@)) == seq![evs(current@)]);
    let mut r: Vec<Vec<Exp>> = Vec::new();
    push_path(&mut r, current);
    assert(evss(r@) =~= seq![evs(current@)]);
    r
}

/// The non-empty paths.
pub fn non_empty_paths(paths: Vec<Vec<Exp>>) -> (r: Vec<Vec<Exp>>)
    ensures
        evss(r@) == non_empty(evss(paths@)),
{
    let ghost ps = evss(paths@);
    let mut r: Vec<Vec<Exp>> = Vec::new();
    let mut i: usize = 0;
    while i < paths.len()
        invariant
            i <= paths.len(),
            ps == evss(paths@),
            evss(r@) == non_empty(ps.subrange(0, i as int)),
        decreases paths.len() - i,
    {
        proof {
            lemma_evs(paths@[i as int]@);
            assert(ps.subrange(0, i + 1).drop_last() =~= ps.subrange(0, i as int));
        }
        if paths[i].len() > 0 {
            push_path(&mut r, copy_exps(&paths[i]));
        }
        i += 1;
    }
    assert(ps.subrange(0, paths.len() as int) =~= ps);
    r
}

/// `x` put into a list sorted by decreasing length, after every path at least as long.
fn insert_path(sorted: &mut Vec<Vec<Exp>>, x: Vec<Exp>)
    ensures
        evss(final(sorted)@) == insert_by_len(evss(old(sorted)@), evs(x@)),
{
    proof {
        lemma_evs(x@);
    }
    let ghost s0 = evss(sorted@);
    let mut pos = sorted.len();
    assert(s0.subrange(0, s0.len() as int) =~= s0);
    assert(insert_by_len(s0, evs(x@)) + s0.subrange(s0.len() as int, s0.len() as int) =~= insert_by_len(
        s0,
        evs(x@),
    ));
    while pos > 0 && sorted[pos - 1].len() < x.len()
        invariant
            pos <= sorted.len(),
            s0 == evss(sorted@),
            evs(x@).len() == x@.len(),
            insert_by_len(s0, evs(x@)) == insert_by_len(s0.subrange(0, pos as int), evs(x@)) + s0.subrange(
                pos as int,
                s0.len() as int,
            ),
        decreases pos,
    {
        proof {
            lemma_evs(sorted@[pos - 1]@);
            let p = s0.subrange(0, pos as int);
            assert(p.drop_last() =~= s0.subrange(0, pos - 1));
            assert(insert_by_len(p, evs(x@)) == insert_by_len(p.drop_last(), evs(x@)).push(p.last()));
            assert(insert_by_len(s0.subrange(0, pos - 1), evs(x@)).push(p.last()) + s0.subrange(
                pos as int,
                s0.len() as int,
            ) =~= insert_by_len(s0.subrange(0, pos - 1), evs(x@)) + s0.subrange(
                pos - 1,
                s0.len() as int,
            ));
        }
        pos -= 1;
    }
    proof {
        let p = s0.subrange(0, pos as int);
        if pos > 0 {
            lemma_evs(sorted@[pos - 1]@);
            assert(insert_by_len(p, evs(x@)) == p.push(evs(x@)));
        } else {
            assert(insert_by_len(p, evs(x@)) == seq![evs(x@)]);
        }
    }
    let ghost before = sorted@;
    sorted.insert(pos, x);
    assert(evss(sorted@) =~= s0.subrange(0, pos as int).push(evss(sorted@)[pos as int]) + s0.subrange(
        pos as int,
        s0.len() as int,
    ));
}

/// Paths sorted by decreasing length, keeping the order of paths of equal length.
pub fn sort_paths(paths: Vec<Vec<Exp>>) -> (r: Vec<Vec<Exp>>)
    ensures
        evss(r@) == sort_by_len(evss(paths@)),
{
    let ghost ps = evss(paths@);
    let mut r: Vec<Vec<Exp>> = Vec::new();
    let mut i: usize = 0;
    while i < paths.len()
        invariant
            i <= paths.len(),
            ps == evss(paths@),
            evss(r@) == sort_by_len(ps.subrange(0, i as int)),
        decreases paths.len() - i,
    {
        proof {
            assert(ps.subrange(0, i + 1).drop_last() =~= ps.subrange(0, i as int));
        }
        insert_path(&mut r, copy_exps(&paths[i]));
        i += 1;
    }
    assert(ps.subrange(0, paths.len() as int) =~= ps);
    r
}

/// The rests of the paths that start with `prefix`.
fn with_prefix_paths(paths: &Vec<Vec<Exp>>, prefix: &Vec<Exp>) -> (r: Vec<Vec<Exp>>)
    ensures
        evss(r@) == with_prefix(evss(paths@), evs(prefix@)),
{
    proof {
        lemma_evs(prefix@);
    }
    let ghost ps = evss(paths@);
    let mut r: Vec<Vec<Exp>> = Vec::new();
    let mut i: usize = 0;
    while i < paths.len()
        invariant
            i <= paths.len(),
            ps == evss(paths@),
            evs(prefix@).len() == prefix@.len(),
            evss(r@) == with_prefix(ps.subrange(0, i as int), evs(prefix@)),
        decreases paths.len() - i,
    {
        let p = &paths[i];
        proof {
            lemma_evs(p@);
            assert(ps.subrange(0, i + 1).drop_last() =~= ps.subrange(0, i as int));
        }
        if p.len() >= prefix.len() && seg_eq(p, 0, prefix, 0, prefix.len()) {
            assert(evs(prefix@).subrange(0, prefix.len() as int) =~= evs(prefix@));
            push_path(&mut r, copy_range(p, prefix.len(), p.len()));
        } else {
            proof {
                if p.len() >= prefix.len() {
                    assert(evs(prefix@).subrange(0, prefix.len() as int) =~= evs(prefix@));
                }
            }
        }
        i += 1;
    }
    assert(ps.subrange(0, paths.len() as int) =~= ps);
    r
}

/// The fronts of the paths that end with `suffix`.
fn with_suffix_paths(paths: &Vec<Vec<Exp>>, suffix: &Vec<Exp>) -> (r: Vec<Vec<Exp>>)
    ensures
        evss(r@) == with_suffix(evss(paths@), evs(suffix@)),
{
    proof {
        lemma_evs(suffix@);
    }
    let ghost ps = evss(paths@);
    let mut r: Vec<Vec<Exp>> = Vec::new();
    let mut i: usize = 0;
    while i < paths.len()
        invariant
            i <= paths.len(),
            ps == evss(paths@),
            evs(suffix@).len() == suffix@.len(),
            evss(r@) == with_suffix(ps.subrange(0, i as int), evs(suffix@)),
        decreases paths.len() - i,
    {
        let p = &paths[i];
        proof {
            lemma_evs(p@);
            assert(ps.subrange(0, i + 1).drop_last() =~= ps.subrange(0, i as int));
        }
        if p.len() >= suffix.len() && seg_eq(p, p.len() - suffix.len(), suffix, 0, suffix.len()) {
            assert(evs(suffix@).subrange(0, suffix.len() as int) =~= evs(suffix@));
            push_path(&mut r, copy_range(p, 0, p.len() - suffix.len()));
        } else {
            proof {
                if p.len() >= suffix.len() {
                    assert(evs(suffix@).subrange(0, suffix.len() as int) =~= evs(suffix@));
                }
            }
        }
        i += 1;
    }
    assert(ps.subrange(0, paths.len() as int) =~= ps);
    r
}

/// The rests of the paths that share the first path's first `offset` lines.
pub fn starting_with_or(paths: &Vec<Vec<Exp>>, offset: usize) -> (r: Vec<Vec<Exp>>)
    ensures
        evss(r@) == starting_with_spec(evss(paths@), offset as nat),
{
    if offset == 0 || paths.len() == 0 || offset > paths[0].len() {
        proof {
            if paths.len() > 0 {
                lemma_evs(paths@[0]@);
            }
        }
        let r: Vec<Vec<Exp>> = Vec::new();
        assert(evss(r@) =~= Seq::<Seq<ExpV>>::empty());
        return r;
    }
    proof {
        lemma_evs(paths@[0]@);
    }
    let prefix = copy_range(&paths[0], 0, offset);
    with_prefix_paths(paths, &prefix)
}

/// The fronts of the paths that share the first path's last `offset` lines.
pub fn ending_with_or(paths: &Vec<Vec<Exp>>, offset: usize) -> (r: Vec<Vec<Exp>>)
    ensures
        evss(r@) == ending_with_spec(evss(paths@), offset as nat),
{
    if offset == 0 || paths.len() == 0 || offset > paths[0].len() {
        proof {
            if paths.len() > 0 {
                lemma_evs(paths@[0]@);
            }
        }
        let r: Vec<Vec<Exp>> = Vec::new();
        assert(evss(r@) =~= Seq::<Seq<ExpV>>::empty());
        return r;
    }
    proof {
        lemma_evs(paths@[0]@);
    }
    let suffix = copy_range(&paths[0], paths[0].len() - offset, paths[0].len());
    ending_with_paths_of(paths, &suffix)
}

fn ending_with_paths_of(paths: &Vec<Vec<Exp>>, suffix: &Vec<Exp>) -> (r: Vec<Vec<Exp>>)
    ensures
        evss(r@) == with_suffix(evss(paths@), evs(suffix@)),
{
    with_suffix_paths(paths, suffix)
}

/// The length of the prefix that all paths share.
pub fn compute_begin_offset(sorted: &Vec<Vec<Exp>>) -> (r: usize)
    requires
        sorted.len() > 0,
    ensures
        r == begin_offset_spec(evss(sorted@)),
{
    let ghost ps = evss(sorted@);
    proof {
        lemma_evs(sorted@[0]@);
    }
    let mut idx: usize = 0;
    while idx < sorted[0].len() && starting_with_or(sorted, idx + 1).len() == sorted.len()
        invariant
            ps == evss(sorted@),
            sorted.len() > 0,
            ps[0].len() == sorted@[0].len(),
            idx <= sorted@[0].len(),
            begin_from(ps, 0) == begin_from(ps, idx as nat),
        decreases sorted@[0].len() - idx,
    {
        idx += 1;
    }
    idx
}

/// The length of the suffix that all paths share.
pub fn compute_end_offset(sorted: &Vec<Vec<Exp>>) -> (r: usize)
    requires
        sorted.len() > 0,
    ensures
        r == end_offset_spec(evss(sorted@)),
{
    let ghost ps = evss(sorted@);
    proof {
        lemma_evs(sorted@[0]@);
    }
    let mut k: usize = 0;
    while k < sorted[0].len() && ending_with_or(sorted, k + 1).len() == sorted.len()
        invariant
            ps == evss(sorted@),
            sorted.len() > 0,
            ps[0].len() == sorted@[0].len(),
            k <= sorted@[0].len(),
            end_from(ps, 1) == end_from(ps, (k + 1) as nat),
        decreases sorted@[0].len() - k,
    {
        k += 1;
    }
    k
}

/// Alternatives of paths as an `or` of `and` lists (see [`make_or_spec`]).
pub fn make_or(paths: &Vec<Vec<Exp>>) -> (r: Exp)
    ensures
        r@ == make_or_spec(evss(paths@)),
{
    let ghost ps = evss(paths@);
    if paths.len() == 0 {
        return Exp::Null;
    }
    proof {
        lemma_evs(paths@[0]@);
    }
    if paths.len() == 1 {
        if paths[0].len() == 0 {
            return Exp::Null;
        }
        return Exp::OpN(String::from_str("and"), copy_exps(&paths[0]));
    }
    let null = Exp::Null;
    let first_first: &Exp = if paths[0].len() > 0 {
        &paths[0][0]
    } else {
        &null
    };
    assert(first_first@ == first_or_null(ps[0]));
    let mut same = true;
    let mut i: usize = 1;
    while i < paths.len()
        invariant
            1 <= i <= paths.len(),
            ps == evss(paths@),
            first_first@ == first_or_null(ps[0]),
            null@ == ExpV::Null,
            same == forall|k: int| 1 <= k < i ==> first_or_null(#[trigger] ps[k]) == first_or_null(ps[0]),
        decreases paths.len() - i,
    {
        proof {
            lemma_evs(paths@[i as int]@);
        }
        let p = &paths[i];
        assert(ps[i as int] == evs(paths@[i as int]@));
        let eq = if p.len() > 0 {
            exp_eq(&p[0], first_first)
        } else {
            exp_eq(&null, first_first)
        };
        assert(eq == (first_or_null(ps[i as int]) == first_or_null(ps[0])));
        if !eq {
            same = false;
        }
        i += 1;
    }
    let mut results: Vec<Exp> = Vec::new();
    let mut j: usize = 0;
    while j < paths.len()
        invariant
            j <= paths.len(),
            ps == evss(paths@),
            evs(results@) == ps.subrange(0, j as int).map_values(
                |p: Seq<ExpV>|
                    if same {
                        if p.len() > 1 {
                            and_of(p.subrange(1, p.len() as int))
                        } else {
                            ExpV::Null
                        }
                    } else {
                        and_of(p)
                    },
            ),
        decreases paths.len() - j,
    {
        proof {
            lemma_evs(paths@[j as int]@);
        }
        let p = &paths[j];
        let item = if same {
            if p.len() > 1 {
                Exp::OpN(String::from_str("and"), copy_range(p, 1, p.len()))
            } else {
                Exp::Null
            }
        } else {
            Exp::OpN(String::from_str("and"), copy_exps(p))
        };
        push_exp(&mut results, item);
        j += 1;
    }
    assert(ps.subrange(0, paths.len() as int) =~= ps);
    if same {
        assert(evs(results@) =~= ps.map_values(
            |p: Seq<ExpV>|
                if p.len() > 1 {
                    and_of(p.subrange(1, p.len() as int))
                } else {
                    ExpV::Null
                },
        ));
    } else {
        assert(evs(results@) =~= ps.map_values(|p: Seq<ExpV>| and_of(p)));
    }
    Exp::OpN(String::from_str("or"), results)
}

/// The rests of the `or` variants that start with `prefix` (see [`collect_spec`]).
pub fn collect_starting_with(variants: &Vec<Exp>, prefix: &Vec<Exp>) -> (r: Vec<Vec<Exp>>)
    ensures
        evss(r@) == collect_spec(evs(variants@), evs(prefix@)),
{
    proof {
        lemma_evs(variants@);
        lemma_evs(prefix@);
    }
    let ghost v = evs(variants@);
    let ghost pre = evs(prefix@);
    let mut r: Vec<Vec<Exp>> = Vec::new();
    let mut i: usize = 0;
    assert(v.subrange(0, v.len() as int) =~= v);
    while i < variants.len()
        invariant
            i <= variants.len(),
            v == evs(variants@),
            pre == evs(prefix@),
            pre.len() == prefix@.len(),
            v.len() == variants@.len(),
            forall|k: int| 0 <= k < variants@.len() ==> #[trigger] v[k] == ev(variants@[k]),
            collect_spec(v, pre) == evss(r@) + collect_spec(v.subrange(i as int, v.len() as int), pre),
        decreases variants.len() - i,
    {
        let ghost rest = v.subrange(i as int, v.len() as int);
        assert(rest[0] == v[i as int]);
        assert(rest.drop_first() =~= v.subrange(i + 1, v.len() as int));
        match &variants[i] {
            Exp::OpN(_, args) => {
                proof {
                    lemma_evs(args@);
                }
                if args.len() >= prefix.len() && seg_eq(args, 0, prefix, 0, prefix.len()) {
                    assert(pre.subrange(0, pre.len() as int) =~= pre);
                    let ghost before = evss(r@);
                    push_path(&mut r, copy_range(args, prefix.len(), args.len()));
                    assert(before + (seq![evs(args@).subrange(prefix.len() as int, args.len() as int)]
                        + collect_spec(v.subrange(i + 1, v.len() as int), pre)) =~= evss(r@)
                        + collect_spec(v.subrange(i + 1, v.len() as int), pre));
                } else {
                    proof {
                        if args.len() >= prefix.len() {
                            assert(pre.subrange(0, pre.len() as int) =~= pre);
                        }
                    }
                }
            },
            _ => {
                assert(evss(r@) + Seq::<Seq<ExpV>>::empty() =~= evss(r@));
                return r;
            },
        }
        i += 1;
    }
    assert(evss(r@) + collect_spec(v.subrange(i as int, v.len() as int), pre) =~= evss(r@));
    r
}

/// `first` put in front of a folded path.
pub fn and_op_path(first: &Exp, path: &Vec<Exp>) -> (r: Exp)
    ensures
        r@ == and_op_path_spec(first@, evs(path@)),
{
    proof {
        lemma_evs(path@);
    }
    if path.len() == 0 {
        return copy_exp(first);
    }
    if path.len() == 1 {
        if let Exp::OpN(_, args) = &path[0] {
            let mut combined: Vec<Exp> = Vec::new();
            push_exp(&mut combined, copy_exp(first));
            extend_exps(&mut combined, copy_exps(args));
            assert(evs(combined@) =~= seq![first@] + evs(args@));
            return Exp::OpN(String::from_str("and"), combined);
        }
    }
    let mut combined: Vec<Exp> = Vec::new();
    push_exp(&mut combined, copy_exp(first));
    extend_exps(&mut combined, copy_exps(path));
    assert(evs(combined@) =~= seq![first@] + evs(path@));
    Exp::OpN(String::from_str("and"), combined)
}

} // verus!
