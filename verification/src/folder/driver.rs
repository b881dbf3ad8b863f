//! Folding: merging paths, splitting alternatives, and folding loop bodies.

use vstd::prelude::*;
use crate::evm_core::types::{
    Exp, ExpV, ev, evs, lemma_evs, copy_exp, copy_exps, exps_eq, push_exp, extend_exps,
};
use crate::text::str_eq;
use crate::whiles::prefix_opt;
use super::spec::{
    evss, fold_paths_spec, fold_merged, fold_or_line_spec, meta_fold_spec, fold_spec, fold_aux_spec,
    fold_result, fold_fuel, as_paths_spec, merged_lines, sort_by_len, begin_from, end_from,
    begin_offset_spec, end_offset_spec, starting_with_spec, ending_with_spec, longest_from,
    shortest_from, variant_len, split_search, split_found, collect_spec, first_elems, post_merge,
    make_or_spec, and_op_path_spec, false_terminates, ends_terminating, replace_f_seq,
};
use super::paths::{
    replace_f, as_paths_inner, non_empty_paths, sort_paths, compute_begin_offset,
    compute_end_offset, starting_with_or, ending_with_or, make_or, collect_starting_with,
    and_op_path, copy_range, push_path,
};
use super::ors::{flatten_or, cleanup_ors, make_ifs, merge_ifs, is_terminating_name};

verus! {

/// The values of an optional trace.
pub open spec fn opt_evs(o: Option<Vec<Exp>>) -> Option<Seq<ExpV>> {
    match o {
        Some(v) => Some(evs(v@)),
        None => None,
    }
}

proof fn lemma_begin_le(s: Seq<Seq<ExpV>>, idx: nat)
    requires
        s.len() > 0,
        idx <= s[0].len(),
    ensures
        begin_from(s, idx) <= s[0].len(),
    decreases s[0].len() - idx,
{
    if idx + 1 <= s[0].len() && starting_with_spec(s, idx + 1).len() == s.len() {
        lemma_begin_le(s, idx + 1);
    }
}

proof fn lemma_end_le(s: Seq<Seq<ExpV>>, idx: nat)
    requires
        s.len() > 0,
        idx <= s[0].len() + 1,
    ensures
        end_from(s, idx) <= s[0].len() + 1,
    decreases s[0].len() + 1 - idx,
{
    if idx <= s[0].len() && ending_with_spec(s, idx).len() == s.len() {
        lemma_end_le(s, idx + 1);
    }
}

/// Whether two lists of paths are equal.
fn paths_eq(a: &Vec<Vec<Exp>>, b: &Vec<Vec<Exp>>) -> (r: bool)
    ensures
        r == (evss(a@) == evss(b@)),
{
    if a.len() != b.len() {
        assert(evss(a@).len() != evss(b@).len());
        return false;
    }
    let mut i: usize = 0;
    while i < a.len()
        invariant
            i <= a.len(),
            a.len() == b.len(),
            forall|k: int| 0 <= k < i ==> evss(a@)[k] == evss(b@)[k],
        decreases a.len() - i,
    {
        if !exps_eq(&a[i], &b[i]) {
            assert(evss(a@)[i as int] != evss(b@)[i as int]);
            return false;
        }
        i += 1;
    }
    assert(evss(a@) =~= evss(b@));
    true
}

/// Paths merged into one trace, with at most `fuel` levels of nesting.
fn fold_paths(for_merge: Vec<Vec<Exp>>, fuel: u64) -> (r: Option<Vec<Exp>>)
    ensures
        opt_evs(r) == fold_paths_spec(evss(for_merge@), fuel as nat),
    decreases fuel, 0nat,
{
    if fuel == 0 {
        return None;
    }
    if for_merge.len() == 0 {
        let r: Vec<Exp> = Vec::new();
        assert(evs(r@) =~= Seq::<ExpV>::empty()) by {
            lemma_evs(r@);
        }
        return Some(r);
    }
    if for_merge.len() == 1 {
        return Some(copy_exps(&for_merge[0]));
    }
    let sorted = sort_paths(for_merge);
    let ghost ss = evss(sorted@);
    assert(ss.len() == sorted@.len());
    assert(sort_by_len(evss(for_merge@)).len() > 0) by {
        lemma_sort_len(evss(for_merge@));
    }
    proof {
        lemma_evs(sorted@[0]@);
        lemma_begin_le(ss, 0);
        lemma_end_le(ss, 1);
    }
    let begin_offset = compute_begin_offset(&sorted);
    let end_offset = compute_end_offset(&sorted);
    let s_with = starting_with_or(&sorted, begin_offset);
    let n0 = sorted[0].len();
    let merged = if end_offset > 0 {
        let e_with = ending_with_or(&s_with, end_offset);
        let mut result = copy_range(&sorted[0], 0, begin_offset);
        push_exp(&mut result, make_or(&e_with));
        extend_exps(&mut result, copy_range(&sorted[0], n0 - end_offset, n0));
        result
    } else {
        let mut result = copy_range(&sorted[0], 0, begin_offset);
        push_exp(&mut result, make_or(&s_with));
        result
    };
    assert(evs(merged@) == merged_lines(ss));
    fold_merged_exec(&merged, fuel - 1)
}

proof fn lemma_sort_len(p: Seq<Seq<ExpV>>)
    ensures
        sort_by_len(p).len() == p.len(),
    decreases p.len(),
{
    if p.len() > 0 {
        lemma_sort_len(p.drop_last());
        lemma_insert_len(sort_by_len(p.drop_last()), p.last());
    }
}

proof fn lemma_insert_len(s: Seq<Seq<ExpV>>, x: Seq<ExpV>)
    ensures
        super::spec::insert_by_len(s, x).len() == s.len() + 1,
    decreases s.len(),
{
    if s.len() > 0 {
        lemma_insert_len(s.drop_last(), x);
    }
}

/// The lines of a merge, with each `or` folded further.
fn fold_merged_exec(merged: &Vec<Exp>, fuel: u64) -> (r: Option<Vec<Exp>>)
    ensures
        opt_evs(r) == fold_merged(evs(merged@), 0, fuel as nat),
    decreases fuel, 2nat,
{
    let ghost m = evs(merged@);
    proof {
        lemma_evs(merged@);
    }
    let mut out: Vec<Exp> = Vec::new();
    assert(evs(out@) =~= Seq::<ExpV>::empty()) by {
        lemma_evs(out@);
    }
    assert(fold_merged(m, 0, fuel as nat) == prefix_opt(evs(out@), fold_merged(m, 0, fuel as nat))) by {
        if let Some(x) = fold_merged(m, 0, fuel as nat) {
            assert(Seq::<ExpV>::empty() + x =~= x);
        }
    }
    let mut i: usize = 0;
    while i < merged.len()
        invariant
            i <= merged.len(),
            m == evs(merged@),
            m.len() == merged@.len(),
            forall|k: int| 0 <= k < merged@.len() ==> #[trigger] m[k] == ev(merged@[k]),
            fold_merged(m, 0, fuel as nat) == prefix_opt(evs(out@), fold_merged(m, i as nat, fuel as nat)),
        decreases merged.len() - i,
    {
        let ghost before = evs(out@);
        let line = &merged[i];
        assert(m[i as int] == line@);
        if !str_eq(line.opcode(), "or") {
            push_exp(&mut out, copy_exp(line));
            proof {
                lemma_prefix_opt_app(before, seq![line@], fold_merged(m, (i + 1) as nat, fuel as nat));
            }
        } else {
            match fold_or_line(line, fuel) {
                Some((ors, paths)) => {
                    match fold_paths(paths, fuel) {
                        Some(fp) => {
                            let ghost add = seq![ors@] + evs(fp@);
                            push_exp(&mut out, ors);
                            extend_exps(&mut out, fp);
                            proof {
                                assert(evs(out@) =~= before + add);
                                lemma_prefix_opt_app(before, add, fold_merged(m, (i + 1) as nat, fuel as nat));
                            }
                        },
                        None => {
                            return None;
                        },
                    }
                },
                None => {
                    return None;
                },
            }
        }
        i += 1;
    }
    Some(out)
}

proof fn lemma_prefix_opt_app(p: Seq<ExpV>, q: Seq<ExpV>, o: Option<Seq<ExpV>>)
    ensures
        prefix_opt(p, prefix_opt(q, o)) == prefix_opt(p + q, o),
{
    if let Some(s) = o {
        assert(p + (q + s) =~= (p + q) + s);
    }
}

/// An `or` line split into a shorter `or` and the paths still to merge.
fn fold_or_line(line: &Exp, fuel: u64) -> (r: Option<(Exp, Vec<Vec<Exp>>)>)
    ensures
        match r {
            Some((e, p)) => fold_or_line_spec(line@, fuel as nat) == Some((e@, evss(p@))),
            None => fold_or_line_spec(line@, fuel as nat) is None,
        },
    decreases fuel, 1nat,
{
    let variants = match line {
        Exp::OpN(op, args) => {
            if !str_eq(op.as_str(), "or") {
                let e: Vec<Vec<Exp>> = Vec::new();
                assert(evss(e@) =~= Seq::<Seq<ExpV>>::empty());
                return Some((copy_exp(line), e));
            }
            args
        },
        _ => {
            let e: Vec<Vec<Exp>> = Vec::new();
            assert(evss(e@) =~= Seq::<Seq<ExpV>>::empty());
            return Some((copy_exp(line), e));
        },
    };
    let ghost v = evs(variants@);
    proof {
        lemma_evs(variants@);
    }
    if variants.len() == 0 {
        let e: Vec<Vec<Exp>> = Vec::new();
        assert(evss(e@) =~= Seq::<Seq<ExpV>>::empty());
        return Some((copy_exp(line), e));
    }
    let (longest_idx, shortest_idx) = longest_and_shortest(variants);
    proof {
        lemma_evs(variants@);
    }
    let longest = &variants[longest_idx];
    let shortest = &variants[shortest_idx];
    let (longest_args, shortest_args) = match (longest, shortest) {
        (Exp::OpN(_, la), Exp::OpN(_, sa)) => (la, sa),
        _ => {
            let e: Vec<Vec<Exp>> = Vec::new();
            assert(evss(e@) =~= Seq::<Seq<ExpV>>::empty());
            return Some((copy_exp(line), e));
        },
    };
    let ghost la = evs(longest_args@);
    let ghost sa = evs(shortest_args@);
    proof {
        lemma_evs(longest_args@);
        lemma_evs(shortest_args@);
    }
    match find_split(variants, shortest_args, longest_args) {
        Some((b1, b2, best_s)) => {
            let mut alts: Vec<Vec<Exp>> = Vec::new();
            push_path(&mut alts, copy_range(shortest_args, 0, b1));
            push_path(&mut alts, copy_range(longest_args, 0, b2));
            assert(evss(alts@) =~= seq![sa.subrange(0, b1 as int), la.subrange(0, b2 as int)]);
            let ors = make_or(&alts);
            return Some((ors, best_s));
        },
        None => {},
    }
    let fe = first_elements(variants);
    let s1 = collect_starting_with(variants, &fe);
    match fold_paths(s1, fuel) {
        Some(fp) => {
            proof {
                lemma_evs(fe@);
            }
            let shorter_path = and_op_path(&fe[shortest_idx], &fp);
            let longer_path = and_op_path(&fe[longest_idx], &fp);
            let mut alts: Vec<Exp> = Vec::new();
            let ghost sv = shorter_path@;
            let ghost lv = longer_path@;
            push_exp(&mut alts, shorter_path);
            push_exp(&mut alts, longer_path);
            assert(evs(alts@) =~= seq![sv, lv]);
            let e: Vec<Vec<Exp>> = Vec::new();
            assert(evss(e@) =~= Seq::<Seq<ExpV>>::empty());
            Some((Exp::OpN(String::from_str("or"), alts), e))
        },
        None => None,
    }
}

/// The first of the longest and the first of the shortest variants.
fn longest_and_shortest(variants: &Vec<Exp>) -> (r: (usize, usize))
    requires
        variants.len() > 0,
    ensures
        r.0 == longest_from(evs(variants@), 0, 0, 0),
        r.1 == shortest_from(evs(variants@), 0, 0, usize::MAX as nat),
        r.0 < variants.len(),
        r.1 < variants.len(),
{
    let ghost v = evs(variants@);
    proof {
        lemma_evs(variants@);
    }
    let mut longest_idx: usize = 0;
    let mut shortest_idx: usize = 0;
    let mut longest_len: usize = 0;
    let mut shortest_len: usize = usize::MAX;
    let mut i: usize = 0;
    while i < variants.len()
        invariant
            i <= variants.len(),
            v == evs(variants@),
            v.len() == variants@.len(),
            forall|k: int| 0 <= k < variants@.len() ==> #[trigger] v[k] == ev(variants@[k]),
            longest_idx < variants.len(),
            shortest_idx < variants.len(),
            longest_from(v, 0, 0, 0) == longest_from(v, i as nat, longest_idx as nat, longest_len as nat),
            shortest_from(v, 0, 0, usize::MAX as nat) == shortest_from(
                v,
                i as nat,
                shortest_idx as nat,
                shortest_len as nat,
            ),
        decreases variants.len() - i,
    {
        let len = match &variants[i] {
            Exp::OpN(_, args) => args.len(),
            _ => 1,
        };
        proof {
            if let Exp::OpN(_, args) = &variants@[i as int] {
                lemma_evs(args@);
            }
        }
        assert(len as nat == variant_len(v[i as int]));
        if len > longest_len {
            longest_len = len;
            longest_idx = i;
        }
        if len < shortest_len {
            shortest_len = len;
            shortest_idx = i;
        }
        i += 1;
    }
    (longest_idx, shortest_idx)
}

/// The first element of each variant.
fn first_elements(variants: &Vec<Exp>) -> (r: Vec<Exp>)
    ensures
        evs(r@) == first_elems(evs(variants@)),
{
    let ghost v = evs(variants@);
    proof {
        lemma_evs(variants@);
    }
    let mut r: Vec<Exp> = Vec::new();
    let mut i: usize = 0;
    assert(evs(r@) =~= Seq::<ExpV>::empty()) by {
        lemma_evs(r@);
    }
    while i < variants.len()
        invariant
            i <= variants.len(),
            v == evs(variants@),
            v.len() == variants@.len(),
            forall|k: int| 0 <= k < variants@.len() ==> #[trigger] v[k] == ev(variants@[k]),
            evs(r@) == first_elems(v.subrange(0, i as int)),
        decreases variants.len() - i,
    {
        let x = &variants[i];
        let item = match x {
            Exp::OpN(_, args) => {
                proof {
                    lemma_evs(args@);
                }
                if args.len() > 0 {
                    copy_exp(&args[0])
                } else {
                    copy_exp(x)
                }
            },
            _ => copy_exp(x),
        };
        push_exp(&mut r, item);
        assert(evs(r@) =~= first_elems(v.subrange(0, i + 1)));
        i += 1;
    }
    assert(v.subrange(0, variants.len() as int) =~= v);
    r
}

/// The first even split of the variants (see [`split_search`]), with the
/// rests it leaves.
fn find_split(variants: &Vec<Exp>, sa: &Vec<Exp>, la: &Vec<Exp>) -> (r: Option<(usize, usize, Vec<Vec<Exp>>)>)
    ensures
        match r {
            Some((b1, b2, s)) => {
                &&& split_search(evs(variants@), evs(sa@), evs(la@), 1, 1) == Some((b1 as nat, b2 as nat))
                &&& b1 < sa.len()
                &&& b2 < la.len()
                &&& evss(s@) == collect_spec(evs(variants@), evs(sa@).subrange(0, b1 as int))
            },
            None => split_search(evs(variants@), evs(sa@), evs(la@), 1, 1) is None,
        },
{
    let ghost v = evs(variants@);
    let ghost s = evs(sa@);
    let ghost l = evs(la@);
    proof {
        lemma_evs(sa@);
        lemma_evs(la@);
    }
    let mut i1: usize = 1;
    while i1 < sa.len()
        invariant
            1 <= i1,
            v == evs(variants@),
            s == evs(sa@),
            l == evs(la@),
            s.len() == sa@.len(),
            l.len() == la@.len(),
            split_search(v, s, l, 1, 1) == split_search(v, s, l, i1 as nat, 1),
        decreases sa.len() - i1,
    {
        let pre1 = copy_range(sa, 0, i1);
        let s1 = collect_starting_with(variants, &pre1);
        let mut i2: usize = 1;
        while i2 < la.len()
            invariant
                1 <= i1 < sa.len(),
                1 <= i2,
                v == evs(variants@),
                s == evs(sa@),
                l == evs(la@),
                s.len() == sa@.len(),
                l.len() == la@.len(),
                evss(s1@) == collect_spec(v, s.subrange(0, i1 as int)),
                split_search(v, s, l, 1, 1) == split_search(v, s, l, i1 as nat, i2 as nat),
            decreases la.len() - i2,
        {
            let pre2 = copy_range(la, 0, i2);
            let s2 = collect_starting_with(variants, &pre2);
            let found = paths_eq(&s1, &s2) && (s1.len() as u128) + (s2.len() as u128) + 1
                == (variants.len() as u128);
            assert(found == split_found(v, s, l, i1 as nat, i2 as nat)) by {
                lemma_evs(variants@);
            }
            if found {
                return Some((i1, i2, s1));
            }
            i2 += 1;
        }
        i1 += 1;
    }
    None
}

/// The merge of the non-empty paths, simplified.
fn meta_fold_paths(paths: Vec<Vec<Exp>>, fuel: u64) -> (r: Option<Vec<Exp>>)
    ensures
        opt_evs(r) == meta_fold_spec(evss(paths@), fuel as nat),
{
    let for_merge = non_empty_paths(paths);
    if for_merge.len() == 0 {
        let r: Vec<Exp> = Vec::new();
        assert(evs(r@) =~= Seq::<ExpV>::empty()) by {
            lemma_evs(r@);
        }
        return Some(r);
    }
    let output = match fold_paths(for_merge, fuel) {
        Some(o) => o,
        None => return None,
    };
    let output = flatten_or(&output);
    let output = cleanup_ors(&output);
    let output = make_ifs(&output);
    let output = merge_ifs(&output);
    Some(replace_f(&output, false))
}

/// A trace folded, with at most `fuel` levels of nesting.
fn fold_rec(trace: &Vec<Exp>, fuel: u64) -> (r: Option<Vec<Exp>>)
    ensures
        opt_evs(r) == fold_spec(evs(trace@), fuel as nat),
    decreases fuel, evs(trace@), 0nat,
{
    if fuel == 0 {
        return None;
    }
    let paths = as_paths_vec(trace);
    let log = match meta_fold_paths(paths, fuel) {
        Some(l) => l,
        None => return None,
    };
    fold_aux(&log, fuel - 1)
}

/// The paths of a trace (see [`as_paths_spec`]).
fn as_paths_vec(trace: &Vec<Exp>) -> (r: Vec<Vec<Exp>>)
    ensures
        evss(r@) == as_paths_spec(evs(trace@)),
{
    let transformed = replace_f(trace, true);
    let empty: Vec<Exp> = Vec::new();
    assert(evs(empty@) =~= Seq::<ExpV>::empty()) by {
        lemma_evs(empty@);
    }
    as_paths_inner(&transformed, &empty)
}

/// The lines of a folded trace (see [`fold_aux_spec`]).
fn fold_aux(trace: &Vec<Exp>, fuel: u64) -> (r: Option<Vec<Exp>>)
    ensures
        opt_evs(r) == fold_aux_spec(evs(trace@), 0, fuel as nat),
    decreases fuel, evs(trace@), 1nat,
{
    let ghost t = evs(trace@);
    proof {
        lemma_evs(trace@);
    }
    let mut out: Vec<Exp> = Vec::new();
    assert(evs(out@) =~= Seq::<ExpV>::empty()) by {
        lemma_evs(out@);
    }
    assert(fold_aux_spec(t, 0, fuel as nat) == prefix_opt(evs(out@), fold_aux_spec(t, 0, fuel as nat))) by {
        if let Some(x) = fold_aux_spec(t, 0, fuel as nat) {
            assert(Seq::<ExpV>::empty() + x =~= x);
        }
    }
    let mut idx: usize = 0;
    while idx < trace.len()
        invariant
            idx <= trace.len(),
            t == evs(trace@),
            t.len() == trace@.len(),
            forall|k: int| 0 <= k < trace@.len() ==> #[trigger] t[k] == ev(trace@[k]),
            fold_aux_spec(t, 0, fuel as nat) == prefix_opt(evs(out@), fold_aux_spec(t, idx as nat, fuel as nat)),
        decreases trace.len() - idx,
    {
        let ghost before = evs(out@);
        assert(t[idx as int] == ev(trace@[idx as int]));
        match &trace[idx] {
            Exp::While(cond, body) => {
                assert(decreases_to!(t => t[idx as int]));
                match fold_rec(body, fuel) {
                    Some(fb) => {
                        let line = Exp::While(Box::new(copy_exp(cond)), fb);
                        proof {
                            lemma_prefix_opt_app(before, seq![line@], fold_aux_spec(t, (idx + 1) as nat, fuel as nat));
                        }
                        push_exp(&mut out, line);
                        assert(evs(out@) =~= before + seq![line@]);
                    },
                    None => {
                        return None;
                    },
                }
            },
            Exp::If(cond, if_true, if_false) => {
                assert(decreases_to!(t => t[idx as int]));
                let if_true_folded = match fold_aux(if_true, fuel) {
                    Some(x) => x,
                    None => return None,
                };
                proof {
                    lemma_evs(if_true_folded@);
                    lemma_evs(if_false@);
                }
                let false_term = false_terminates_exec(if_false);
                if if_false.len() == 0 || false_term {
                    let n = if_true_folded.len();
                    let line = if n > 0 && !is_terminating_name(if_true_folded[n - 1].opcode()) {
                        let mut new_true = copy_exps(&if_true_folded);
                        if if_false.len() > 0 {
                            push_exp(&mut new_true, copy_exp(&if_false[0]));
                        }
                        let empty: Vec<Exp> = Vec::new();
                        assert(evs(empty@) =~= Seq::<ExpV>::empty()) by {
                            lemma_evs(empty@);
                        }
                        Exp::If(Box::new(copy_exp(cond)), new_true, empty)
                    } else {
                        let empty: Vec<Exp> = Vec::new();
                        assert(evs(empty@) =~= Seq::<ExpV>::empty()) by {
                            lemma_evs(empty@);
                        }
                        Exp::If(Box::new(copy_exp(cond)), if_true_folded, empty)
                    };
                    push_exp(&mut out, line);
                    assert(evs(out@) =~= before + seq![line@]);
                    return Some(out);
                } else {
                    let if_false_folded = match fold_aux(if_false, fuel) {
                        Some(x) => x,
                        None => return None,
                    };
                    proof {
                        lemma_evs(if_false_folded@);
                    }
                    let tn = if_true_folded.len();
                    let true_terminates = tn > 0 && is_terminating_name(if_true_folded[tn - 1].opcode());
                    let false_invalid = if_false_folded.len() > 0 && str_eq(
                        if_false_folded[0].opcode(),
                        "invalid",
                    );
                    let ghost tf = evs(if_true_folded@);
                    let ghost ff = evs(if_false_folded@);
                    let ghost add = if ends_terminating(tf) && !(ff.len() > 0 && ff[0].opcode()
                        == "invalid"@) && ff.len() > 0 {
                        seq![ExpV::If(Box::new(cond@), tf, Seq::empty())] + ff
                    } else {
                        seq![ExpV::If(Box::new(cond@), tf, ff)]
                    };
                    if true_terminates && !false_invalid && if_false_folded.len() > 0 {
                        let empty: Vec<Exp> = Vec::new();
                        assert(evs(empty@) =~= Seq::<ExpV>::empty()) by {
                            lemma_evs(empty@);
                        }
                        push_exp(&mut out, Exp::If(Box::new(copy_exp(cond)), if_true_folded, empty));
                        extend_exps(&mut out, if_false_folded);
                    } else {
                        push_exp(
                            &mut out,
                            Exp::If(Box::new(copy_exp(cond)), if_true_folded, if_false_folded),
                        );
                    }
                    assert(evs(out@) =~= before + add);
                    proof {
                        lemma_prefix_opt_app(before, add, fold_aux_spec(t, (idx + 1) as nat, fuel as nat));
                    }
                }
            },
            _ => {
                let line = copy_exp(&trace[idx]);
                proof {
                    lemma_prefix_opt_app(before, seq![line@], fold_aux_spec(t, (idx + 1) as nat, fuel as nat));
                }
                push_exp(&mut out, line);
                assert(evs(out@) =~= before + seq![line@]);
            },
        }
        idx += 1;
    }
    assert(fold_aux_spec(t, idx as nat, fuel as nat) == Some(Seq::<ExpV>::empty()));
    assert(evs(out@) + Seq::<ExpV>::empty() =~= evs(out@));
    Some(out)
}

/// Whether a branch only stops execution (see [`false_terminates`]).
fn false_terminates_exec(f: &Vec<Exp>) -> (r: bool)
    ensures
        r == false_terminates(evs(f@)),
{
    proof {
        lemma_evs(f@);
        reveal_with_fuel(ev, 2);
    }
    if f.len() != 1 {
        return false;
    }
    let op = f[0].opcode();
    let is_zero = match &f[0] {
        Exp::Int(n) => *n == 0,
        _ => false,
    };
    (str_eq(op, "return") && is_zero) || (str_eq(op, "revert") && is_zero) || str_eq(op, "invalid")
}

/// Folds a trace: it is unfolded into branchless paths, the paths are merged
/// again along what they share, and the alternatives that remain become
/// `if`s; loop bodies are folded on their own.
pub fn fold(trace: Vec<Exp>) -> (r: Vec<Exp>)
    ensures
        evs(r@) == fold_result(evs(trace@)),
{
    match fold_rec(&trace, u64::MAX) {
        Some(r) => r,
        None => trace,
    }
}

/// Unfolds a trace into branchless paths, with `or` and `and` made lists.
pub fn as_paths(trace: &[Exp]) -> (r: Result<Vec<Vec<Exp>>, ()>)
    ensures
        r matches Ok(p) && evss(p@) == as_paths_spec(evs(trace@)),
{
    let mut v: Vec<Exp> = Vec::new();
    let mut i: usize = 0;
    proof {
        lemma_evs(trace@);
    }
    while i < trace.len()
        invariant
            i <= trace@.len(),
            evs(trace@).len() == trace@.len(),
            forall|k: int| 0 <= k < trace@.len() ==> #[trigger] evs(trace@)[k] == ev(trace@[k]),
            evs(v@) == evs(trace@).subrange(0, i as int),
        decreases trace.len() - i,
    {
        push_exp(&mut v, copy_exp(&trace[i]));
        assert(evs(v@) =~= evs(trace@).subrange(0, i + 1));
        i += 1;
    }
    assert(evs(trace@).subrange(0, trace@.len() as int) =~= evs(trace@));
    Ok(as_paths_vec(&v))
}

/// Folds a single expression: an expression is already as folded as it gets.
pub fn fold_exp(exp: &Exp) -> (r: Exp)
    ensures
        r@ == exp@,
{
    copy_exp(exp)
}

} // verus!
