//! Contract representation
//!
//! Contains all functions and post-processing logic.

use vstd::prelude::*;
use std::collections::HashMap;
use crate::evm_core::types::{
    Exp, ExpV, ev, evs, lemma_evs, lemma_evs_prefix, lemma_push_prefix, copy_exp, copy_exps,
};
use crate::function::{Function, opt_view};
use crate::function::keys::{sorted_keys, asc_keys, is_ascending};
use crate::sparser::{
    self, StorageVar, Layout, lists_layout, layout_from, traces_stores, traces_view_of, renamed_from,
    name_locs_seq,
};
use crate::text::{str_eq, to_uppercase, upper_spec, string_eq};

verus! {

broadcast use vstd::std_specs::hash::group_hash_axioms;

/// Function hash type
pub type FuncHash = u64;

// ---------------------------------------------------------------------------
// Parameter names in traces

/// An expression with each calldata read of a known parameter replaced by
/// a variable named after it.
pub open spec fn replace_names_spec(e: ExpV, p: Map<u64, (String, String)>) -> ExpV
    decreases e,
{
    match e {
        ExpV::Op2(op, a, b) => if op == "cd"@ && *a is Int && p.contains_key((a->Int_0) as u64) {
            ExpV::Var("param_"@ + p[(a->Int_0) as u64].1@)
        } else {
            ExpV::Op2(op, Box::new(replace_names_spec(*a, p)), Box::new(replace_names_spec(*b, p)))
        },
        ExpV::Op1(op, a) => ExpV::Op1(op, Box::new(replace_names_spec(*a, p))),
        ExpV::Op3(op, a, b, c) => ExpV::Op3(
            op,
            Box::new(replace_names_spec(*a, p)),
            Box::new(replace_names_spec(*b, p)),
            Box::new(replace_names_spec(*c, p)),
        ),
        ExpV::Op4(op, a, b, c, d) => ExpV::Op4(
            op,
            Box::new(replace_names_spec(*a, p)),
            Box::new(replace_names_spec(*b, p)),
            Box::new(replace_names_spec(*c, p)),
            Box::new(replace_names_spec(*d, p)),
        ),
        ExpV::OpN(op, args) => ExpV::OpN(op, replace_names_seq(args, p)),
        ExpV::If(c, t, f) => ExpV::If(
            Box::new(replace_names_spec(*c, p)),
            replace_names_seq(t, p),
            replace_names_seq(f, p),
        ),
        ExpV::While(c, b) => ExpV::While(Box::new(replace_names_spec(*c, p)), replace_names_seq(b, p)),
        _ => e,
    }
}

pub open spec fn replace_names_seq(s: Seq<ExpV>, p: Map<u64, (String, String)>) -> Seq<ExpV>
    decreases s,
{
    if s.len() == 0 {
        Seq::empty()
    } else {
        replace_names_seq(s.subrange(0, s.len() - 1), p).push(replace_names_spec(s[s.len() - 1], p))
    }
}

/// The tree of a trace: nothing, its single line, or a `seq` of its lines.
pub open spec fn make_ast_spec(t: Seq<ExpV>) -> ExpV {
    if t.len() == 0 {
        ExpV::Null
    } else if t.len() == 1 {
        t[0]
    } else {
        ExpV::OpN("seq"@, t)
    }
}

// ---------------------------------------------------------------------------
// Orders

/// `k` put into keys sorted by priority, after every key of no greater priority.
pub open spec fn insert_by_priority(sorted: Seq<u64>, k: u64, m: Map<u64, Function>) -> Seq<u64>
    decreases sorted.len(),
{
    if sorted.len() == 0 {
        seq![k]
    } else if m[sorted.last()].priority_spec() <= m[k].priority_spec() {
        sorted.push(k)
    } else {
        insert_by_priority(sorted.drop_last(), k, m).push(sorted.last())
    }
}

/// Keys sorted by the priority of their functions, keeping their order otherwise.
pub open spec fn sort_by_priority(ks: Seq<u64>, m: Map<u64, Function>) -> Seq<u64>
    decreases ks.len(),
{
    if ks.len() == 0 {
        ks
    } else {
        insert_by_priority(sort_by_priority(ks.drop_last(), m), ks.last(), m)
    }
}

/// After a function is added, looking its hash up finds it, and every other
/// hash finds what it found before.
pub proof fn lemma_get_after_add(before: Map<u64, Function>, f: Function, other: u64)
    ensures
        before.insert(f.hash as u64, f).contains_key(f.hash as u64),
        before.insert(f.hash as u64, f)[f.hash as u64] == f,
        other != f.hash as u64 ==> before.insert(f.hash as u64, f).contains_key(other)
            == before.contains_key(other),
        other != f.hash as u64 && before.contains_key(other) ==> before.insert(f.hash as u64, f)[other]
            == before[other],
{
}

/// Whether keys are in ascending order of their functions' priorities.
pub open spec fn priority_sorted(s: Seq<u64>, m: Map<u64, Function>) -> bool {
    forall|i: int, j: int|
        0 <= i < j < s.len() ==> #[trigger] m[s[i]].priority_spec() <= #[trigger] m[s[j]].priority_spec()
}

proof fn lemma_insert_by_priority(sorted: Seq<u64>, k: u64, m: Map<u64, Function>)
    requires
        priority_sorted(sorted, m),
    ensures
        priority_sorted(insert_by_priority(sorted, k, m), m),
        insert_by_priority(sorted, k, m).to_multiset() == sorted.to_multiset().insert(k),
        insert_by_priority(sorted, k, m).len() == sorted.len() + 1,
        insert_by_priority(sorted, k, m).len() > 0 && insert_by_priority(sorted, k, m).last() == (
        if sorted.len() > 0 && m[sorted.last()].priority_spec() > m[k].priority_spec() {
            sorted.last()
        } else {
            k
        }),
    decreases sorted.len(),
{
    broadcast use vstd::seq_lib::group_to_multiset_ensures;

    if sorted.len() == 0 {
        assert(seq![k] =~= Seq::<u64>::empty().push(k));
        assert(Seq::<u64>::empty().to_multiset() =~= vstd::multiset::Multiset::<u64>::empty());
    } else if m[sorted.last()].priority_spec() <= m[k].priority_spec() {
        assert(priority_sorted(sorted.push(k), m)) by {
            assert forall|i: int, j: int|
                0 <= i < j < sorted.push(k).len() implies #[trigger] m[sorted.push(k)[i]].priority_spec()
                <= #[trigger] m[sorted.push(k)[j]].priority_spec() by {
                if j == sorted.len() && i < sorted.len() - 1 {
                    assert(m[sorted[i]].priority_spec() <= m[sorted[sorted.len() - 1]].priority_spec());
                }
            }
        }
    } else {
        let init = sorted.drop_last();
        let last = sorted.last();
        assert(priority_sorted(init, m)) by {
            assert forall|i: int, j: int|
                0 <= i < j < init.len() implies #[trigger] m[init[i]].priority_spec()
                <= #[trigger] m[init[j]].priority_spec() by {
                assert(init[i] == sorted[i] && init[j] == sorted[j]);
            }
        }
        lemma_insert_by_priority(init, k, m);
        let r0 = insert_by_priority(init, k, m);
        let r = r0.push(last);
        assert forall|i: int|
            0 <= i < r0.len() implies m[#[trigger] r0[i]].priority_spec() <= m[last].priority_spec() by {
            assert(r0.to_multiset().count(r0[i]) > 0);
            assert(init.to_multiset().insert(k).count(r0[i]) > 0);
            if r0[i] != k {
                assert(init.to_multiset().count(r0[i]) > 0);
                assert(init.contains(r0[i]));
                let a = choose|a: int| 0 <= a < init.len() && init[a] == r0[i];
                assert(sorted[a] == init[a]);
                assert(m[sorted[a]].priority_spec() <= m[sorted[sorted.len() - 1]].priority_spec());
            }
        }
        assert(priority_sorted(r, m)) by {
            assert forall|i: int, j: int|
                0 <= i < j < r.len() implies #[trigger] m[r[i]].priority_spec()
                <= #[trigger] m[r[j]].priority_spec() by {
                if j == r0.len() {
                    assert(m[r0[i]].priority_spec() <= m[last].priority_spec());
                } else {
                    assert(r[i] == r0[i] && r[j] == r0[j]);
                }
            }
        }
        assert(sorted =~= init.push(last));
        assert(r.to_multiset() =~= sorted.to_multiset().insert(k));
    }
}

/// Sorting keys by priority puts them in ascending order of priority and
/// keeps each key as often as it came.
pub proof fn lemma_sort_by_priority(ks: Seq<u64>, m: Map<u64, Function>)
    ensures
        priority_sorted(sort_by_priority(ks, m), m),
        sort_by_priority(ks, m).to_multiset() == ks.to_multiset(),
    decreases ks.len(),
{
    broadcast use vstd::seq_lib::group_to_multiset_ensures;

    if ks.len() > 0 {
        lemma_sort_by_priority(ks.drop_last(), m);
        lemma_insert_by_priority(sort_by_priority(ks.drop_last(), m), ks.last(), m);
        assert(ks =~= ks.drop_last().push(ks.last()));
    }
}

/// The keys by which [`Contract::functions_list`] lists a contract's
/// functions hold each key of the contract once, in ascending order of
/// the functions' priorities.
pub proof fn lemma_functions_list_order(m: Map<u64, Function>)
    requires
        m.dom().finite(),
    ensures
        priority_sorted(sort_by_priority(asc_keys(m.dom()), m), m),
        forall|k: u64|
            #[trigger] sort_by_priority(asc_keys(m.dom()), m).to_multiset().count(k) == if m.dom().contains(
                k,
            ) {
                1nat
            } else {
                0nat
            },
{
    broadcast use vstd::seq_lib::group_to_multiset_ensures;

    let ks = asc_keys(m.dom());
    crate::function::keys::lemma_asc_keys(m.dom());
    lemma_sort_by_priority(ks, m);
    assert(ks.no_duplicates());
    ks.lemma_multiset_has_no_duplicates();
    assert forall|k: u64| #[trigger] ks.to_multiset().count(k) == if m.dom().contains(k) {
        1nat
    } else {
        0nat
    } by {
        assert(ks.to_set().contains(k) == ks.contains(k));
    }
}

/// The storage layout of the traces of the functions `m`, taken by ascending key.
pub open spec fn postprocess_layout(m: Map<u64, Function>) -> Layout {
    layout_from(
        Map::empty(),
        traces_stores(traces_of(asc_keys(m.dom()).map_values(|k: u64| m[k]))),
    )
}

/// Whether no two functions have the same hash.
pub open spec fn distinct_hashes(gs: Seq<Function>) -> bool {
    forall|i: int, j: int|
        0 <= i < j < gs.len() ==> (#[trigger] gs[i]).hash != (#[trigger] gs[j]).hash
}

proof fn lemma_map_of(gs: Seq<Function>)
    requires
        distinct_hashes(gs),
    ensures
        forall|h: u64|
            #[trigger] map_of(gs).contains_key(h) <==> exists|i: int|
                0 <= i < gs.len() && gs[i].hash as u64 == h,
        forall|i: int| 0 <= i < gs.len() ==> map_of(gs)[(#[trigger] gs[i]).hash as u64] == gs[i],
    decreases gs.len(),
{
    if gs.len() > 0 {
        let init = gs.drop_last();
        assert(distinct_hashes(init)) by {
            assert forall|i: int, j: int| 0 <= i < j < init.len() implies (#[trigger] init[i]).hash
                != (#[trigger] init[j]).hash by {
                assert(init[i] == gs[i] && init[j] == gs[j]);
            }
        }
        lemma_map_of(init);
        assert forall|h: u64| #[trigger] map_of(gs).contains_key(h) <==> exists|i: int|
            0 <= i < gs.len() && gs[i].hash as u64 == h by {
            if map_of(init).contains_key(h) {
                let i = choose|i: int| 0 <= i < init.len() && init[i].hash as u64 == h;
                assert(gs[i] == init[i]);
            }
            if exists|i: int| 0 <= i < gs.len() && gs[i].hash as u64 == h {
                let i = choose|i: int| 0 <= i < gs.len() && gs[i].hash as u64 == h;
                if i < gs.len() - 1 {
                    assert(init[i] == gs[i]);
                }
            }
        }
        assert forall|i: int| 0 <= i < gs.len() implies map_of(gs)[(#[trigger] gs[i]).hash as u64]
            == gs[i] by {
            if i < gs.len() - 1 {
                assert(init[i] == gs[i]);
                assert(gs[i].hash != gs[gs.len() - 1].hash);
            }
        }
    }
}

proof fn lemma_first_with_hash(gs: Seq<Function>, i: int)
    requires
        distinct_hashes(gs),
        0 <= i < gs.len(),
    ensures
        first_with_hash(gs, gs[i].hash as u64) == i,
    decreases gs.len(),
{
    if i > 0 {
        let t = gs.drop_first();
        assert(distinct_hashes(t)) by {
            assert forall|a: int, b: int| 0 <= a < b < t.len() implies (#[trigger] t[a]).hash
                != (#[trigger] t[b]).hash by {
                assert(t[a] == gs[a + 1] && t[b] == gs[b + 1]);
            }
        }
        assert(t[i - 1] == gs[i]);
        assert(gs[0].hash != gs[i].hash);
        lemma_first_with_hash(t, i - 1);
    }
}

proof fn lemma_const_hashes(gs: Seq<Function>)
    requires
        distinct_hashes(gs),
    ensures
        const_hashes(gs).no_duplicates(),
        forall|h: u64|
            #[trigger] const_hashes(gs).contains(h) <==> exists|i: int|
                0 <= i < gs.len() && gs[i].hash as u64 == h && (gs[i].is_const is Some
                    || gs[i].getter is Some),
    decreases gs.len(),
{
    if gs.len() > 0 {
        let init = gs.drop_last();
        assert(distinct_hashes(init)) by {
            assert forall|i: int, j: int| 0 <= i < j < init.len() implies (#[trigger] init[i]).hash
                != (#[trigger] init[j]).hash by {
                assert(init[i] == gs[i] && init[j] == gs[j]);
            }
        }
        lemma_const_hashes(init);
        let last = gs.last();
        let r = const_hashes(init);
        assert forall|h: u64| #[trigger] const_hashes(gs).contains(h) <==> exists|i: int|
            0 <= i < gs.len() && gs[i].hash as u64 == h && (gs[i].is_const is Some
                || gs[i].getter is Some) by {
            if r.contains(h) {
                let i = choose|i: int|
                    0 <= i < init.len() && init[i].hash as u64 == h && (init[i].is_const is Some
                        || init[i].getter is Some);
                assert(gs[i] == init[i]);
            }
            if const_hashes(gs).contains(h) && !r.contains(h) {
                let a = choose|a: int| 0 <= a < const_hashes(gs).len() && const_hashes(gs)[a] == h;
                if a < r.len() {
                    assert(r[a] == h);
                }
            }
            if exists|i: int| 0 <= i < gs.len() && gs[i].hash as u64 == h && (gs[i].is_const is Some
                || gs[i].getter is Some) {
                let i = choose|i: int|
                    0 <= i < gs.len() && gs[i].hash as u64 == h && (gs[i].is_const is Some
                        || gs[i].getter is Some);
                if i < gs.len() - 1 {
                    assert(init[i] == gs[i]);
                    assert(r.contains(h));
                    let a = choose|a: int| 0 <= a < r.len() && r[a] == h;
                    assert(const_hashes(gs)[a] == h);
                } else {
                    assert(const_hashes(gs)[const_hashes(gs).len() - 1] == h);
                }
            }
        }
        if last.is_const is Some || last.getter is Some {
            assert forall|a: int| 0 <= a < r.len() implies r[a] != last.hash as u64 by {
                assert(r.contains(r[a]));
                let i = choose|i: int|
                    0 <= i < init.len() && init[i].hash as u64 == r[a] && (init[i].is_const is Some
                        || init[i].getter is Some);
                assert(init[i] == gs[i]);
                assert(gs[i].hash != gs[gs.len() - 1].hash);
            }
        }
    }
}

/// Post-processing a contract whose functions are keyed by their hashes
/// keeps its keys; each function becomes the old one processed with the
/// storage layout of all the traces; the constants are the functions that
/// are constants or getters, each once, those whose names are all upper
/// case last, and otherwise by character order.
pub proof fn lemma_postprocess_result(c: Contract, m: Map<u64, Function>)
    requires
        m.dom().finite(),
        forall|k: u64| #[trigger] m.dom().contains(k) ==> m[k].hash as u64 == k,
        c.postprocessed_from(m),
    ensures
        c.funcs().dom() == m.dom(),
        forall|k: u64|
            #[trigger] m.dom().contains(k) ==> processed_from(c.funcs()[k], m[k], postprocess_layout(m)),
        forall|k: u64|
            #[trigger] c.consts_spec().to_multiset().count(k) == if m.dom().contains(k) && (
            m[k].is_const is Some || m[k].getter is Some) {
                1nat
            } else {
                0nat
            },
        forall|i: int, j: int|
            0 <= i < j < c.consts_spec().len() ==> !const_before(
                m[#[trigger] c.consts_spec()[j]].name@,
                m[#[trigger] c.consts_spec()[i]].name@,
            ),
{
    broadcast use vstd::seq_lib::group_to_multiset_ensures;

    let ks = asc_keys(m.dom());
    crate::function::keys::lemma_asc_keys(m.dom());
    let fs = ks.map_values(|k: u64| m[k]);
    let lay = postprocess_layout(m);
    let gs = choose|gs: Seq<Function>|
        {
            &&& gs.len() == fs.len()
            &&& forall|i: int| 0 <= i < fs.len() ==> processed_from(#[trigger] gs[i], fs[i], lay)
            &&& c.funcs() == map_of(gs)
            &&& c.consts_spec() == sort_consts(const_hashes(gs), gs)
        };
    assert forall|i: int| 0 <= i < gs.len() implies (#[trigger] gs[i]).hash as u64 == ks[i] by {
        assert(processed_from(gs[i], fs[i], lay));
        assert(ks.to_set().contains(ks[i]));
    }
    assert(distinct_hashes(gs)) by {
        assert forall|i: int, j: int| 0 <= i < j < gs.len() implies (#[trigger] gs[i]).hash
            != (#[trigger] gs[j]).hash by {
            assert(gs[i].hash as u64 == ks[i] && gs[j].hash as u64 == ks[j]);
        }
    }
    lemma_map_of(gs);
    assert forall|k: u64| c.funcs().dom().contains(k) <==> m.dom().contains(k) by {
        if m.dom().contains(k) {
            assert(ks.to_set().contains(k));
            let i = choose|i: int| 0 <= i < ks.len() && ks[i] == k;
            assert(gs[i].hash as u64 == k);
        }
        if c.funcs().dom().contains(k) {
            let i = choose|i: int| 0 <= i < gs.len() && gs[i].hash as u64 == k;
            assert(ks.to_set().contains(ks[i]));
        }
    }
    assert(c.funcs().dom() =~= m.dom());
    assert forall|k: u64| #[trigger] m.dom().contains(k) implies processed_from(
        c.funcs()[k],
        m[k],
        lay,
    ) by {
        assert(ks.to_set().contains(k));
        let i = choose|i: int| 0 <= i < ks.len() && ks[i] == k;
        assert(gs[i].hash as u64 == k);
        assert(processed_from(gs[i], fs[i], lay));
    }
    lemma_const_hashes(gs);
    let ch = const_hashes(gs);
    lemma_sort_consts(ch, gs);
    ch.lemma_multiset_has_no_duplicates();
    assert forall|k: u64| #[trigger] c.consts_spec().to_multiset().count(k) == if m.dom().contains(k)
        && (m[k].is_const is Some || m[k].getter is Some) {
        1nat
    } else {
        0nat
    } by {
        if m.dom().contains(k) && (m[k].is_const is Some || m[k].getter is Some) {
            assert(ks.to_set().contains(k));
            let i = choose|i: int| 0 <= i < ks.len() && ks[i] == k;
            assert(gs[i].hash as u64 == k);
            assert(processed_from(gs[i], fs[i], lay));
            assert(ch.contains(k));
        } else if ch.contains(k) {
            let i = choose|i: int|
                0 <= i < gs.len() && gs[i].hash as u64 == k && (gs[i].is_const is Some
                    || gs[i].getter is Some);
            assert(processed_from(gs[i], fs[i], lay));
            assert(ks.to_set().contains(ks[i]));
            assert(false);
        }
    }
    assert forall|i: int, j: int| 0 <= i < j < c.consts_spec().len() implies !const_before(
        m[#[trigger] c.consts_spec()[j]].name@,
        m[#[trigger] c.consts_spec()[i]].name@,
    ) by {
        let s = c.consts_spec();
        assert(s.to_multiset().count(s[i]) > 0);
        assert(s.to_multiset().count(s[j]) > 0);
        assert(ch.contains(s[i]));
        assert(ch.contains(s[j]));
        let a = choose|a: int|
            0 <= a < gs.len() && gs[a].hash as u64 == s[i] && (gs[a].is_const is Some
                || gs[a].getter is Some);
        let b = choose|b: int|
            0 <= b < gs.len() && gs[b].hash as u64 == s[j] && (gs[b].is_const is Some
                || gs[b].getter is Some);
        lemma_first_with_hash(gs, a);
        lemma_first_with_hash(gs, b);
        assert(processed_from(gs[a], fs[a], lay));
        assert(processed_from(gs[b], fs[b], lay));
        assert(ks.to_set().contains(ks[a]));
        assert(ks.to_set().contains(ks[b]));
        assert(name_of_hash(gs, s[i]) == m[s[i]].name@);
        assert(name_of_hash(gs, s[j]) == m[s[j]].name@);
    }
}

/// Whether `a` comes before `b` character by character.
pub open spec fn lex_less(a: Seq<char>, b: Seq<char>) -> bool
    decreases a.len(),
{
    if b.len() == 0 {
        false
    } else if a.len() == 0 {
        true
    } else if a[0] != b[0] {
        (a[0] as int) < (b[0] as int)
    } else {
        lex_less(a.drop_first(), b.drop_first())
    }
}

/// Whether a name is all upper case.
pub open spec fn is_upper_name(n: Seq<char>) -> bool {
    upper_spec(n) == n
}

/// Whether the constant named `a` is listed before the one named `b`:
/// names that are all upper case come last, and names go by character order.
pub open spec fn const_before(a: Seq<char>, b: Seq<char>) -> bool {
    (!is_upper_name(a) && is_upper_name(b)) || (is_upper_name(a) == is_upper_name(b) && lex_less(
        a,
        b,
    ))
}

/// The first function with hash `h` (as a key).
pub open spec fn first_with_hash(fs: Seq<Function>, h: u64) -> int
    decreases fs.len(),
{
    if fs.len() == 0 {
        0
    } else if fs[0].hash as u64 == h {
        0
    } else {
        first_with_hash(fs.drop_first(), h) + 1
    }
}

/// The name of the first function with hash `h`.
pub open spec fn name_of_hash(fs: Seq<Function>, h: u64) -> Seq<char> {
    fs[first_with_hash(fs, h)].name@
}

/// `h` put into constants sorted by name, after every constant not listed after it.
pub open spec fn insert_const(sorted: Seq<u64>, h: u64, fs: Seq<Function>) -> Seq<u64>
    decreases sorted.len(),
{
    if sorted.len() == 0 {
        seq![h]
    } else if !const_before(name_of_hash(fs, h), name_of_hash(fs, sorted.last())) {
        sorted.push(h)
    } else {
        insert_const(sorted.drop_last(), h, fs).push(sorted.last())
    }
}

/// Constants sorted by name, stable.
pub open spec fn sort_consts(hs: Seq<u64>, fs: Seq<Function>) -> Seq<u64>
    decreases hs.len(),
{
    if hs.len() == 0 {
        hs
    } else {
        insert_const(sort_consts(hs.drop_last(), fs), hs.last(), fs)
    }
}

proof fn lemma_lex_irreflexive(a: Seq<char>)
    ensures
        !lex_less(a, a),
    decreases a.len(),
{
    if a.len() > 0 {
        lemma_lex_irreflexive(a.drop_first());
    }
}

proof fn lemma_lex_transitive(a: Seq<char>, b: Seq<char>, c: Seq<char>)
    requires
        lex_less(a, b),
        lex_less(b, c),
    ensures
        lex_less(a, c),
    decreases a.len(),
{
    if a.len() > 0 && b.len() > 0 && c.len() > 0 && a[0] == b[0] && b[0] == c[0] {
        lemma_lex_transitive(a.drop_first(), b.drop_first(), c.drop_first());
    }
}

proof fn lemma_lex_total(a: Seq<char>, b: Seq<char>)
    requires
        a != b,
    ensures
        lex_less(a, b) || lex_less(b, a),
    decreases a.len(),
{
    if a.len() == 0 && b.len() == 0 {
        assert(a =~= b);
    }
    if a.len() > 0 && b.len() > 0 && a[0] == b[0] {
        if a.drop_first() == b.drop_first() {
            assert(a =~= seq![a[0]] + a.drop_first());
            assert(b =~= seq![b[0]] + b.drop_first());
        }
        lemma_lex_total(a.drop_first(), b.drop_first());
    }
}

proof fn lemma_const_before_order(a: Seq<char>, b: Seq<char>, c: Seq<char>)
    ensures
        !const_before(a, a),
        const_before(a, b) && const_before(b, c) ==> const_before(a, c),
        a != b ==> const_before(a, b) || const_before(b, a),
{
    lemma_lex_irreflexive(a);
    if const_before(a, b) && const_before(b, c) && is_upper_name(a) == is_upper_name(b)
        && is_upper_name(b) == is_upper_name(c) {
        lemma_lex_transitive(a, b, c);
    }
    if a != b {
        lemma_lex_total(a, b);
    }
}

/// Whether constants are in the order that [`Contract::postprocess`] gives
/// them: none is listed after one that it should come before.
pub open spec fn consts_ordered(s: Seq<u64>, fs: Seq<Function>) -> bool {
    forall|i: int, j: int|
        0 <= i < j < s.len() ==> !const_before(
            name_of_hash(fs, #[trigger] s[j]),
            name_of_hash(fs, #[trigger] s[i]),
        )
}

proof fn lemma_insert_const(sorted: Seq<u64>, h: u64, fs: Seq<Function>)
    requires
        consts_ordered(sorted, fs),
    ensures
        consts_ordered(insert_const(sorted, h, fs), fs),
        insert_const(sorted, h, fs).to_multiset() == sorted.to_multiset().insert(h),
    decreases sorted.len(),
{
    broadcast use vstd::seq_lib::group_to_multiset_ensures;

    let nh = name_of_hash(fs, h);
    if sorted.len() == 0 {
        assert(seq![h] =~= Seq::<u64>::empty().push(h));
        assert(Seq::<u64>::empty().to_multiset() =~= vstd::multiset::Multiset::<u64>::empty());
    } else {
        let last = sorted.last();
        let nl = name_of_hash(fs, last);
        if !const_before(nh, nl) {
            let r = sorted.push(h);
            assert forall|i: int, j: int| 0 <= i < j < r.len() implies !const_before(
                name_of_hash(fs, #[trigger] r[j]),
                name_of_hash(fs, #[trigger] r[i]),
            ) by {
                if j == sorted.len() && i < sorted.len() - 1 {
                    let ni = name_of_hash(fs, sorted[i]);
                    assert(!const_before(nl, ni));
                    lemma_const_before_order(nh, ni, nl);
                    lemma_const_before_order(ni, nl, nh);
                    lemma_const_before_order(nl, ni, nh);
                    lemma_const_before_order(ni, nh, nl);
                    lemma_const_before_order(nh, nl, ni);
                    lemma_const_before_order(nl, nh, ni);
                } else if j < sorted.len() {
                    assert(r[i] == sorted[i] && r[j] == sorted[j]);
                }
            }
        } else {
            let init = sorted.drop_last();
            assert(consts_ordered(init, fs)) by {
                assert forall|i: int, j: int| 0 <= i < j < init.len() implies !const_before(
                    name_of_hash(fs, #[trigger] init[j]),
                    name_of_hash(fs, #[trigger] init[i]),
                ) by {
                    assert(init[i] == sorted[i] && init[j] == sorted[j]);
                }
            }
            lemma_insert_const(init, h, fs);
            let r0 = insert_const(init, h, fs);
            let r = r0.push(last);
            lemma_const_before_order(nh, nl, nh);
            lemma_const_before_order(nl, nh, nl);
            assert forall|i: int| 0 <= i < r0.len() implies !const_before(
                nl,
                name_of_hash(fs, #[trigger] r0[i]),
            ) by {
                assert(r0.to_multiset().count(r0[i]) > 0);
                if r0[i] != h {
                    assert(init.to_multiset().count(r0[i]) > 0);
                    assert(init.contains(r0[i]));
                    let a = choose|a: int| 0 <= a < init.len() && init[a] == r0[i];
                    assert(sorted[a] == init[a]);
                    assert(sorted[sorted.len() - 1] == last);
                }
            }
            assert forall|i: int, j: int| 0 <= i < j < r.len() implies !const_before(
                name_of_hash(fs, #[trigger] r[j]),
                name_of_hash(fs, #[trigger] r[i]),
            ) by {
                if j == r0.len() {
                    assert(r[i] == r0[i]);
                } else {
                    assert(r[i] == r0[i] && r[j] == r0[j]);
                }
            }
            assert(sorted =~= init.push(last));
            assert(r.to_multiset() =~= sorted.to_multiset().insert(h));
        }
    }
}

/// Sorting constants lists every name that is all upper case after the
/// others, and otherwise goes by character order; it keeps each constant
/// as often as it came.
pub proof fn lemma_sort_consts(hs: Seq<u64>, fs: Seq<Function>)
    ensures
        consts_ordered(sort_consts(hs, fs), fs),
        sort_consts(hs, fs).to_multiset() == hs.to_multiset(),
    decreases hs.len(),
{
    broadcast use vstd::seq_lib::group_to_multiset_ensures;

    if hs.len() > 0 {
        lemma_sort_consts(hs.drop_last(), fs);
        lemma_insert_const(sort_consts(hs.drop_last(), fs), hs.last(), fs);
        assert(hs =~= hs.drop_last().push(hs.last()));
    }
}

/// The hashes of the functions that are constants or getters, in order.
pub open spec fn const_hashes(fs: Seq<Function>) -> Seq<u64>
    decreases fs.len(),
{
    if fs.len() == 0 {
        Seq::empty()
    } else {
        let rest = const_hashes(fs.drop_last());
        if fs.last().is_const is Some || fs.last().getter is Some {
            rest.push(fs.last().hash as u64)
        } else {
            rest
        }
    }
}

/// The functions keyed by hash; a later function overrides an earlier one.
pub open spec fn map_of(fs: Seq<Function>) -> Map<u64, Function>
    decreases fs.len(),
{
    if fs.len() == 0 {
        Map::empty()
    } else {
        map_of(fs.drop_last()).insert(fs.last().hash as u64, fs.last())
    }
}

/// The keys of `hs` that are in `m`, in order.
pub open spec fn present_keys(hs: Seq<u64>, m: Map<u64, Function>) -> Seq<u64>
    decreases hs.len(),
{
    if hs.len() == 0 {
        hs
    } else if m.contains_key(hs.last()) {
        present_keys(hs.drop_last(), m).push(hs.last())
    } else {
        present_keys(hs.drop_last(), m)
    }
}

/// The keys of `ks` whose functions are regular, in order.
pub open spec fn regular_keys(ks: Seq<u64>, m: Map<u64, Function>) -> Seq<u64>
    decreases ks.len(),
{
    if ks.len() == 0 {
        ks
    } else if m[ks.last()].is_regular {
        regular_keys(ks.drop_last(), m).push(ks.last())
    } else {
        regular_keys(ks.drop_last(), m)
    }
}

/// Whether `g` is `f` after post-processing with storage layout `lay`: the
/// storage locations of the layout named, calldata reads of parameters
/// named, and the tree of the new trace built.
pub open spec fn processed_from(g: Function, f: Function, lay: Layout) -> bool {
    &&& evs(g.trace@) == replace_names_seq(name_locs_seq(evs(f.trace@), lay), f.inferred_params@)
    &&& opt_view(g.ast) == Some(make_ast_spec(evs(g.trace@)))
    &&& g.hash == f.hash
    &&& g.name == f.name
    &&& g.color_name == f.color_name
    &&& g.abi_name == f.abi_name
    &&& g.is_const == f.is_const
    &&& g.read_only == f.read_only
    &&& g.payable == f.payable
    &&& g.orig_trace == f.orig_trace
    &&& g.inferred_params == f.inferred_params
    &&& g.getter == f.getter
    &&& g.returns == f.returns
    &&& g.is_regular == f.is_regular
}

/// The traces of a list of functions.
pub open spec fn traces_of(fs: Seq<Function>) -> Seq<Seq<ExpV>> {
    Seq::new(fs.len(), |i: int| evs(fs[i].trace@))
}

/// Contract containing all decompiled functions
#[derive(Debug)]
pub struct Contract {
    /// Function hash -> Function
    pub functions: HashMap<FuncHash, Function>,
    /// Storage definitions (parsed from traces)
    stor_defs: Vec<StorageVar>,
    /// Constant functions (getters and const functions)
    consts: Vec<FuncHash>,
    /// Problematic functions (hash -> error message)
    pub problems: HashMap<FuncHash, String>,
}

/// `HashMap::get_mut`: the value at `k`, if any, to change in place; what is
/// written through it becomes the map's value at `k`.
#[verifier::external_body]
fn map_get_mut<'a>(m: &'a mut HashMap<u64, Function>, k: u64) -> (r: Option<&'a mut Function>)
    ensures
        match r {
            Some(f) => old(m)@.contains_key(k) && *f == old(m)@[k] && final(m)@ == old(m)@.insert(
                k,
                *final(f),
            ),
            None => !old(m)@.contains_key(k) && final(m)@ == old(m)@,
        },
{
    m.get_mut(&k)
}

impl Contract {
    /// The functions by hash.
    pub closed spec fn funcs(&self) -> Map<u64, Function> {
        self.functions@
    }

    /// The storage definitions.
    pub closed spec fn stor_defs_spec(&self) -> Seq<StorageVar> {
        self.stor_defs@
    }

    /// The hashes of the constant functions.
    pub closed spec fn consts_spec(&self) -> Seq<u64> {
        self.consts@
    }

    /// The problems by hash.
    pub closed spec fn problems_spec(&self) -> Map<u64, String> {
        self.problems@
    }

    /// What [`Contract::postprocess`] makes of the functions `m`, taken by
    /// ascending hash: the layout of their traces, the functions processed,
    /// and the constants sorted by name.
    pub open spec fn postprocessed_from(&self, m: Map<u64, Function>) -> bool {
        let fs = asc_keys(m.dom()).map_values(|k: u64| m[k]);
        let lay = postprocess_layout(m);
        &&& lists_layout(self.stor_defs_spec(), lay)
        &&& exists|gs: Seq<Function>|
            {
                &&& gs.len() == fs.len()
                &&& forall|i: int| 0 <= i < fs.len() ==> processed_from(#[trigger] gs[i], fs[i], lay)
                &&& self.funcs() == map_of(gs)
                &&& self.consts_spec() == sort_consts(const_hashes(gs), gs)
            }
    }

    /// Create a new empty contract
    pub fn new() -> (r: Self)
        ensures
            r.funcs() == Map::<u64, Function>::empty(),
            r.stor_defs_spec().len() == 0,
            r.consts_spec().len() == 0,
            r.problems_spec() == Map::<u64, String>::empty(),
    {
        Self {
            functions: HashMap::new(),
            stor_defs: Vec::new(),
            consts: Vec::new(),
            problems: HashMap::new(),
        }
    }

    /// Add a function to the contract, under its hash
    pub fn add_function(&mut self, func: Function)
        ensures
            final(self).funcs() == old(self).funcs().insert(func.hash as u64, func),
            final(self).stor_defs_spec() == old(self).stor_defs_spec(),
            final(self).consts_spec() == old(self).consts_spec(),
            final(self).problems_spec() == old(self).problems_spec(),
    {
        let hash = func.hash as FuncHash;
        self.functions.insert(hash, func);
    }

    /// Get a function by hash
    pub fn get_function(&self, hash: FuncHash) -> (r: Option<&Function>)
        ensures
            match r {
                Some(f) => self.funcs().contains_key(hash) && *f == self.funcs()[hash],
                None => !self.funcs().contains_key(hash),
            },
    {
        self.functions.get(&hash)
    }

    /// Get a mutable function by hash
    pub fn get_function_mut(&mut self, hash: FuncHash) -> (r: Option<&mut Function>)
        ensures
            match r {
                Some(f) => old(self).funcs().contains_key(hash) && *f == old(self).funcs()[hash]
                    && final(self).funcs() == old(self).funcs().insert(hash, *final(f)),
                None => !old(self).funcs().contains_key(hash) && final(self).funcs() == old(
                    self,
                ).funcs(),
            },
            final(self).stor_defs_spec() == old(self).stor_defs_spec(),
            final(self).consts_spec() == old(self).consts_spec(),
            final(self).problems_spec() == old(self).problems_spec(),
    {
        map_get_mut(&mut self.functions, hash)
    }

    /// The functions, by ascending hash and then stably by priority.
    pub fn functions_list(&self) -> (r: Vec<&Function>)
        ensures
            r@.len() == sort_by_priority(asc_keys(self.funcs().dom()), self.funcs()).len(),
            forall|i: int|
                0 <= i < r@.len() ==> *#[trigger] r@[i] == self.funcs()[sort_by_priority(
                    asc_keys(self.funcs().dom()),
                    self.funcs(),
                )[i]],
    {
        let ks = sorted_keys(&self.functions);
        let ghost m = self.functions@;
        let mut sorted: Vec<u64> = Vec::new();
        let mut prios: Vec<i32> = Vec::new();
        let mut i: usize = 0;
        while i < ks.len()
            invariant
                i <= ks@.len(),
                m == self.functions@,
                ks@.to_set() == m.dom(),
                sorted@ == sort_by_priority(ks@.subrange(0, i as int), m),
                prios@.len() == sorted@.len(),
                forall|j: int| 0 <= j < sorted@.len() ==> #[trigger] prios@[j] == m[sorted@[j]].priority_spec(),
                forall|j: int| 0 <= j < sorted@.len() ==> m.contains_key(#[trigger] sorted@[j]),
            decreases ks@.len() - i,
        {
            let k = ks[i];
            assert(ks@.to_set().contains(k)) by {
                assert(ks@[i as int] == k);
            }
            let p = match self.functions.get(&k) {
                Some(f) => f.priority(),
                None => {
                    assert(false);
                    0
                },
            };
            proof {
                assert(ks@.subrange(0, i + 1).drop_last() =~= ks@.subrange(0, i as int));
            }
            insert_key_by_priority(&mut sorted, &mut prios, k, p, Ghost(m));
            i += 1;
        }
        assert(ks@.subrange(0, ks@.len() as int) =~= ks@);
        let mut r: Vec<&Function> = Vec::new();
        let mut j: usize = 0;
        while j < sorted.len()
            invariant
                j <= sorted@.len(),
                m == self.functions@,
                forall|q: int| 0 <= q < sorted@.len() ==> m.contains_key(#[trigger] sorted@[q]),
                r@.len() == j,
                forall|q: int| 0 <= q < j ==> *#[trigger] r@[q] == m[sorted@[q]],
            decreases sorted@.len() - j,
        {
            match self.functions.get(&sorted[j]) {
                Some(f) => {
                    r.push(f);
                },
                None => {
                    assert(false);
                },
            }
            j += 1;
        }
        r
    }

    /// Get storage definitions
    pub fn stor_defs(&self) -> (r: &[StorageVar])
        ensures
            r@ == self.stor_defs_spec(),
    {
        self.stor_defs.as_slice()
    }

    /// The constant functions (getters and constants), in the order of
    /// [`Contract::postprocess`], leaving out hashes without a function.
    pub fn consts(&self) -> (r: Vec<&Function>)
        ensures
            r@.len() == present_keys(self.consts_spec(), self.funcs()).len(),
            forall|i: int|
                0 <= i < r@.len() ==> *#[trigger] r@[i] == self.funcs()[present_keys(
                    self.consts_spec(),
                    self.funcs(),
                )[i]],
    {
        let ghost m = self.functions@;
        let ghost hs = self.consts@;
        let mut r: Vec<&Function> = Vec::new();
        let mut i: usize = 0;
        while i < self.consts.len()
            invariant
                i <= hs.len(),
                m == self.functions@,
                hs == self.consts@,
                r@.len() == present_keys(hs.subrange(0, i as int), m).len(),
                forall|q: int|
                    0 <= q < r@.len() ==> *#[trigger] r@[q] == m[present_keys(
                        hs.subrange(0, i as int),
                        m,
                    )[q]],
            decreases hs.len() - i,
        {
            let h = self.consts[i];
            proof {
                assert(hs.subrange(0, i + 1).drop_last() =~= hs.subrange(0, i as int));
            }
            match self.functions.get(&h) {
                Some(f) => {
                    r.push(f);
                },
                None => {},
            }
            i += 1;
        }
        assert(hs.subrange(0, hs.len() as int) =~= hs);
        r
    }

    /// The regular functions (neither constants nor getters), by ascending hash.
    pub fn regular_functions(&self) -> (r: Vec<&Function>)
        ensures
            r@.len() == regular_keys(asc_keys(self.funcs().dom()), self.funcs()).len(),
            forall|i: int|
                0 <= i < r@.len() ==> *#[trigger] r@[i] == self.funcs()[regular_keys(
                    asc_keys(self.funcs().dom()),
                    self.funcs(),
                )[i]],
    {
        let ks = sorted_keys(&self.functions);
        let ghost m = self.functions@;
        let mut r: Vec<&Function> = Vec::new();
        let mut i: usize = 0;
        while i < ks.len()
            invariant
                i <= ks@.len(),
                m == self.functions@,
                ks@.to_set() == m.dom(),
                r@.len() == regular_keys(ks@.subrange(0, i as int), m).len(),
                forall|q: int|
                    0 <= q < r@.len() ==> *#[trigger] r@[q] == m[regular_keys(ks@.subrange(0, i as int), m)[q]],
            decreases ks@.len() - i,
        {
            let k = ks[i];
            assert(ks@.to_set().contains(k)) by {
                assert(ks@[i as int] == k);
            }
            proof {
                assert(ks@.subrange(0, i + 1).drop_last() =~= ks@.subrange(0, i as int));
            }
            match self.functions.get(&k) {
                Some(f) => {
                    if f.is_regular {
                        r.push(f);
                    }
                },
                None => {
                    assert(false);
                },
            }
            i += 1;
        }
        assert(ks@.subrange(0, ks@.len() as int) =~= ks@);
        r
    }
}

/// Puts key `k` of priority `p` into keys sorted by priority.
fn insert_key_by_priority(
    sorted: &mut Vec<u64>,
    prios: &mut Vec<i32>,
    k: u64,
    p: i32,
    Ghost(m): Ghost<Map<u64, Function>>,
)
    requires
        old(prios)@.len() == old(sorted)@.len(),
        forall|j: int| 0 <= j < old(sorted)@.len() ==> #[trigger] old(prios)@[j] == m[old(sorted)@[j]].priority_spec(),
        forall|j: int| 0 <= j < old(sorted)@.len() ==> m.contains_key(#[trigger] old(sorted)@[j]),
        m.contains_key(k),
        p == m[k].priority_spec(),
    ensures
        final(sorted)@ == insert_by_priority(old(sorted)@, k, m),
        final(prios)@.len() == final(sorted)@.len(),
        forall|j: int| 0 <= j < final(sorted)@.len() ==> #[trigger] final(prios)@[j] == m[final(sorted)@[j]].priority_spec(),
        forall|j: int| 0 <= j < final(sorted)@.len() ==> m.contains_key(#[trigger] final(sorted)@[j]),
{
    let ghost s0 = sorted@;
    let mut pos = sorted.len();
    assert(s0.subrange(0, s0.len() as int) =~= s0);
    assert(insert_by_priority(s0, k, m) + s0.subrange(s0.len() as int, s0.len() as int) =~= insert_by_priority(
        s0,
        k,
        m,
    ));
    while pos > 0 && prios[pos - 1] > p
        invariant
            pos <= sorted@.len(),
            s0 == sorted@,
            prios@.len() == sorted@.len(),
            forall|j: int| 0 <= j < sorted@.len() ==> #[trigger] prios@[j] == m[sorted@[j]].priority_spec(),
            p == m[k].priority_spec(),
            insert_by_priority(s0, k, m) == insert_by_priority(s0.subrange(0, pos as int), k, m) + s0.subrange(
                pos as int,
                s0.len() as int,
            ),
        decreases pos,
    {
        proof {
            let q = s0.subrange(0, pos as int);
            assert(q.drop_last() =~= s0.subrange(0, pos - 1));
            assert(prios@[pos - 1] == m[q.last()].priority_spec());
            assert(insert_by_priority(q, k, m) == insert_by_priority(q.drop_last(), k, m).push(q.last()));
            assert(insert_by_priority(s0.subrange(0, pos - 1), k, m).push(q.last()) + s0.subrange(
                pos as int,
                s0.len() as int,
            ) =~= insert_by_priority(s0.subrange(0, pos - 1), k, m) + s0.subrange(
                pos - 1,
                s0.len() as int,
            ));
        }
        pos -= 1;
    }
    proof {
        let q = s0.subrange(0, pos as int);
        if pos > 0 {
            assert(prios@[pos - 1] == m[q.last()].priority_spec());
            assert(insert_by_priority(q, k, m) == q.push(k));
        } else {
            assert(insert_by_priority(q, k, m) == seq![k]);
        }
    }
    let ghost p0 = prios@;
    sorted.insert(pos, k);
    prios.insert(pos, p);
    assert(sorted@ =~= s0.subrange(0, pos as int).push(k) + s0.subrange(pos as int, s0.len() as int));
    assert forall|j: int| 0 <= j < sorted@.len() implies #[trigger] prios@[j] == m[sorted@[j]].priority_spec()
        && m.contains_key(sorted@[j]) by {
        if j < pos {
            assert(prios@[j] == p0[j] && sorted@[j] == s0[j]);
        } else if j > pos {
            assert(prios@[j] == p0[j - 1] && sorted@[j] == s0[j - 1]);
        }
    }
}

impl Contract {
    /// Post-processes the contract: the storage layout is read off the
    /// traces, calldata reads of parameters get the parameters' names, each
    /// function gets the tree of its trace, and the constants and getters are
    /// listed by name, all-upper-case names last. Functions are taken by
    /// ascending hash.
    pub fn postprocess(&mut self)
        ensures
            final(self).postprocessed_from(old(self).funcs()),
            final(self).problems_spec() == old(self).problems_spec(),
    {
        let ghost m0 = self.functions@;
        let ks = sorted_keys(&self.functions);
        let ghost fs = ks@.map_values(|k: u64| m0[k]);
        let mut old_map: HashMap<FuncHash, Function> = HashMap::new();
        std::mem::swap(&mut old_map, &mut self.functions);
        let mut funcs: Vec<Function> = Vec::new();
        let mut i: usize = 0;
        while i < ks.len()
            invariant
                i <= ks@.len(),
                is_ascending(ks@),
                ks@.to_set() == m0.dom(),
                fs == ks@.map_values(|k: u64| m0[k]),
                funcs@ == fs.subrange(0, i as int),
                forall|k: u64| #[trigger] old_map@.contains_key(k) ==> m0.contains_key(k) && old_map@[k] == m0[k],
                forall|j: int| i <= j < ks@.len() ==> old_map@.contains_key(#[trigger] ks@[j]),
            decreases ks@.len() - i,
        {
            let k = ks[i];
            match old_map.remove(&k) {
                Some(f) => {
                    funcs.push(f);
                },
                None => {
                    assert(false);
                },
            }
            proof {
                assert forall|j: int| i + 1 <= j < ks@.len() implies old_map@.contains_key(#[trigger] ks@[j]) by {
                    assert(ks@[i as int] < ks@[j]);
                }
            }
            assert(funcs@ =~= fs.subrange(0, i + 1));
            i += 1;
        }
        assert(funcs@ =~= fs);
        let ghost fs_traces = traces_of(fs);
        let stor_defs = sparser::rewrite_functions(funcs.as_mut_slice());
        assert(traces_view_of(fs) =~= fs_traces);
        let ghost lay = layout_from(Map::empty(), traces_stores(fs_traces));
        self.stor_defs = stor_defs;
        let mut processed: Vec<Function> = Vec::new();
        let ghost n = funcs@.len();
        while funcs.len() > 0
            invariant
                funcs@.len() <= n,
                n == fs.len(),
                forall|j: int| 0 <= j < funcs@.len() ==> renamed_from(#[trigger] funcs@[j], fs[j], lay),
                processed@.len() == n - funcs@.len(),
                forall|j: int|
                    0 <= j < processed@.len() ==> processed_from(
                        #[trigger] processed@[j],
                        fs[funcs@.len() + j],
                        lay,
                    ),
            decreases funcs@.len(),
        {
            let ghost before = processed@;
            let mut f = match funcs.pop() {
                Some(f) => f,
                None => {
                    assert(false);
                    return ;
                },
            };
            let ghost f0 = f;
            let trace = replace_names_in_trace(&f.trace, &f.inferred_params);
            f.trace = trace;
            let ast = self.make_ast(&f.trace);
            f.ast = Some(ast);
            processed.insert(0, f);
            proof {
                assert forall|j: int| 0 <= j < processed@.len() implies processed_from(
                    #[trigger] processed@[j],
                    fs[funcs@.len() + j],
                    lay,
                ) by {
                    if j > 0 {
                        assert(processed@[j] == before[j - 1]);
                    }
                }
            }
        }
        let ghost gs = processed@;
        let mut const_funcs: Vec<FuncHash> = Vec::new();
        let mut c: usize = 0;
        while c < processed.len()
            invariant
                c <= processed@.len(),
                gs == processed@,
                const_funcs@ == const_hashes(gs.subrange(0, c as int)),
            decreases processed@.len() - c,
        {
            proof {
                assert(gs.subrange(0, c + 1).drop_last() =~= gs.subrange(0, c as int));
            }
            let f = &processed[c];
            if f.is_const.is_some() || f.getter.is_some() {
                const_funcs.push(f.hash as FuncHash);
            }
            c += 1;
        }
        assert(gs.subrange(0, gs.len() as int) =~= gs);
        proof {
            lemma_const_hashes_in(gs);
            assert forall|q: int| 0 <= q < const_funcs@.len() implies first_with_hash(
                processed@,
                #[trigger] const_funcs@[q],
            ) < processed@.len() by {
                let j = choose|j: int| 0 <= j < gs.len() && gs[j].hash as u64 == const_hashes(gs)[q];
                lemma_first_le(gs, const_funcs@[q], j);
            }
        }
        self.consts = sort_const_hashes(&const_funcs, &processed);
        let mut map: HashMap<FuncHash, Function> = HashMap::new();
        let mut k: usize = 0;
        let ghost total = processed@.len();
        assert(map@ =~= map_of(gs.subrange(0, 0)));
        while processed.len() > 0
            invariant
                total == gs.len(),
                processed@.len() <= total,
                processed@ == gs.subrange(total - processed@.len(), total as int),
                map@ == map_of(gs.subrange(0, total - processed@.len())),
            decreases processed@.len(),
        {
            let f = processed.remove(0);
            let ghost idx = total - processed@.len() - 1;
            proof {
                assert(gs.subrange(0, idx + 1).drop_last() =~= gs.subrange(0, idx));
                assert(gs.subrange(0, idx + 1).last() == f);
                assert(processed@ =~= gs.subrange(total - processed@.len(), total as int));
            }
            let hash = f.hash as FuncHash;
            map.insert(hash, f);
        }
        assert(gs.subrange(0, total as int) =~= gs);
        self.functions = map;
    }

    /// The tree of a trace: nothing, its single line, or a `seq` of its lines.
    fn make_ast(&self, trace: &Vec<Exp>) -> (r: Exp)
        ensures
            r@ == make_ast_spec(evs(trace@)),
    {
        proof {
            lemma_evs(trace@);
        }
        if trace.len() == 0 {
            return Exp::Null;
        }
        if trace.len() == 1 {
            return copy_exp(&trace[0]);
        }
        Exp::OpN(String::from_str("seq"), copy_exps(trace))
    }
}

impl Default for Contract {
    fn default() -> (r: Self)
        ensures
            r.funcs() == Map::<u64, Function>::empty(),
            r.stor_defs_spec().len() == 0,
            r.consts_spec().len() == 0,
            r.problems_spec() == Map::<u64, String>::empty(),
    {
        Self::new()
    }
}

proof fn lemma_first_le(s: Seq<Function>, h: u64, j: int)
    requires
        0 <= j < s.len(),
        s[j].hash as u64 == h,
    ensures
        first_with_hash(s, h) <= j,
    decreases s.len(),
{
    if s[0].hash as u64 != h {
        assert(s.drop_first()[j - 1] == s[j]);
        lemma_first_le(s.drop_first(), h, j - 1);
    }
}

proof fn lemma_const_hashes_in(s: Seq<Function>)
    ensures
        forall|i: int|
            0 <= i < const_hashes(s).len() ==> exists|j: int|
                0 <= j < s.len() && s[j].hash as u64 == #[trigger] const_hashes(s)[i],
    decreases s.len(),
{
    if s.len() > 0 {
        lemma_const_hashes_in(s.drop_last());
        let rest = const_hashes(s.drop_last());
        assert forall|i: int| 0 <= i < const_hashes(s).len() implies exists|j: int|
            0 <= j < s.len() && s[j].hash as u64 == #[trigger] const_hashes(s)[i] by {
            if i < rest.len() {
                let j = choose|j: int| 0 <= j < s.drop_last().len() && s.drop_last()[j].hash as u64 == rest[i];
                assert(s[j] == s.drop_last()[j]);
            } else {
                assert(s[s.len() - 1].hash as u64 == const_hashes(s)[i]);
            }
        }
    }
}

/// The constant hashes sorted by name (see [`sort_consts`]).
fn sort_const_hashes(hs: &Vec<u64>, fs: &Vec<Function>) -> (r: Vec<u64>)
    requires
        forall|i: int| 0 <= i < hs@.len() ==> first_with_hash(fs@, #[trigger] hs@[i]) < fs@.len(),
    ensures
        r@ == sort_consts(hs@, fs@),
{
    let mut sorted: Vec<u64> = Vec::new();
    let mut i: usize = 0;
    while i < hs.len()
        invariant
            i <= hs@.len(),
            forall|q: int| 0 <= q < hs@.len() ==> first_with_hash(fs@, #[trigger] hs@[q]) < fs@.len(),
            forall|q: int| 0 <= q < sorted@.len() ==> first_with_hash(fs@, #[trigger] sorted@[q]) < fs@.len(),
            sorted@ == sort_consts(hs@.subrange(0, i as int), fs@),
        decreases hs@.len() - i,
    {
        proof {
            assert(hs@.subrange(0, i + 1).drop_last() =~= hs@.subrange(0, i as int));
        }
        insert_const_hash(&mut sorted, hs[i], fs);
        i += 1;
    }
    assert(hs@.subrange(0, hs@.len() as int) =~= hs@);
    sorted
}

/// The first function with hash `h`.
fn find_hash(fs: &Vec<Function>, h: u64) -> (r: usize)
    ensures
        r == first_with_hash(fs@, h),
{
    let mut i: usize = 0;
    assert(fs@.subrange(0, fs@.len() as int) =~= fs@);
    while i < fs.len() && fs[i].hash as u64 != h
        invariant
            i <= fs@.len(),
            first_with_hash(fs@, h) == i + first_with_hash(fs@.subrange(i as int, fs@.len() as int), h),
        decreases fs@.len() - i,
    {
        proof {
            let t = fs@.subrange(i as int, fs@.len() as int);
            assert(t.drop_first() =~= fs@.subrange(i + 1, fs@.len() as int));
        }
        i += 1;
    }
    proof {
        let t = fs@.subrange(i as int, fs@.len() as int);
        if i < fs@.len() {
            assert(t[0] == fs@[i as int]);
        }
    }
    i
}

/// Whether the constant named `a` is listed before the one named `b`.
fn const_before_exec(a: &String, b: &String) -> (r: bool)
    ensures
        r == const_before(a@, b@),
{
    let a_upper = to_uppercase(a.as_str());
    let b_upper = to_uppercase(b.as_str());
    const_before_cases(a, b, &a_upper, &b_upper)
}

/// Whether the constant named `a` is listed before the one named `b`,
/// given each name in upper case: names equal to their upper case come
/// last, and names go by character order.
pub open spec fn const_before_given(a: Seq<char>, b: Seq<char>, a_upper: Seq<char>, b_upper: Seq<char>) -> bool {
    let ua = a_upper == a;
    let ub = b_upper == b;
    (!ua && ub) || (ua == ub && lex_less(a, b))
}

/// The order of two constants from their names in upper case (see
/// [`const_before_given`]).
pub fn const_before_cases(a: &String, b: &String, a_upper: &String, b_upper: &String) -> (r: bool)
    ensures
        r == const_before_given(a@, b@, a_upper@, b_upper@),
{
    let ua = string_eq(a_upper, a);
    let ub = string_eq(b_upper, b);
    (!ua && ub) || (ua == ub && lex_less_exec(a.as_str(), b.as_str()))
}

/// Whether `a` comes before `b` character by character.
fn lex_less_exec(a: &str, b: &str) -> (r: bool)
    ensures
        r == lex_less(a@, b@),
{
    let n = a.unicode_len();
    let m = b.unicode_len();
    let mut i: usize = 0;
    assert(a@.subrange(0, n as int) =~= a@);
    assert(b@.subrange(0, m as int) =~= b@);
    while i < n && i < m && a.get_char(i) == b.get_char(i)
        invariant
            n == a@.len(),
            m == b@.len(),
            i <= n,
            i <= m,
            lex_less(a@, b@) == lex_less(a@.subrange(i as int, n as int), b@.subrange(i as int, m as int)),
        decreases n - i,
    {
        proof {
            let x = a@.subrange(i as int, n as int);
            let y = b@.subrange(i as int, m as int);
            assert(x.drop_first() =~= a@.subrange(i + 1, n as int));
            assert(y.drop_first() =~= b@.subrange(i + 1, m as int));
        }
        i += 1;
    }
    let ghost x = a@.subrange(i as int, n as int);
    let ghost y = b@.subrange(i as int, m as int);
    if i == m {
        assert(y.len() == 0);
        false
    } else if i == n {
        assert(x.len() == 0);
        true
    } else {
        assert(x[0] == a@[i as int] && y[0] == b@[i as int]);
        (a.get_char(i) as u32) < (b.get_char(i) as u32)
    }
}

/// Puts hash `h` into constants sorted by name.
fn insert_const_hash(sorted: &mut Vec<u64>, h: u64, fs: &Vec<Function>)
    requires
        first_with_hash(fs@, h) < fs@.len(),
        forall|q: int| 0 <= q < old(sorted)@.len() ==> first_with_hash(fs@, #[trigger] old(sorted)@[q]) < fs@.len(),
    ensures
        final(sorted)@ == insert_const(old(sorted)@, h, fs@),
        forall|q: int| 0 <= q < final(sorted)@.len() ==> first_with_hash(fs@, #[trigger] final(sorted)@[q]) < fs@.len(),
{
    let ghost s0 = sorted@;
    let name_h = &fs[find_hash(fs, h)].name;
    let mut pos = sorted.len();
    assert(s0.subrange(0, s0.len() as int) =~= s0);
    assert(insert_const(s0, h, fs@) + s0.subrange(s0.len() as int, s0.len() as int) =~= insert_const(
        s0,
        h,
        fs@,
    ));
    while pos > 0 && const_before_exec(name_h, &fs[find_hash(fs, sorted[pos - 1])].name)
        invariant
            pos <= sorted@.len(),
            s0 == sorted@,
            name_h@ == name_of_hash(fs@, h),
            forall|q: int| 0 <= q < sorted@.len() ==> first_with_hash(fs@, #[trigger] sorted@[q]) < fs@.len(),
            insert_const(s0, h, fs@) == insert_const(s0.subrange(0, pos as int), h, fs@) + s0.subrange(
                pos as int,
                s0.len() as int,
            ),
        decreases pos,
    {
        proof {
            let q = s0.subrange(0, pos as int);
            assert(q.drop_last() =~= s0.subrange(0, pos - 1));
            assert(insert_const(q, h, fs@) == insert_const(q.drop_last(), h, fs@).push(q.last()));
            assert(insert_const(s0.subrange(0, pos - 1), h, fs@).push(q.last()) + s0.subrange(
                pos as int,
                s0.len() as int,
            ) =~= insert_const(s0.subrange(0, pos - 1), h, fs@) + s0.subrange(
                pos - 1,
                s0.len() as int,
            ));
        }
        pos -= 1;
    }
    proof {
        let q = s0.subrange(0, pos as int);
        if pos > 0 {
            assert(insert_const(q, h, fs@) == q.push(h));
        } else {
            assert(insert_const(q, h, fs@) == seq![h]);
        }
    }
    sorted.insert(pos, h);
    assert(sorted@ =~= s0.subrange(0, pos as int).push(h) + s0.subrange(pos as int, s0.len() as int));
    assert forall|q: int| 0 <= q < sorted@.len() implies first_with_hash(fs@, #[trigger] sorted@[q]) < fs@.len() by {
        if q < pos {
            assert(sorted@[q] == s0[q]);
        } else if q > pos {
            assert(sorted@[q] == s0[q - 1]);
        }
    }
}

/// Replaces calldata reads of parameters with the parameters' names.
fn replace_names_in_trace(trace: &Vec<Exp>, inferred_params: &HashMap<u64, (String, String)>) -> (r: Vec<Exp>)
    ensures
        evs(r@) == replace_names_seq(evs(trace@), inferred_params@),
    decreases trace,
{
    let mut r: Vec<Exp> = Vec::new();
    let mut i: usize = 0;
    assert(evs(r@) =~= replace_names_seq(evs(trace@.subrange(0, 0)), inferred_params@)) by {
        lemma_evs(r@);
        lemma_evs(trace@.subrange(0, 0));
    }
    while i < trace.len()
        invariant
            i <= trace.len(),
            evs(r@) == replace_names_seq(evs(trace@.subrange(0, i as int)), inferred_params@),
        decreases trace.len() - i,
    {
        assert(decreases_to!(trace => trace@[i as int]));
        proof {
            lemma_evs_prefix(trace@, i as int);
            lemma_push_prefix(evs(trace@.subrange(0, i as int)), ev(trace@[i as int]));
        }
        let e = replace_names_exp(&trace[i], inferred_params);
        crate::evm_core::types::push_exp(&mut r, e);
        i += 1;
    }
    assert(trace@.subrange(0, trace.len() as int) =~= trace@);
    r
}

/// Replaces calldata reads of parameters in an expression.
fn replace_names_exp(exp: &Exp, inferred_params: &HashMap<u64, (String, String)>) -> (r: Exp)
    ensures
        r@ == replace_names_spec(exp@, inferred_params@),
    decreases exp,
{
    proof {
        reveal_with_fuel(ev, 2);
    }
    if let Exp::Op2(op, a, _) = exp {
        if str_eq(op.as_str(), "cd") {
            if let Exp::Int(idx) = &**a {
                let idx = *idx as u64;
                if let Some(entry) = inferred_params.get(&idx) {
                    let mut name = String::from_str("param_");
                    proof {
                        reveal_strlit("param_");
                    }
                    name.append(entry.1.as_str());
                    return Exp::Var(name);
                }
            }
        }
    }
    match exp {
        Exp::Op1(op, a) => Exp::Op1(op.clone(), Box::new(replace_names_exp(a, inferred_params))),
        Exp::Op2(op, a, b) => Exp::Op2(
            op.clone(),
            Box::new(replace_names_exp(a, inferred_params)),
            Box::new(replace_names_exp(b, inferred_params)),
        ),
        Exp::Op3(op, a, b, c) => Exp::Op3(
            op.clone(),
            Box::new(replace_names_exp(a, inferred_params)),
            Box::new(replace_names_exp(b, inferred_params)),
            Box::new(replace_names_exp(c, inferred_params)),
        ),
        Exp::Op4(op, a, b, c, d) => Exp::Op4(
            op.clone(),
            Box::new(replace_names_exp(a, inferred_params)),
            Box::new(replace_names_exp(b, inferred_params)),
            Box::new(replace_names_exp(c, inferred_params)),
            Box::new(replace_names_exp(d, inferred_params)),
        ),
        Exp::OpN(op, args) => Exp::OpN(op.clone(), replace_names_in_trace(args, inferred_params)),
        Exp::If(c, t, f) => Exp::If(
            Box::new(replace_names_exp(c, inferred_params)),
            replace_names_in_trace(t, inferred_params),
            replace_names_in_trace(f, inferred_params),
        ),
        Exp::While(c, b) => Exp::While(
            Box::new(replace_names_exp(c, inferred_params)),
            replace_names_in_trace(b, inferred_params),
        ),
        _ => copy_exp(exp),
    }
}

} // verus!
