//! The keys of a map in ascending order.

use vstd::prelude::*;
use std::collections::HashMap;
use vstd::std_specs::iter::IteratorSpec;

verus! {

broadcast use vstd::std_specs::hash::group_hash_axioms;

/// Whether a sequence is strictly ascending.
pub open spec fn is_ascending(s: Seq<u64>) -> bool {
    forall|i: int, j: int| 0 <= i < j < s.len() ==> s[i] < s[j]
}

/// The elements of a finite set in ascending order.
pub open spec fn asc_keys(d: Set<u64>) -> Seq<u64> {
    choose|s: Seq<u64>| is_ascending(s) && s.to_set() == d
}

proof fn lemma_finite_max(d: Set<u64>)
    requires
        d.finite(),
        d.len() > 0,
    ensures
        exists|x: u64| d.contains(x) && forall|y: u64| #[trigger] d.contains(y) ==> y <= x,
    decreases d.len(),
{
    vstd::set_lib::lemma_set_empty_equivalency_len(d);
    let x = d.choose();
    let r = d.remove(x);
    if r.len() == 0 {
        r.lemma_len0_is_empty();
        assert forall|y: u64| #[trigger] d.contains(y) implies y <= x by {
            if y != x {
                assert(r.contains(y));
            }
        }
    } else {
        lemma_finite_max(r);
        let m = choose|m: u64| r.contains(m) && forall|y: u64| #[trigger] r.contains(y) ==> y <= m;
        if m >= x {
            assert forall|y: u64| #[trigger] d.contains(y) implies y <= m by {
                if y != x {
                    assert(r.contains(y));
                }
            }
        } else {
            assert forall|y: u64| #[trigger] d.contains(y) implies y <= x by {
                if y != x {
                    assert(r.contains(y));
                }
            }
        }
    }
}

proof fn lemma_ascending_exists(d: Set<u64>)
    requires
        d.finite(),
    ensures
        exists|s: Seq<u64>| is_ascending(s) && s.to_set() == d,
    decreases d.len(),
{
    if d.len() == 0 {
        d.lemma_len0_is_empty();
        let s = Seq::<u64>::empty();
        assert(s.to_set() =~= d);
    } else {
        lemma_finite_max(d);
        let mx = choose|x: u64| d.contains(x) && forall|y: u64| #[trigger] d.contains(y) ==> y <= x;
        let r = d.remove(mx);
        lemma_ascending_exists(r);
        let s0 = choose|s: Seq<u64>| is_ascending(s) && s.to_set() == r;
        let s = s0.push(mx);
        assert forall|i: int| 0 <= i < s0.len() implies #[trigger] s0[i] < mx by {
            assert(s0.to_set().contains(s0[i]));
            assert(d.contains(s0[i]));
        }
        assert(is_ascending(s)) by {
            assert forall|i: int, j: int| 0 <= i < j < s.len() implies s[i] < s[j] by {
                if j == s0.len() {
                    assert(s[i] == s0[i]);
                } else {
                    assert(s[i] == s0[i] && s[j] == s0[j]);
                }
            }
        }
        assert forall|x: u64| s.to_set().contains(x) <==> d.contains(x) by {
            if s.contains(x) {
                let i = choose|i: int| 0 <= i < s.len() && s[i] == x;
                if i < s0.len() {
                    assert(s0[i] == x);
                    assert(s0.to_set().contains(x));
                }
            }
            if d.contains(x) && x != mx {
                assert(r.contains(x));
                assert(s0.to_set().contains(x));
                let i = choose|i: int| 0 <= i < s0.len() && s0[i] == x;
                assert(s[i] == x);
            }
            if x == mx {
                assert(s[s0.len() as int] == x);
            }
        }
        assert(s.to_set() =~= d);
    }
}

/// The keys of a finite set in ascending order hold each key of the set, and nothing else.
pub proof fn lemma_asc_keys(d: Set<u64>)
    requires
        d.finite(),
    ensures
        is_ascending(asc_keys(d)),
        asc_keys(d).to_set() == d,
{
    lemma_ascending_exists(d);
}

/// The position of `k` in `s`.
pub open spec fn position_of(s: Seq<u64>, k: u64) -> int {
    choose|i: int| 0 <= i < s.len() && s[i] == k
}

/// Two ascending sequences with the same elements are equal.
pub proof fn lemma_ascending_unique(s: Seq<u64>, t: Seq<u64>)
    requires
        is_ascending(s),
        is_ascending(t),
        s.to_set() == t.to_set(),
    ensures
        s == t,
    decreases s.len(),
{
    if s.len() == 0 {
        if t.len() > 0 {
            assert(t.to_set().contains(t[0]));
            assert(false);
        }
        assert(s =~= t);
    } else {
        if t.len() == 0 {
            assert(s.to_set().contains(s[0]));
            assert(false);
        }
        assert(s.to_set().contains(s[0]));
        assert(t.to_set().contains(t[0]));
        let j = choose|j: int| 0 <= j < t.len() && t[j] == s[0];
        let i = choose|i: int| 0 <= i < s.len() && s[i] == t[0];
        assert(s[0] <= s[i]);
        assert(t[0] <= t[j]);
        assert(s[0] == t[0]);
        let s1 = s.drop_first();
        let t1 = t.drop_first();
        assert forall|x: u64| s1.to_set().contains(x) <==> t1.to_set().contains(x) by {
            if s1.to_set().contains(x) {
                let a = choose|a: int| 0 <= a < s1.len() && s1[a] == x;
                assert(s[a + 1] == x);
                assert(s.to_set().contains(x));
                let b = choose|b: int| 0 <= b < t.len() && t[b] == x;
                assert(x != s[0]);
                assert(b != 0);
                assert(t1[b - 1] == x);
            }
            if t1.to_set().contains(x) {
                let a = choose|a: int| 0 <= a < t1.len() && t1[a] == x;
                assert(t[a + 1] == x);
                assert(t.to_set().contains(x));
                let b = choose|b: int| 0 <= b < s.len() && s[b] == x;
                assert(x != t[0]);
                assert(b != 0);
                assert(s1[b - 1] == x);
            }
        }
        assert(s1.to_set() =~= t1.to_set());
        lemma_ascending_unique(s1, t1);
        assert(s =~= seq![s[0]] + s1);
        assert(t =~= seq![t[0]] + t1);
    }
}

/// The keys of a map, in ascending order.
pub fn sorted_keys<V>(m: &HashMap<u64, V>) -> (r: Vec<u64>)
    ensures
        r@ == asc_keys(m@.dom()),
        is_ascending(r@),
        r@.to_set() == m@.dom(),
{
    let mut keys: Vec<u64> = Vec::new();
    let ghost full = vstd::std_specs::hash::spec_keys_iter(m).remaining().unref();
    for k in it: m.keys()
        invariant
            keys@ == it.seq().unref().subrange(0, it.index() as int),
            it.seq().unref() == full,
    {
        keys.push(*k);
    }
    let ghost all = keys@;
    assert(all =~= full);
    assert(all.to_set() == m@.dom());
    let mut out: Vec<u64> = Vec::new();
    let mut have_last = false;
    let mut last: u64 = 0;
    loop
        invariant
            all == keys@,
            all.to_set() == m@.dom(),
            is_ascending(out@),
            forall|x: u64| out@.contains(x) <==> (all.contains(x) && have_last && x <= last),
            have_last ==> out@.len() > 0 && out@.last() == last,
            !have_last ==> out@.len() == 0,
        decreases (if have_last {
            u64::MAX - last
        } else {
            u64::MAX + 1
        }),
    {
        let mut best: Option<u64> = None;
        let mut j: usize = 0;
        while j < keys.len()
            invariant
                all == keys@,
                j <= keys.len(),
                match best {
                    Some(b) => all.subrange(0, j as int).contains(b) && (!have_last || b > last)
                        && forall|t: int|
                        0 <= t < j && (!have_last || all[t] > last) ==> b <= all[t],
                    None => forall|t: int| 0 <= t < j ==> !(!have_last || all[t] > last),
                },
            decreases keys.len() - j,
        {
            let t = keys[j];
            if !have_last || t > last {
                match best {
                    Some(b) => {
                        if t < b {
                            best = Some(t);
                        }
                    },
                    None => {
                        best = Some(t);
                    },
                }
            }
            proof {
                if let Some(b) = best {
                    if all.subrange(0, j as int).contains(b) {
                        let w = choose|w: int| 0 <= w < j && all.subrange(0, j as int)[w] == b;
                        assert(all.subrange(0, j + 1)[w] == b);
                    } else {
                        assert(all.subrange(0, j + 1)[j as int] == b);
                    }
                }
            }
            j += 1;
        }
        assert(all.subrange(0, keys.len() as int) =~= all);
        match best {
            None => {
                assert(out@.to_set() =~= m@.dom());
                proof {
                    lemma_ascending_unique(out@, asc_keys(m@.dom()));
                }
                return out;
            },
            Some(b) => {
                let ghost old_out = out@;
                out.push(b);
                assert forall|x: u64| out@.contains(x) <==> (all.contains(x) && x <= b) by {
                    if out@.contains(x) {
                        let w = choose|w: int| 0 <= w < out@.len() && out@[w] == x;
                        if w < old_out.len() {
                            assert(old_out[w] == x);
                        }
                    }
                    if all.contains(x) && x <= b {
                        let w = choose|w: int| 0 <= w < all.len() && all[w] == x;
                        if have_last && x <= last {
                            assert(old_out.contains(x));
                            let v = choose|v: int| 0 <= v < old_out.len() && old_out[v] == x;
                            assert(out@[v] == x);
                        } else {
                            assert(x == b);
                            assert(out@[old_out.len() as int] == x);
                        }
                    }
                }
                proof {
                    if have_last {
                        assert(old_out.contains(last));
                    }
                }
                have_last = true;
                last = b;
            },
        }
    }
}

} // verus!
